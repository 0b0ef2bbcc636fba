//! LED ring animations: their timing and the frames they show.

use vstd::prelude::*;
use crate::led::{hsv_to_rgb, Color};

verus! {

/// An animation of the LED ring.
#[derive(Clone, Copy, Debug, PartialEq, Eq, Structural)]
pub enum Animation {
    /// Every LED in one colour.
    Solid(Color),
    /// The colour wheel spread over the ring, turning.
    Rainbow { speed: u8 },
    /// The whole ring fading in and out.
    Pulse { color: Color, speed: u8 },
    /// One lit LED with a dim trail running around the ring.
    Chase { color: Color, speed: u8 },
}

/// Frames of a rainbow cycle.
pub const RAINBOW_STEPS: u16 = 256;

/// Frames of each half (fade in, fade out) of a pulse.
pub const PULSE_STEPS: u16 = 128;

/// `a - b`, or zero when `b > a`.
pub open spec fn saturating_diff(a: int, b: int) -> int {
    if a >= b { a - b } else { 0 }
}

/// Milliseconds between two frames of an animation.
pub open spec fn frame_delay(a: Animation) -> int {
    match a {
        Animation::Solid(_) => 0,
        Animation::Rainbow { speed } => saturating_diff(20, speed as int / 5),
        Animation::Pulse { speed, .. } => saturating_diff(10, speed as int / 10),
        Animation::Chase { speed, .. } => saturating_diff(100, speed as int * 10),
    }
}

/// Frames in one run of an animation on a ring of `leds` LEDs.
pub open spec fn frame_count(a: Animation, leds: int) -> int {
    match a {
        Animation::Solid(_) => 1,
        Animation::Rainbow { .. } => RAINBOW_STEPS as int,
        Animation::Pulse { .. } => 2 * PULSE_STEPS as int,
        Animation::Chase { .. } => leds,
    }
}

/// The hue of LED `i` of `n` at rainbow step `step`: the wheel spread
/// evenly over the ring and turned by `step`.
pub open spec fn rainbow_hue(step: int, i: int, n: int) -> int {
    (step + (i * 256) / n) % 256
}

/// The colour an HSV triple converts to.
pub open spec fn hsv_color(hue: u8, sat: u8, val: u8) -> Color {
    let (r, g, b) = hsv_to_rgb(hue, sat, val);
    Color { r, g, b }
}

/// Frame `index` of a chase: LED `index` lit at full brightness, the one
/// before it at a third of it, the rest dark.
pub open spec fn chase_color(color: Color, brightness: u8, index: int, i: int) -> Color {
    if i == index {
        color.scaled(brightness)
    } else if index > 0 && i == index - 1 {
        color.scaled(brightness / 3)
    } else {
        Color { r: 0, g: 0, b: 0 }
    }
}

impl Animation {
    /// Milliseconds to wait after each frame.
    pub fn frame_delay_ms(&self) -> (d: u64)
        ensures
            d == frame_delay(*self),
    {
        match self {
            Animation::Solid(_) => 0,
            Animation::Rainbow { speed } => 20u64.saturating_sub(*speed as u64 / 5),
            Animation::Pulse { speed, .. } => 10u64.saturating_sub(*speed as u64 / 10),
            Animation::Chase { speed, .. } => 100u64.saturating_sub(*speed as u64 * 10),
        }
    }

    /// Frames in one run of the animation on a ring of `leds` LEDs.
    pub fn frame_count(&self, leds: usize) -> (n: usize)
        ensures
            n == frame_count(*self, leds as int),
    {
        match self {
            Animation::Solid(_) => 1,
            Animation::Rainbow { .. } => 256,
            Animation::Pulse { .. } => 256,
            Animation::Chase { .. } => leds,
        }
    }
}

/// Frame `step` of the rainbow on a ring of `count` LEDs, at brightness
/// `brightness`.
pub fn rainbow_frame(step: u16, count: usize, brightness: u8) -> (frame: Vec<Color>)
    requires
        step < RAINBOW_STEPS,
        count <= 256,
    ensures
        frame@.len() == count,
        forall|i: int| 0 <= i < count ==> #[trigger] frame@[i] == hsv_color(
            rainbow_hue(step as int, i, count as int) as u8,
            255,
            brightness,
        ),
{
    let mut frame: Vec<Color> = Vec::new();
    let mut i: usize = 0;
    while i < count
        invariant
            i <= count <= 256,
            step < 256,
            frame@.len() == i,
            forall|j: int| 0 <= j < i ==> #[trigger] frame@[j] == hsv_color(
                rainbow_hue(step as int, j, count as int) as u8,
                255,
                brightness,
            ),
        decreases count - i,
    {
        let n = count as u16;
        let iu = i as u16;
        assert(iu * 256 <= 65535) by (nonlinear_arith)
            requires
                iu < 256,
        ;
        assert((iu as int * 256) / (n as int) <= 256) by (nonlinear_arith)
            requires
                iu < n,
                n > 0,
        ;
        let spread: u16 = iu * 256 / n;
        let hue = ((step + spread) % 256) as u8;
        let c = Color::from_hsv(hue, 255, brightness);
        frame.push(c);
        i = i + 1;
    }
    frame
}

/// Frame `index` of a chase of `color` on a ring of `count` LEDs.
pub fn chase_frame(index: usize, count: usize, color: Color, brightness: u8) -> (frame: Vec<Color>)
    requires
        index < count,
    ensures
        frame@.len() == count,
        forall|i: int| 0 <= i < count ==> #[trigger] frame@[i] == chase_color(color, brightness, index as int, i),
{
    let lit = color.scale(brightness);
    let trail = color.scale(brightness / 3);
    let mut frame: Vec<Color> = Vec::new();
    let mut i: usize = 0;
    while i < count
        invariant
            i <= count,
            index < count,
            lit == color.scaled(brightness),
            trail == color.scaled(brightness / 3),
            frame@.len() == i,
            forall|j: int| 0 <= j < i ==> #[trigger] frame@[j] == chase_color(color, brightness, index as int, j),
        decreases count - i,
    {
        if i == index {
            frame.push(lit);
        } else if index > 0 && i == index - 1 {
            frame.push(trail);
        } else {
            frame.push(Color::black());
        }
        i = i + 1;
    }
    frame
}

} // verus!
