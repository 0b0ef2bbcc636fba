//! The on-board LED ring: colours, animations, the ring's state and the
//! WS2812 bit stream.

pub mod animations;
pub mod task;
pub mod ws2812;

pub use animations::Animation;
pub use task::{LedAction, LedCommand, LedState};

use vstd::prelude::*;

verus! {

/// One RGB colour, eight bits per channel.
#[derive(Clone, Copy, Debug, PartialEq, Eq, Structural)]
pub struct Color {
    pub r: u8,
    pub g: u8,
    pub b: u8,
}

/// A channel value multiplied by `brightness / 255`, rounded down.
pub open spec fn scale_channel(c: u8, brightness: u8) -> int {
    (c as int * brightness as int) / 255
}

/// HSV to RGB conversion on 8-bit values, split into six hue regions of
/// width 43 (the usual integer approximation of the colour wheel).
pub open spec fn hsv_to_rgb(hue: u8, sat: u8, val: u8) -> (u8, u8, u8) {
    if sat == 0 {
        (val, val, val)
    } else {
        let region = hue as int / 43;
        let rem = (hue as int - region * 43) * 6;
        let p = (val as int * (255 - sat as int)) / 255;
        let q = (val as int * (255 - (sat as int * rem) / 255)) / 255;
        let t = (val as int * (255 - (sat as int * (255 - rem)) / 255)) / 255;
        if region == 0 {
            (val, t as u8, p as u8)
        } else if region == 1 {
            (q as u8, val, p as u8)
        } else if region == 2 {
            (p as u8, val, t as u8)
        } else if region == 3 {
            (p as u8, q as u8, val)
        } else if region == 4 {
            (t as u8, p as u8, val)
        } else {
            (val, p as u8, q as u8)
        }
    }
}

proof fn lemma_scale_bound(c: u8, s: u8)
    ensures
        0 <= (c as int * s as int) / 255 <= c,
        (c as int * s as int) / 255 <= s,
{
    assert(0 <= c as int * s as int <= c as int * 255) by (nonlinear_arith);
    assert(c as int * s as int <= 255 * s as int) by (nonlinear_arith);
    assert((c as int * s as int) / 255 <= c) by (nonlinear_arith)
        requires
            0 <= c as int * s as int <= c as int * 255,
    ;
    assert((c as int * s as int) / 255 <= s) by (nonlinear_arith)
        requires
            0 <= c as int * s as int <= 255 * s as int,
    ;
    assert(0 <= (c as int * s as int) / 255) by (nonlinear_arith)
        requires
            0 <= c as int * s as int,
    ;
}

fn scale_u8(c: u8, s: u8) -> (r: u8)
    ensures
        r == scale_channel(c, s),
        r <= c,
        r <= s,
{
    proof {
        lemma_scale_bound(c, s);
    }
    ((c as u16 * s as u16) / 255) as u8
}

impl Color {
    /// The named colour `black`.
    pub fn black() -> (c: Color)
        ensures
            c == (Color { r: 0, g: 0, b: 0 }),
    {
        Color { r: 0, g: 0, b: 0 }
    }

    /// The named colour `white`.
    pub fn white() -> (c: Color)
        ensures
            c == (Color { r: 255, g: 255, b: 255 }),
    {
        Color { r: 255, g: 255, b: 255 }
    }

    /// The named colour `red`.
    pub fn red() -> (c: Color)
        ensures
            c == (Color { r: 255, g: 0, b: 0 }),
    {
        Color { r: 255, g: 0, b: 0 }
    }

    /// The named colour `green`.
    pub fn green() -> (c: Color)
        ensures
            c == (Color { r: 0, g: 255, b: 0 }),
    {
        Color { r: 0, g: 255, b: 0 }
    }

    /// The named colour `blue`.
    pub fn blue() -> (c: Color)
        ensures
            c == (Color { r: 0, g: 0, b: 255 }),
    {
        Color { r: 0, g: 0, b: 255 }
    }

    /// The named colour `yellow`.
    pub fn yellow() -> (c: Color)
        ensures
            c == (Color { r: 255, g: 255, b: 0 }),
    {
        Color { r: 255, g: 255, b: 0 }
    }

    /// The named colour `cyan`.
    pub fn cyan() -> (c: Color)
        ensures
            c == (Color { r: 0, g: 255, b: 255 }),
    {
        Color { r: 0, g: 255, b: 255 }
    }

    /// The named colour `purple`.
    pub fn purple() -> (c: Color)
        ensures
            c == (Color { r: 128, g: 0, b: 128 }),
    {
        Color { r: 128, g: 0, b: 128 }
    }

    pub fn new(r: u8, g: u8, b: u8) -> (c: Color)
        ensures
            c == (Color { r, g, b }),
    {
        Color { r, g, b }
    }

    /// The colour as it is after `scale(brightness)`.
    pub open spec fn scaled(self, brightness: u8) -> Color {
        Color {
            r: scale_channel(self.r, brightness) as u8,
            g: scale_channel(self.g, brightness) as u8,
            b: scale_channel(self.b, brightness) as u8,
        }
    }

    /// Dim every channel by `brightness / 255` (rounding down).
    pub fn scale(self, brightness: u8) -> (c: Color)
        ensures
            c.r == scale_channel(self.r, brightness),
            c.g == scale_channel(self.g, brightness),
            c.b == scale_channel(self.b, brightness),
            c == self.scaled(brightness),
    {
        Color {
            r: scale_u8(self.r, brightness),
            g: scale_u8(self.g, brightness),
            b: scale_u8(self.b, brightness),
        }
    }

    /// Convert an HSV triple to RGB.
    pub fn from_hsv(hue: u8, sat: u8, val: u8) -> (c: Color)
        ensures
            (c.r, c.g, c.b) == hsv_to_rgb(hue, sat, val),
    {
        if sat == 0 {
            return Color::new(val, val, val);
        }
        let region: u8 = hue / 43;
        let rem: u8 = (hue - region * 43) * 6;
        let p: u8 = scale_u8(val, 255 - sat);
        let q: u8 = scale_u8(val, 255 - scale_u8(sat, rem));
        let t: u8 = scale_u8(val, 255 - scale_u8(sat, 255 - rem));
        match region {
            0 => Color::new(val, t, p),
            1 => Color::new(q, val, p),
            2 => Color::new(p, val, t),
            3 => Color::new(p, q, val),
            4 => Color::new(t, p, val),
            _ => Color::new(val, p, q),
        }
    }
}

/// The HSV wheel region by region, in terms of the inputs: with
/// `p = val·(255−sat)/255` (the smallest channel) and, for the region that
/// starts at hue `h0` and `rem = (hue − h0)·6`,
/// `q = val·(255 − sat·rem/255)/255` (falling) and
/// `t = val·(255 − sat·(255−rem)/255)/255` (rising), the colour is
/// red→yellow `(val, t, p)` below 43, yellow→green `(q, val, p)` below 86,
/// green→cyan `(p, val, t)` below 129, cyan→blue `(p, q, val)` below 172,
/// blue→magenta `(t, p, val)` below 215, magenta→red `(val, p, q)` from 215
/// on; with no saturation it is the grey `(val, val, val)`.
pub proof fn lemma_hsv_wheel(hue: u8, sat: u8, val: u8)
    ensures
        sat == 0 ==> hsv_to_rgb(hue, sat, val) == (val, val, val),
        ({
            let v = val as int;
            let s = sat as int;
            let p = (v * (255 - s) / 255) as u8;
            let q = |h0: int| (v * (255 - s * ((hue as int - h0) * 6) / 255) / 255) as u8;
            let t = |h0: int| (v * (255 - s * (255 - (hue as int - h0) * 6) / 255) / 255) as u8;
            &&& sat > 0 && hue < 43 ==> hsv_to_rgb(hue, sat, val) == (val, t(0), p)
            &&& sat > 0 && 43 <= hue < 86 ==> hsv_to_rgb(hue, sat, val) == (q(43), val, p)
            &&& sat > 0 && 86 <= hue < 129 ==> hsv_to_rgb(hue, sat, val) == (p, val, t(86))
            &&& sat > 0 && 129 <= hue < 172 ==> hsv_to_rgb(hue, sat, val) == (p, q(129), val)
            &&& sat > 0 && 172 <= hue < 215 ==> hsv_to_rgb(hue, sat, val) == (t(172), p, val)
            &&& sat > 0 && 215 <= hue ==> hsv_to_rgb(hue, sat, val) == (val, p, q(215))
        }),
{
}

} // verus!
