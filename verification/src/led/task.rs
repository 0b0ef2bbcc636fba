//! The LED ring's state and the commands that change it.

use vstd::prelude::*;
use crate::led::Color;
use crate::led::animations::Animation;

verus! {

/// Brightness of a freshly started ring.
pub const INITIAL_BRIGHTNESS: u8 = 128;

/// A request to the LED task.
#[derive(Clone, Copy, Debug, PartialEq, Eq, Structural)]
pub enum LedCommand {
    /// Run an animation once, then wait for the next command.
    Once(Animation),
    /// Run an animation until the next command arrives.
    Loop(Animation),
    /// Set one LED.
    SetLed(usize, Color),
    /// Set every LED.
    SetAll(Color),
    /// Turn every LED off.
    Clear,
    /// Change the brightness of the frames that follow.
    Brightness(u8),
}

/// What the LED task does after taking a command.
#[derive(Clone, Copy, Debug, PartialEq, Eq, Structural)]
pub enum LedAction {
    /// Send the new colours to the ring, then wait for the next command.
    Show,
    /// Nothing to show: wait for the next command.
    Wait,
    /// Run the animation once; a command arriving meanwhile cuts it short.
    RunOnce(Animation),
    /// Run the animation until the next command arrives.
    RunForever(Animation),
}

/// The colours shown on the ring and the brightness applied to new ones.
pub struct LedState {
    colors: Vec<Color>,
    brightness: u8,
}

/// The content of a ring: one colour per LED, and the brightness.
pub struct LedView {
    pub colors: Seq<Color>,
    pub brightness: u8,
}

impl View for LedState {
    type V = LedView;

    closed spec fn view(&self) -> LedView {
        LedView { colors: self.colors@, brightness: self.brightness }
    }
}

/// An LED that is off.
pub open spec fn dark() -> Color {
    Color { r: 0, g: 0, b: 0 }
}

/// `count` copies of one colour.
pub open spec fn uniform(count: int, c: Color) -> Seq<Color> {
    Seq::new(count as nat, |i: int| c)
}

fn filled(count: usize, c: Color) -> (v: Vec<Color>)
    ensures
        v@ == uniform(count as int, c),
{
    let mut v: Vec<Color> = Vec::new();
    let mut i: usize = 0;
    while i < count
        invariant
            i <= count,
            v@ =~= uniform(i as int, c),
        decreases count - i,
    {
        v.push(c);
        i = i + 1;
    }
    v
}

/// The ring after `cmd`, and what the task does next.
pub open spec fn apply_spec(s: LedView, cmd: LedCommand) -> (LedView, LedAction) {
    match cmd {
        LedCommand::Brightness(b) => (LedView { colors: s.colors, brightness: b }, LedAction::Wait),
        LedCommand::SetLed(i, c) => if i < s.colors.len() {
            (LedView { colors: s.colors.update(i as int, c.scaled(s.brightness)), brightness: s.brightness }, LedAction::Show)
        } else {
            (s, LedAction::Wait)
        },
        LedCommand::SetAll(c) => (
            LedView { colors: uniform(s.colors.len() as int, c.scaled(s.brightness)), brightness: s.brightness },
            LedAction::Show,
        ),
        LedCommand::Clear => (
            LedView {
                colors: uniform(s.colors.len() as int, dark().scaled(s.brightness)),
                brightness: s.brightness,
            },
            LedAction::Show,
        ),
        LedCommand::Once(a) => (s, LedAction::RunOnce(a)),
        LedCommand::Loop(a) => (s, LedAction::RunForever(a)),
    }
}

impl LedState {
    /// A ring of `count` dark LEDs at the initial brightness.
    pub fn new(count: usize) -> (s: Self)
        ensures
            s@.colors == uniform(count as int, dark()),
            s@.brightness == INITIAL_BRIGHTNESS,
    {
        LedState { colors: filled(count, Color::black()), brightness: INITIAL_BRIGHTNESS }
    }

    /// The colours on the ring.
    pub fn colors(&self) -> (c: &[Color])
        ensures
            c@ == self@.colors,
    {
        self.colors.as_slice()
    }

    /// The brightness applied to new colours.
    pub fn brightness(&self) -> (b: u8)
        ensures
            b == self@.brightness,
    {
        self.brightness
    }

    /// Set LED `index` to `color` at the current brightness; `false`, with
    /// nothing changed, when there is no such LED.
    pub fn set(&mut self, index: usize, color: Color) -> (changed: bool)
        ensures
            changed == (index < old(self)@.colors.len()),
            changed ==> final(self)@.colors == old(self)@.colors.update(index as int, color.scaled(old(self)@.brightness)),
            !changed ==> final(self)@.colors == old(self)@.colors,
            final(self)@.brightness == old(self)@.brightness,
    {
        if index < self.colors.len() {
            let scaled = color.scale(self.brightness);
            self.colors.set(index, scaled);
            true
        } else {
            false
        }
    }

    /// Set every LED to `color` at the current brightness.
    pub fn set_all(&mut self, color: Color)
        ensures
            final(self)@.colors == uniform(old(self)@.colors.len() as int, color.scaled(old(self)@.brightness)),
            final(self)@.brightness == old(self)@.brightness,
    {
        let scaled = color.scale(self.brightness);
        let n = self.colors.len();
        self.colors = filled(n, scaled);
    }

    /// Turn every LED off.
    pub fn clear(&mut self)
        ensures
            final(self)@.colors == uniform(old(self)@.colors.len() as int, dark()),
            final(self)@.brightness == old(self)@.brightness,
    {
        proof {
            lemma_black_scaled(self.brightness);
        }
        self.set_all(Color::black());
    }

    /// Change the brightness; the colours on the ring stay as they are
    /// until the next frame.
    pub fn set_brightness(&mut self, brightness: u8)
        ensures
            final(self)@.colors == old(self)@.colors,
            final(self)@.brightness == brightness,
    {
        self.brightness = brightness;
    }

    /// Show a complete frame as it is, without further scaling.
    pub fn set_raw(&mut self, colors: &[Color])
        requires
            colors@.len() == old(self)@.colors.len(),
        ensures
            final(self)@.colors == colors@,
            final(self)@.brightness == old(self)@.brightness,
    {
        self.colors = vstd::slice::slice_to_vec(colors);
    }

    /// Take a command: update the ring and say what to do next.
    pub fn apply(&mut self, cmd: LedCommand) -> (action: LedAction)
        ensures
            (final(self)@, action) == apply_spec(old(self)@, cmd),
    {
        match cmd {
            LedCommand::Brightness(b) => {
                self.set_brightness(b);
                LedAction::Wait
            },
            LedCommand::SetLed(i, c) => {
                if self.set(i, c) {
                    LedAction::Show
                } else {
                    LedAction::Wait
                }
            },
            LedCommand::SetAll(c) => {
                self.set_all(c);
                LedAction::Show
            },
            LedCommand::Clear => {
                self.set_all(Color::black());
                LedAction::Show
            },
            LedCommand::Once(a) => LedAction::RunOnce(a),
            LedCommand::Loop(a) => LedAction::RunForever(a),
        }
    }
}

proof fn lemma_black_scaled(b: u8)
    ensures
        dark().scaled(b) == dark(),
{
}

/// Clearing leaves every LED dark, whatever the brightness.
pub proof fn lemma_clear_is_dark(s: LedView)
    ensures
        apply_spec(s, LedCommand::Clear).0.colors == uniform(s.colors.len() as int, dark()),
{
    lemma_black_scaled(s.brightness);
}

/// A brightness change alters no LED until the next frame is drawn.
pub proof fn lemma_brightness_keeps_colors(s: LedView, b: u8)
    ensures
        apply_spec(s, LedCommand::Brightness(b)).0.colors == s.colors,
        apply_spec(s, LedCommand::Brightness(b)).0.brightness == b,
{
}

/// Every command keeps the number of LEDs.
pub proof fn lemma_apply_keeps_ring_size(s: LedView, cmd: LedCommand)
    ensures
        apply_spec(s, cmd).0.colors.len() == s.colors.len(),
{
}

} // verus!
