//! The WS2812 bit stream: each colour sent as 24 pulses, most significant
//! bit first, followed by a reset pulse.

use vstd::prelude::*;
use crate::led::Color;

verus! {

// WS2812 timing at 80 MHz / divider 2 = 40 MHz = 25 ns per tick.
/// High time of a 0 bit (0.4 µs).
pub const T0H: u16 = 16;
/// Low time of a 0 bit (0.85 µs).
pub const T0L: u16 = 34;
/// High time of a 1 bit (0.8 µs).
pub const T1H: u16 = 32;
/// Low time of a 1 bit (0.45 µs).
pub const T1L: u16 = 18;
/// Each half of the reset pulse.
pub const RESET_TICKS: u16 = 2000;

/// Most LEDs one transmission can drive.
pub const MAX_LEDS: usize = 16;
/// Pulses per LED: three channels of eight bits.
pub const CODES_PER_LED: usize = 24;

/// One pulse of the stream.
#[derive(Clone, Copy, Debug, PartialEq, Eq, Structural)]
pub enum Pulse {
    Zero,
    One,
    Reset,
}

/// Channel `j` of a colour in WS2812 wire order: green, red, blue.
pub open spec fn wire_channel(c: Color, j: int) -> u8 {
    if j == 0 {
        c.g
    } else if j == 1 {
        c.r
    } else {
        c.b
    }
}

/// Bit `k` of `b`, counting from the most significant.
pub open spec fn msb_bit(b: u8, k: u8) -> bool {
    (b >> (7 - k) as u8) & 1u8 == 1u8
}

/// Pulse `i` of the stream for `colors`: LED `i / 24`, channel
/// `(i % 24) / 8`, bit `i % 8`.
pub open spec fn pulse_at(colors: Seq<Color>, i: int) -> Pulse {
    if i == colors.len() * 24 {
        Pulse::Reset
    } else if msb_bit(wire_channel(colors[i / 24], (i % 24) / 8), (i % 8) as u8) {
        Pulse::One
    } else {
        Pulse::Zero
    }
}

fn wire_byte(c: Color, j: usize) -> (b: u8)
    requires
        j < 3,
    ensures
        b == wire_channel(c, j as int),
{
    if j == 0 {
        c.g
    } else if j == 1 {
        c.r
    } else {
        c.b
    }
}

/// The pulses that show `colors` on the ring, ending with the reset.
pub fn pulse_train(colors: &[Color]) -> (pulses: Vec<Pulse>)
    requires
        colors@.len() <= MAX_LEDS,
    ensures
        pulses@.len() == colors@.len() * 24 + 1,
        forall|i: int| 0 <= i < pulses@.len() ==> #[trigger] pulses@[i] == pulse_at(colors@, i),
{
    let total = colors.len() * CODES_PER_LED;
    let mut pulses: Vec<Pulse> = Vec::new();
    let mut i: usize = 0;
    while i < total
        invariant
            total == colors@.len() * 24,
            colors@.len() <= 16,
            i <= total,
            pulses@.len() == i,
            forall|k: int| 0 <= k < i ==> #[trigger] pulses@[k] == pulse_at(colors@, k),
        decreases total - i,
    {
        let led = i / CODES_PER_LED;
        let channel = (i % CODES_PER_LED) / 8;
        let bit = (i % 8) as u8;
        let byte = wire_byte(colors[led], channel);
        let is_one = (byte >> (7 - bit)) & 1 == 1;
        if is_one {
            pulses.push(Pulse::One);
        } else {
            pulses.push(Pulse::Zero);
        }
        i = i + 1;
    }
    pulses.push(Pulse::Reset);
    pulses
}

/// The two (level, ticks) halves of a pulse; `true` is the high level.
pub open spec fn pulse_shape(p: Pulse) -> (bool, u16, bool, u16) {
    match p {
        Pulse::One => (true, T1H, false, T1L),
        Pulse::Zero => (true, T0H, false, T0L),
        Pulse::Reset => (false, RESET_TICKS, false, RESET_TICKS),
    }
}

/// The two (level, ticks) halves of a pulse; `true` is the high level.
pub fn pulse_levels(p: Pulse) -> (shape: (bool, u16, bool, u16))
    ensures
        shape == pulse_shape(p),
{
    match p {
        Pulse::One => (true, T1H, false, T1L),
        Pulse::Zero => (true, T0H, false, T0L),
        Pulse::Reset => (false, RESET_TICKS, false, RESET_TICKS),
    }
}

/// The stream sends the LEDs in ring order: the 24 pulses from `24·k`
/// encode LED `k`, green then red then blue, each channel most significant
/// bit first (pulse `24·k + 8·j + b` is `One` exactly when bit `7 − b` of
/// channel `j` is set); pulse `24·n` is the reset.
pub proof fn lemma_pulse_layout(colors: Seq<Color>, k: int, b: u8)
    requires
        0 <= k < colors.len(),
        b < 8,
    ensures
        pulse_at(colors, 24 * k + b) == if (colors[k].g >> (7 - b) as u8) & 1u8 == 1u8 { Pulse::One } else { Pulse::Zero },
        pulse_at(colors, 24 * k + 8 + b) == if (colors[k].r >> (7 - b) as u8) & 1u8 == 1u8 { Pulse::One } else { Pulse::Zero },
        pulse_at(colors, 24 * k + 16 + b) == if (colors[k].b >> (7 - b) as u8) & 1u8 == 1u8 { Pulse::One } else { Pulse::Zero },
        pulse_at(colors, colors.len() * 24int) == Pulse::Reset,
{
    assert((24 * k + b) / 24 == k && (24 * k + b) % 24 / 8 == 0 && (24 * k + b) % 8 == b);
    assert((24 * k + 8 + b) / 24 == k && (24 * k + 8 + b) % 24 / 8 == 1 && (24 * k + 8 + b) % 8 == b);
    assert((24 * k + 16 + b) / 24 == k && (24 * k + 16 + b) % 24 / 8 == 2 && (24 * k + 16 + b) % 8 == b);
}

} // verus!
