//! The ES8311 codec's bus address and clocking, and the expander writes
//! that power the speaker amplifier.

use vstd::prelude::*;
use crate::config::AUDIO_SAMPLE_RATE;

verus! {

/// I2C address of the ES8311 codec.
pub const ES8311_ADDR: u8 = 0x18;
/// I2C address of the TCA9555 expander that switches the amplifier.
pub const TCA9555_ADDR: u8 = 0x20;
/// Output Port 1 register of the expander.
pub const TCA9555_REG_OUT1: u8 = 0x03;
/// Configuration Port 1 register of the expander.
pub const TCA9555_REG_CFG1: u8 = 0x07;
/// Port 1 configuration: pin 8 (the amplifier enable) is the only output.
pub const TCA9555_PA_CONFIG: u8 = 0b1111_1110;

/// Master clock for the codec: 256 times the sample rate, a ratio the
/// driver's clock table holds.
pub const MCLK_FREQ: u32 = AUDIO_SAMPLE_RATE * 256;

/// The register write that powers the amplifier up (`on`) or down.
pub fn pa_set_write(on: bool) -> (w: [u8; 2])
    ensures
        w@ == seq![TCA9555_REG_OUT1, if on { 1u8 } else { 0u8 }],
{
    let level: u8 = if on { 0b0000_0001 } else { 0b0000_0000 };
    let w = [TCA9555_REG_OUT1, level];
    assert(w@ =~= seq![TCA9555_REG_OUT1, if on { 1u8 } else { 0u8 }]);
    w
}

} // verus!
