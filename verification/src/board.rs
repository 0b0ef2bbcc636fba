//! Board facts of the Waveshare ESP32-S3-AUDIO-Board, and the logic of its
//! TCA9555 key inputs.

use vstd::prelude::*;

verus! {

/// Number of on-board WS2812 RGB LEDs (7-LED ring).
pub const LED_COUNT: usize = 7;

/// I2C address of the TCA9555 expander.
pub const TCA9555_ADDR: u8 = 0x20;
/// Input Port 1 register (pins 8-15).
pub const REG_INPUT_PORT_1: u8 = 0x01;
/// Configuration Port 1 register (0 = output, 1 = input).
pub const REG_CONFIGURATION_PORT_1: u8 = 0x07;

/// The Port 1 bit of expander pin `pin`.
pub fn key_mask(pin: u8) -> (mask: u8)
    requires
        pin < 8,
    ensures
        mask == 1u8 << pin,
{
    1u8 << pin
}

/// Port 1 configuration `config` with the key's pin switched to input.
pub fn input_config(config: u8, mask: u8) -> (c: u8)
    ensures
        c == config | mask,
{
    config | mask
}

/// Whether a key is pressed, from a read of Port 1: the pin reads low when
/// pressed; a failed read counts as released.
pub fn key_pressed(port: Option<u8>, mask: u8) -> (pressed: bool)
    ensures
        pressed == match port {
            Some(p) => p & mask == 0,
            None => false,
        },
{
    match port {
        Some(p) => p & mask == 0,
        None => false,
    }
}

/// Switching a key to input (`input_config(config, key_mask(pin))`) sets
/// that pin's bit and keeps every other pin's configuration.
pub proof fn lemma_input_config_sets_only_key(config: u8, pin: u8, other: u8)
    requires
        pin < 8,
        other < 8,
    ensures
        ((config | (1u8 << pin)) >> pin) & 1 == 1,
        other != pin ==> ((config | (1u8 << pin)) >> other) & 1 == (config >> other) & 1,
{
    assert((((config | (1u8 << pin)) >> pin) & 1 == 1) && (other != pin ==> ((config | (1u8 << pin)) >> other) & 1
        == (config >> other) & 1)) by (bit_vector)
        requires
            pin < 8,
            other < 8,
    ;
}

} // verus!
