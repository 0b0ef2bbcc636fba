use espeaker::board::{input_config, key_mask, key_pressed, LED_COUNT};
use espeaker::boot::plan_boot;
use espeaker::button::{factory_reset_due, PressDetector};
use espeaker::config::{device_id_bytes, hex_digit, MAX_STA_FAILS};

#[test]
fn hex_digits_are_upper_case() {
    assert_eq!(hex_digit(0), b'0');
    assert_eq!(hex_digit(9), b'9');
    assert_eq!(hex_digit(10), b'A');
    assert_eq!(hex_digit(15), b'F');
}

#[test]
fn device_id_spells_the_mac() {
    let id = device_id_bytes(&[0xA1, 0xB2, 0x03, 0x4D, 0xE5, 0xF0]);
    assert_eq!(&id, b"ES-A1B2034DE5F0");
    assert!(core::str::from_utf8(&id).is_ok());
}

#[test]
fn key_masks_and_configuration() {
    assert_eq!(key_mask(0), 0x01);
    assert_eq!(key_mask(3), 0x08);
    assert_eq!(key_mask(7), 0x80);
    assert_eq!(input_config(0b0000_0001, key_mask(2)), 0b0000_0101);
}

#[test]
fn keys_are_active_low() {
    let m = key_mask(1);
    assert!(key_pressed(Some(0b1111_1101), m));
    assert!(!key_pressed(Some(0b0000_0010), m));
    assert!(!key_pressed(None, m));
    assert_eq!(LED_COUNT, 7);
}

#[test]
fn a_held_key_fires_once() {
    let mut d = PressDetector::new();
    assert!(!d.update(false));
    assert!(d.update(true));
    assert!(!d.update(true));
    assert!(!d.update(true));
    assert!(!d.update(false));
    assert!(d.update(true));
}

#[test]
fn long_press_requests_factory_reset() {
    assert!(!factory_reset_due(0));
    assert!(!factory_reset_due(2999));
    assert!(factory_reset_due(3000));
    assert!(factory_reset_due(10_000));
}

#[test]
fn boot_plan_counts_failures() {
    let p = plan_boot(false, 0);
    assert!(!p.force_portal && !p.clear_credentials);
    assert_eq!((p.fail_count, p.attempt_fail_count), (0, 1));
    let p = plan_boot(false, 2);
    assert!(!p.force_portal);
    assert_eq!(p.attempt_fail_count, 3);
    let p = plan_boot(false, MAX_STA_FAILS);
    assert!(p.force_portal);
    assert_eq!(p.fail_count, 0);
}

#[test]
fn factory_reset_clears_and_restarts_the_count() {
    let p = plan_boot(true, 7);
    assert!(p.clear_credentials);
    assert!(!p.force_portal);
    assert_eq!((p.fail_count, p.attempt_fail_count), (0, 1));
}

#[test]
fn three_failed_boots_open_the_portal() {
    let mut count = 0;
    for _ in 0..3 {
        let p = plan_boot(false, count);
        assert!(!p.force_portal);
        count = p.attempt_fail_count;
    }
    assert!(plan_boot(false, count).force_portal);
}
