use espeaker::rtc::{bcd2bin, bin2bcd, DateTime};
use espeaker::time::{datetime_from_unix, sntp_request, unix_from_sntp, NTP_UNIX_DELTA};

fn dt(year: u16, month: u8, day: u8, hour: u8, minute: u8, second: u8) -> DateTime {
    DateTime { year, month, day, hour, minute, second }
}

#[test]
fn unix_epoch_is_1970() {
    assert_eq!(datetime_from_unix(0), dt(1970, 1, 1, 0, 0, 0));
}

#[test]
fn known_dates() {
    assert_eq!(datetime_from_unix(951_782_400), dt(2000, 2, 29, 0, 0, 0));
    assert_eq!(datetime_from_unix(1_700_000_000), dt(2023, 11, 14, 22, 13, 20));
    assert_eq!(datetime_from_unix(4_107_542_399), dt(2100, 2, 28, 23, 59, 59));
    assert_eq!(datetime_from_unix(4_107_542_400), dt(2100, 3, 1, 0, 0, 0));
    assert_eq!(datetime_from_unix(1_735_689_599), dt(2024, 12, 31, 23, 59, 59));
}

#[test]
fn sntp_request_is_a_client_packet() {
    let req = sntp_request();
    assert_eq!(req[0], 0x1B);
    assert!(req[1..].iter().all(|&b| b == 0));
}

#[test]
fn sntp_reply_gives_unix_time() {
    let mut reply = [0u8; 48];
    let secs: u32 = (NTP_UNIX_DELTA + 1_700_000_000) as u32;
    reply[40..44].copy_from_slice(&secs.to_be_bytes());
    assert_eq!(unix_from_sntp(&reply, 48), Ok(1_700_000_000));
    assert_eq!(unix_from_sntp(&reply, 47), Err("short SNTP response"));
    let early = [0u8; 48];
    assert_eq!(unix_from_sntp(&early, 48), Err("invalid SNTP time"));
}

#[test]
fn bcd_encoding() {
    assert_eq!(bin2bcd(0), 0x00);
    assert_eq!(bin2bcd(9), 0x09);
    assert_eq!(bin2bcd(42), 0x42);
    assert_eq!(bin2bcd(99), 0x99);
    assert_eq!(bcd2bin(0x59), 59);
    assert_eq!(bcd2bin(bin2bcd(37)), 37);
}

#[test]
fn rtc_registers_round_trip() {
    let t = dt(2026, 7, 31, 23, 5, 9);
    let frame = t.to_registers();
    assert_eq!(frame, [0x04, 0x09, 0x05, 0x23, 0x31, 0x00, 0x07, 0x26]);
    let mut regs = [0u8; 7];
    regs.copy_from_slice(&frame[1..]);
    assert_eq!(DateTime::from_registers(&regs), t);
}

#[test]
fn rtc_read_masks_control_bits() {
    // Oscillator-stop flag in the seconds register, weekday 3.
    let regs = [0x80 | 0x30, 0x15, 0x08, 0x01, 0x03, 0x12, 0x99];
    assert_eq!(DateTime::from_registers(&regs), dt(2099, 12, 1, 8, 15, 30));
}
