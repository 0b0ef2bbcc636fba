//! Tunables of the speaker, and the device identifier derived from the
//! factory MAC address.

use vstd::prelude::*;

verus! {

pub const CHANNEL_SIZE: usize = 8;
pub const AUDIO_QUEUE_DEPTH: usize = 8;

// Audio
pub const AUDIO_SAMPLE_RATE: u32 = 48_000;
pub const DEFAULT_VOLUME: u8 = 70;
pub const AUDIO_DMA_BUF_SIZE: usize = 4096;

// LEDs
pub const DEFAULT_LED_BRIGHTNESS: u8 = 10;

// Wi-Fi
pub const MAX_STA_FAILS: u32 = 3;
pub const DHCP_TIMEOUT_SECS: u64 = 15;
pub const AP_SUBNET_PREFIX_LEN: u8 = 24;

// MQTT
pub const MQTT_PORT: u16 = 1883;
pub const MQTT_KEEPALIVE_SECS: u16 = 20;
pub const MQTT_SESSION_EXPIRY_SECS: u32 = 60;
pub const MQTT_SOCKET_TIMEOUT_SECS: u16 = 30;
pub const MQTT_RECONNECT_DELAY_SECS: u8 = 5;

// Time sync
pub const NTP_SERVER: &'static str = "pool.ntp.org";
pub const NTP_RESYNC_INTERVAL_SECS: u64 = 3600;
pub const SNTP_TIMEOUT_SECS: u64 = 5;

// Button / factory reset
pub const BUTTON_HOLD_DURATION_SECS: u64 = 3;
pub const FACTORY_RESET_REBOOT_DELAY_MS: u64 = 600;
pub const BUTTON_POLL_INTERVAL_MS: u64 = 50;
pub const BUTTON_DEBOUNCE_MS: u64 = 80;

// Boot delays
pub const WIFI_FAIL_REBOOT_DELAY_SECS: u64 = 2;
pub const PORTAL_REBOOT_DELAY_SECS: u64 = 1;
pub const IDLE_HEARTBEAT_INTERVAL_SECS: u64 = 30;

// Wi-Fi STA
pub const STA_RECONNECT_DELAY_SECS: u64 = 5;

// Wi-Fi AP
pub const AP_SOCKET_TIMEOUT_SECS: u16 = 10;
pub const AP_SERVE_CLOSE_DELAY_MS: u64 = 500;
pub const AP_EVENT_POLL_INTERVAL_MS: u64 = 5000;

// Audio codec timing
pub const CODEC_UNMUTE_AMP_ON_DELAY_MS: u64 = 10;
pub const CODEC_AMP_ON_PLAY_DELAY_MS: u64 = 30;
pub const CODEC_AMP_OFF_MUTE_DELAY_MS: u64 = 5;

/// Length of a device identifier: `ES-` and twelve hex digits.
pub const DEVICE_ID_LEN: usize = 15;

/// The upper-case hexadecimal digit (ASCII) of a nibble.
pub open spec fn hex_char(n: u8) -> u8 {
    if n < 10 {
        (48 + n) as u8
    } else {
        (55 + n) as u8
    }
}

/// The upper-case hexadecimal digit of a nibble, as an ASCII byte.
pub fn hex_digit(nibble: u8) -> (d: u8)
    requires
        nibble < 16,
    ensures
        d == hex_char(nibble),
        (48 <= d <= 57) || (65 <= d <= 70),
{
    if nibble <= 9 {
        48u8 + nibble
    } else {
        65u8 + (nibble - 10)
    }
}

/// The identifier of the device with factory MAC address `mac`:
/// `ES-` followed by each byte of the address as two upper-case hex
/// digits, high nibble first.
pub open spec fn device_id_spec(mac: Seq<u8>) -> Seq<u8> {
    seq![69u8, 83u8, 45u8] + Seq::new(12, |i: int| {
        let b = mac[i / 2];
        if i % 2 == 0 {
            hex_char(b / 16)
        } else {
            hex_char(b % 16)
        }
    })
}

/// The bytes of the device identifier for a MAC address; all ASCII, so
/// they are valid UTF-8 text.
pub fn device_id_bytes(mac: &[u8; 6]) -> (id: [u8; 15])
    ensures
        id@ == device_id_spec(mac@),
        forall|i: int| 0 <= i < 15 ==> #[trigger] id@[i] < 0x80,
{
    let mut buf = [0u8; 15];
    buf[0] = 69u8;
    buf[1] = 83u8;
    buf[2] = 45u8;
    let mut k: usize = 0;
    while k < 6
        invariant
            k <= 6,
            buf@.len() == 15,
            buf@[0] == 69u8,
            buf@[1] == 83u8,
            buf@[2] == 45u8,
            forall|i: int| 0 <= i < 2 * k ==> #[trigger] buf@[3 + i] == device_id_spec(mac@)[3 + i],
        decreases 6 - k,
    {
        let byte = mac[k];
        proof {
            assert(byte >> 4 == byte / 16) by (bit_vector);
            assert(byte & 0x0F == byte % 16) by (bit_vector);
        }
        let hi = hex_digit(byte >> 4);
        let lo = hex_digit(byte & 0x0F);
        buf[3 + 2 * k] = hi;
        buf[4 + 2 * k] = lo;
        proof {
            let s = device_id_spec(mac@);
            assert(s[3 + 2 * k] == hex_char(mac@[k as int] / 16)) by {
                assert((2 * k as int) / 2 == k as int);
                assert((2 * k as int) % 2 == 0);
            }
            assert(s[4 + 2 * k] == hex_char(mac@[k as int] % 16)) by {
                assert((2 * k as int + 1) / 2 == k as int);
                assert((2 * k as int + 1) % 2 == 1);
            }
        }
        k = k + 1;
    }
    let ghost s = device_id_spec(mac@);
    assert forall|i: int| 0 <= i < 15 implies buf@[i] == s[i] by {
        if i >= 3 {
            assert(buf@[3 + (i - 3)] == s[3 + (i - 3)]);
        }
    }
    assert(buf@ =~= s);
    assert forall|i: int| 0 <= i < 15 implies #[trigger] buf@[i] < 0x80 by {
        if i >= 3 {
            let b = mac@[(i - 3) / 2];
            assert(b / 16 < 16 && b % 16 < 16);
        }
    }
    buf
}

} // verus!
