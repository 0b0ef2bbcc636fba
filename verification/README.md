# espeaker

Firmware core of an ESP32-S3 network speaker (Waveshare ESP32-S3-AUDIO-Board):
Wi-Fi provisioning through a setup portal, MQTT remote control, spoken
announcements, SNTP time kept in an RTC, and an RGB LED ring.

The crate is verified with Verus.

- `src/` is the verified library: the MQTT topic scheme and message routing,
  the setup portal's request parsing and response header, the credential
  record kept in flash, the device configuration, announcement payload
  decoding (hex and base64) and the announcement stream that strips the WAV
  header, the sine oscillator, the calendar conversion of SNTP time and the
  RTC's BCD registers, the LED ring's state, animation frames and WS2812 bit
  stream, key press detection, and the boot decision that falls back to the
  setup portal after repeated failed connections. `src/bounded.rs` and
  `src/text.rs` state what the library relies on from `heapless` and from
  the standard library's string functions.
- `app/` is the firmware around it: `main`, the embassy tasks, and the
  drivers for the radio, flash, I2S, RMT, I2C codec and RTC, plus the
  floating-point parts of sound synthesis and LED fading.
- `tests/` exercises the library on concrete values.
