use espeaker::nvs::NvsError;
use espeaker::wifi::ap::{format_header, handle_portal_request, parse_credentials, request_complete};
use espeaker::wifi::{DeviceConfig, WifiCredentials};

#[test]
fn credentials_keep_short_values() {
    let c = WifiCredentials::new("home", "secret");
    assert_eq!(c.ssid_bytes(), b"home");
    assert_eq!(c.password_bytes(), b"secret");
    assert_eq!(c.ssid_str(), "home");
    assert_eq!(c.password_str(), "secret");
}

#[test]
fn credentials_are_cut_at_a_character_boundary() {
    let ssid = format!("{}é", "a".repeat(31)); // 31 + 2 bytes
    let c = WifiCredentials::new(&ssid, "");
    assert_eq!(c.ssid_str(), "a".repeat(31));
    let long_pw = "p".repeat(70);
    let c = WifiCredentials::new("x", &long_pw);
    assert_eq!(c.password_bytes().len(), 64);
}

#[test]
fn credentials_round_trip_through_the_record() {
    let c = WifiCredentials::new("MyNet", "hunter22");
    let record = c.to_bytes();
    assert_eq!(record[0], 5);
    assert_eq!(&record[1..6], b"MyNet");
    assert_eq!(record[33], 8);
    assert_eq!(&record[34..42], b"hunter22");
    let back = WifiCredentials::from_bytes(&record).unwrap();
    assert_eq!(back.ssid_bytes(), b"MyNet");
    assert_eq!(back.password_bytes(), b"hunter22");
}

#[test]
fn record_with_bad_lengths_is_invalid() {
    let mut record = [0u8; 100];
    record[0] = 33;
    assert!(matches!(WifiCredentials::from_bytes(&record), Err(NvsError::InvalidData)));
    let mut record = [0u8; 100];
    record[33] = 65;
    assert!(matches!(WifiCredentials::from_bytes(&record), Err(NvsError::InvalidData)));
}

#[test]
fn cleared_record_reads_as_empty_credentials() {
    let c = WifiCredentials::from_bytes(&[0u8; 100]).unwrap();
    assert_eq!(c.ssid_bytes(), b"");
    assert_eq!(c.password_bytes(), b"");
}

#[test]
fn portal_form_is_parsed() {
    let req = "POST / HTTP/1.1\r\nHost: 192.168.4.1\r\n\r\nssid=Home&password=pw123";
    let c = parse_credentials(req).unwrap();
    assert_eq!(c.ssid_str(), "Home");
    assert_eq!(c.password_str(), "pw123");
    let c = handle_portal_request(req).unwrap();
    assert_eq!(c.ssid_str(), "Home");
}

#[test]
fn portal_form_without_ssid_is_refused() {
    assert!(parse_credentials("POST / HTTP/1.1\r\n\r\npassword=pw").is_none());
    assert!(parse_credentials("POST / HTTP/1.1\r\n\r\nssid=&password=pw").is_none());
    assert!(parse_credentials("POST / HTTP/1.1\r\nno body").is_none());
}

#[test]
fn portal_form_fields_in_any_order() {
    let c = parse_credentials("POST / HTTP/1.1\r\n\r\npassword=a=b&other=1&ssid=Net").unwrap();
    assert_eq!(c.ssid_str(), "Net");
    assert_eq!(c.password_str(), "a=b");
}

#[test]
fn portal_get_is_answered_with_the_page() {
    assert!(handle_portal_request("GET / HTTP/1.1\r\n\r\nssid=Home").is_none());
}

#[test]
fn request_is_complete_after_the_blank_line() {
    assert!(!request_complete(b"GET / HTTP/1.1\r\n"));
    assert!(request_complete(b"GET / HTTP/1.1\r\n\r\n"));
}

#[test]
fn header_announces_the_length() {
    assert_eq!(
        format_header(1234).as_str(),
        "HTTP/1.0 200 OK\r\nContent-Type: text/html\r\nContent-Length: 1234\r\n\r\n"
    );
    assert_eq!(
        format_header(0).as_str(),
        "HTTP/1.0 200 OK\r\nContent-Type: text/html\r\nContent-Length: 0\r\n\r\n"
    );
}

#[test]
fn device_config_truncates_each_field() {
    let cfg = DeviceConfig::new("net", "pw", "kitchen");
    assert_eq!(cfg.ssid(), "net");
    assert_eq!(cfg.password(), "pw");
    assert_eq!(cfg.name(), "kitchen");
    let name = format!("{}ñ", "n".repeat(31));
    let cfg = DeviceConfig::new(&"s".repeat(40), &"p".repeat(64), &name);
    assert_eq!(cfg.ssid(), "s".repeat(32));
    assert_eq!(cfg.password(), "p".repeat(64));
    assert_eq!(cfg.name(), "n".repeat(31));
}

#[test]
fn portal_form_values_are_url_decoded() {
    let req = "POST / HTTP/1.1\r\n\r\nssid=My+Net&password=a%26b%3D1";
    let c = parse_credentials(req).unwrap();
    assert_eq!(c.ssid_str(), "My Net");
    assert_eq!(c.password_str(), "a&b=1");
    let expected = WifiCredentials::new("My Net", "a&b=1");
    assert_eq!(c.ssid_bytes(), expected.ssid_bytes());
    assert_eq!(c.password_bytes(), expected.password_bytes());
}

#[test]
fn portal_form_decoding_edge_cases() {
    // Lower-case hex digits, a key written encoded, a stray '%'.
    let c = parse_credentials("POST / HTTP/1.1\r\n\r\n%73sid=caf%c3%a9&password=100%+sure%2").unwrap();
    assert_eq!(c.ssid_str(), "café");
    assert_eq!(c.password_str(), "100% sure%2");
    // An SSID that decodes to a space is not empty.
    let c = parse_credentials("POST / HTTP/1.1\r\n\r\nssid=+").unwrap();
    assert_eq!(c.ssid_str(), " ");
}
