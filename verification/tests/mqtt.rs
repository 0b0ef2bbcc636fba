use espeaker::mqtt::mqtt::{event_publication, parse_str, parse_u8, route_command, EventTopic, DEFAULT_STREAM_URL};
use espeaker::mqtt::msg_protocol::{AppEvent, AudioCommand, MQTTTopics};

#[test]
fn topics_of_a_device() {
    let t = MQTTTopics::new("ES-A1B2C3D4E5F6");
    assert_eq!(t.get_prefix().unwrap().as_str(), "speaker/ES-A1B2C3D4E5F6/");
    assert_eq!(t.subscrive_wildcard().unwrap().as_str(), "speaker/ES-A1B2C3D4E5F6/#");
    assert_eq!(t.volume_changed().unwrap().as_str(), "speaker/ES-A1B2C3D4E5F6/volume");
    assert_eq!(t.status().unwrap().as_str(), "speaker/ES-A1B2C3D4E5F6/status");
    assert_eq!(t.button_press(3).unwrap().as_str(), "speaker/ES-A1B2C3D4E5F6/button/3");
    assert_eq!(t.button_press(255).unwrap().as_str(), "speaker/ES-A1B2C3D4E5F6/button/255");
}

#[test]
fn topics_longer_than_capacity_are_refused() {
    let long = "d".repeat(60);
    let t = MQTTTopics::new(Box::leak(long.into_boxed_str()));
    assert!(t.get_prefix().is_err());
    assert!(t.status().is_err());
    let fits = "d".repeat(47);
    let t = MQTTTopics::new(Box::leak(fits.into_boxed_str()));
    // "speaker/" + 47 + "/status" = 62 bytes
    assert!(t.status().is_ok());
    assert!(t.volume_changed().is_ok());
    // "speaker/" + 47 + "/button/" + "255" = 66 bytes
    assert!(t.button_press(255).is_err());
    assert!(t.button_press(7).is_ok());
}

#[test]
fn volume_payloads() {
    assert_eq!(parse_u8("42"), Some(42));
    assert_eq!(parse_u8("+7"), Some(7));
    assert_eq!(parse_u8("255"), Some(255));
    assert_eq!(parse_u8("256"), None);
    assert_eq!(parse_u8("-1"), None);
    assert_eq!(parse_u8(" 5"), None);
    assert_eq!(parse_u8(""), None);
}

#[test]
fn stream_payload_gives_the_default_url() {
    assert_eq!(parse_str("anything"), Some("http://example.com/stream.mp3"));
    assert_eq!(parse_str(""), Some(DEFAULT_STREAM_URL));
}

#[test]
fn commands_are_routed_by_topic() {
    let p = "speaker/dev/";
    assert_eq!(route_command(p, "speaker/dev/audio/play", b""), Some(AudioCommand::Play));
    assert_eq!(route_command(p, "speaker/dev/audio/pause", b"x"), Some(AudioCommand::Pause));
    assert_eq!(route_command(p, "speaker/dev/audio/stop", b""), Some(AudioCommand::Stop));
    assert_eq!(route_command(p, "speaker/dev/audio/volume", b"30"), Some(AudioCommand::SetVolume(30)));
    assert_eq!(
        route_command(p, "speaker/dev/audio/stream", b"http://radio"),
        Some(AudioCommand::PlayUrl("http://example.com/stream.mp3"))
    );
}

#[test]
fn unroutable_messages_give_nothing() {
    let p = "speaker/dev/";
    assert_eq!(route_command(p, "speaker/other/audio/play", b""), None);
    assert_eq!(route_command(p, "speaker/dev/audio/rewind", b""), None);
    assert_eq!(route_command(p, "speaker/dev/audio/play/now", b""), None);
    assert_eq!(route_command(p, "speaker/dev/audio/volume", b"loud"), None);
    assert_eq!(route_command(p, "speaker/dev/audio/volume", &[0xFF, 0x31]), None);
    assert_eq!(route_command(p, "speaker/", b""), None);
}

#[test]
fn events_are_published_with_their_payload() {
    assert_eq!(
        event_publication(AppEvent::PlaybackStarted),
        Some((EventTopic::Status, b"playing".to_vec()))
    );
    assert_eq!(
        event_publication(AppEvent::PlaybackStopped),
        Some((EventTopic::Status, b"stopped".to_vec()))
    );
    assert_eq!(
        event_publication(AppEvent::VolumeChanged(55)),
        Some((EventTopic::Volume, vec![55]))
    );
    assert_eq!(event_publication(AppEvent::KeepAlive), None);
    assert_eq!(event_publication(AppEvent::PlaybackPaused), None);
    assert_eq!(event_publication(AppEvent::Error("x")), None);
}

#[test]
fn volume_written_in_decimal_routes_back() {
    for v in [0u8, 9, 10, 99, 100, 255] {
        let payload = v.to_string();
        assert_eq!(
            route_command("speaker/x/", "speaker/x/audio/volume", payload.as_bytes()),
            Some(AudioCommand::SetVolume(v))
        );
    }
}

#[test]
fn messages_on_the_device_topics_reach_the_device() {
    let t = MQTTTopics::new("ES-000000000001");
    let prefix = t.get_prefix().unwrap();
    let play = format!("{}audio/play", prefix.as_str());
    let volume = format!("{}audio/volume", prefix.as_str());
    assert_eq!(route_command(prefix.as_str(), &play, b"ignored"), Some(AudioCommand::Play));
    assert_eq!(route_command(prefix.as_str(), &volume, b"80"), Some(AudioCommand::SetVolume(80)));
    let other = MQTTTopics::new("ES-000000000002");
    assert_eq!(route_command(other.get_prefix().unwrap().as_str(), &play, b""), None);
}
