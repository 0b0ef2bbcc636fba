//! Routing of incoming MQTT messages to audio commands, and of
//! application events to the messages the speaker publishes.

use vstd::prelude::*;
use vstd::string::StringSliceAdditionalSpecFns;
use crate::mqtt::msg_protocol::{topic_text, AppEvent, AudioCommand};
use crate::text::lemma_encode_concat;
use crate::text::{decimal, digits_value, is_digit_char, parse_u8_spec, parse_u8_str, range_equals, str_from_utf8};

pub use crate::config::CHANNEL_SIZE;

verus! {

/// Failures of the MQTT connection.
#[derive(Debug, Clone, Copy, PartialEq, Eq, Structural)]
pub enum MQTTError {
    ConnectionError,
    SpawnError,
}

/// The stream address handed to the audio task on a stream request.
pub const DEFAULT_STREAM_URL: &'static str = "http://example.com/stream.mp3";

/// A volume payload: a decimal byte value.
pub fn parse_u8(payload: &str) -> (r: Option<u8>)
    ensures
        r == parse_u8_spec(payload@),
{
    parse_u8_str(payload)
}

/// A stream payload: always the default stream address.
pub fn parse_str(_payload: &str) -> (r: Option<&'static str>)
    ensures
        r == Some(DEFAULT_STREAM_URL),
{
    Some(DEFAULT_STREAM_URL)
}

/// The text of a payload: its characters when it is UTF-8, else empty.
pub open spec fn payload_text(p: Seq<u8>) -> Seq<char> {
    if vstd::utf8::valid_utf8(p) {
        vstd::utf8::decode_utf8(p)
    } else {
        Seq::empty()
    }
}

/// The command that a command topic (the part after the device prefix)
/// and a payload text stand for; `None` for an unknown topic or a
/// payload that does not parse.
pub open spec fn command_of(suffix: Seq<u8>, text: Seq<char>) -> Option<AudioCommand> {
    if suffix == "audio/play".spec_bytes() {
        Some(AudioCommand::Play)
    } else if suffix == "audio/pause".spec_bytes() {
        Some(AudioCommand::Pause)
    } else if suffix == "audio/stop".spec_bytes() {
        Some(AudioCommand::Stop)
    } else if suffix == "audio/volume".spec_bytes() {
        match parse_u8_spec(text) {
            Some(v) => Some(AudioCommand::SetVolume(v)),
            None => None,
        }
    } else if suffix == "audio/stream".spec_bytes() {
        Some(AudioCommand::PlayUrl(DEFAULT_STREAM_URL))
    } else {
        None
    }
}

/// Whether `topic` starts with `prefix`.
pub open spec fn has_prefix(topic: Seq<u8>, prefix: Seq<u8>) -> bool {
    prefix.len() <= topic.len() && topic.subrange(0, prefix.len() as int) == prefix
}

/// The command a message on `topic` carrying `payload` gives, for a
/// device whose topics start with `prefix`.
pub open spec fn routed(prefix: Seq<u8>, topic: Seq<u8>, payload: Seq<u8>) -> Option<AudioCommand> {
    if has_prefix(topic, prefix) {
        command_of(topic.subrange(prefix.len() as int, topic.len() as int), payload_text(payload))
    } else {
        None
    }
}

/// The audio command carried by a message on `topic`, for the device whose
/// topic prefix is `prefix`; `None` when the message is not for this
/// device, names no command, or its payload does not parse.
pub fn route_command(prefix: &str, topic: &str, payload: &[u8]) -> (r: Option<AudioCommand>)
    ensures
        r == routed(prefix.spec_bytes(), topic.spec_bytes(), payload@),
{
    let p = prefix.as_bytes();
    let t = topic.as_bytes();
    if p.len() > t.len() || !range_equals(t, 0, p.len(), p) {
        return None;
    }
    let text: &str = match str_from_utf8(payload) {
        Some(s) => {
            proof {
                vstd::utf8::encode_utf8_decode_utf8(s@);
            }
            s
        },
        None => {
            proof {
                reveal_strlit("");
            }
            ""
        },
    };
    assert(text@ == payload_text(payload@));
    let lo = p.len();
    let hi = t.len();
    if range_equals(t, lo, hi, "audio/play".as_bytes()) {
        Some(AudioCommand::Play)
    } else if range_equals(t, lo, hi, "audio/pause".as_bytes()) {
        Some(AudioCommand::Pause)
    } else if range_equals(t, lo, hi, "audio/stop".as_bytes()) {
        Some(AudioCommand::Stop)
    } else if range_equals(t, lo, hi, "audio/volume".as_bytes()) {
        match parse_u8(text) {
            Some(v) => Some(AudioCommand::SetVolume(v)),
            None => None,
        }
    } else if range_equals(t, lo, hi, "audio/stream".as_bytes()) {
        match parse_str(text) {
            Some(url) => Some(AudioCommand::PlayUrl(url)),
            None => None,
        }
    } else {
        None
    }
}

/// The topic an application event is published on.
#[derive(Debug, Clone, Copy, PartialEq, Eq, Structural)]
pub enum EventTopic {
    /// `speaker/<device>/status`
    Status,
    /// `speaker/<device>/volume`
    Volume,
}

/// The message an application event is reported with, if any.
pub open spec fn publication_of(event: AppEvent) -> Option<(EventTopic, Seq<u8>)> {
    match event {
        AppEvent::PlaybackStarted => Some((EventTopic::Status, "playing".spec_bytes())),
        AppEvent::PlaybackStopped => Some((EventTopic::Status, "stopped".spec_bytes())),
        AppEvent::VolumeChanged(v) => Some((EventTopic::Volume, seq![v])),
        _ => None,
    }
}

/// The topic and payload an application event is published with; `None`
/// for the events the broker is not told about.
pub fn event_publication(event: AppEvent) -> (r: Option<(EventTopic, Vec<u8>)>)
    ensures
        match r {
            Some((t, p)) => publication_of(event) == Some((t, p@)),
            None => publication_of(event) is None,
        },
{
    match event {
        AppEvent::PlaybackStarted => Some(
            (EventTopic::Status, vstd::slice::slice_to_vec("playing".as_bytes())),
        ),
        AppEvent::PlaybackStopped => Some(
            (EventTopic::Status, vstd::slice::slice_to_vec("stopped".as_bytes())),
        ),
        AppEvent::VolumeChanged(v) => {
            let payload = vec![v];
            assert(payload@ == seq![v]);
            Some((EventTopic::Volume, payload))
        },
        _ => None,
    }
}

proof fn lemma_decimal_digits(n: nat)
    ensures
        decimal(n).len() > 0,
        forall|i: int| 0 <= i < decimal(n).len() ==> is_digit_char(#[trigger] decimal(n)[i]),
        digits_value(decimal(n)) == n,
        decimal(n)[0] != '+',
    decreases n,
{
    let d = decimal(n);
    let last: nat = (n % 10) + 48;
    assert((last as char) as u32 == last);
    if n >= 10 {
        lemma_decimal_digits(n / 10);
        assert(d.drop_last() =~= decimal(n / 10));
        assert(d.last() == last as char);
        assert forall|i: int| 0 <= i < d.len() implies is_digit_char(#[trigger] d[i]) by {
            if i < d.len() - 1 {
                assert(d[i] == decimal(n / 10)[i]);
            }
        }
        assert(d[0] == decimal(n / 10)[0]);
        assert(digits_value(d) == digits_value(decimal(n / 10)) * 10 + ((d.last() as u32) - 48) as nat);
        assert((n / 10) * 10 + n % 10 == n);
    } else {
        assert(n % 10 == n);
        assert(d.drop_last() =~= Seq::<char>::empty());
        assert(d.last() == last as char);
        assert(digits_value(d) == digits_value(d.drop_last()) * 10 + ((d.last() as u32) - 48) as nat);
    }
}

proof fn lemma_ascii_bytes(s: &str)
    requires
        vstd::utf8::is_ascii_chars(s@),
    ensures
        s.spec_bytes().len() == s@.len(),
        forall|i: int| 0 <= i < s@.len() ==> #[trigger] s.spec_bytes()[i] == s@[i] as u8,
{
    vstd::utf8::is_ascii_chars_encode_utf8(s@);
}

/// The five command topics are told apart by their bytes.
proof fn lemma_command_topics()
    ensures
        "audio/play".spec_bytes().len() == 10,
        "audio/pause".spec_bytes().len() == 11,
        "audio/stop".spec_bytes().len() == 10,
        "audio/volume".spec_bytes().len() == 12,
        "audio/stream".spec_bytes().len() == 12,
        "audio/play".spec_bytes()[6] == 112u8,
        "audio/stop".spec_bytes()[6] == 115u8,
        "audio/volume".spec_bytes()[6] == 118u8,
        "audio/stream".spec_bytes()[6] == 115u8,
{
    reveal_strlit("audio/play");
    reveal_strlit("audio/pause");
    reveal_strlit("audio/stop");
    reveal_strlit("audio/volume");
    reveal_strlit("audio/stream");
    assert(vstd::utf8::is_ascii_chars("audio/play"@));
    assert(vstd::utf8::is_ascii_chars("audio/pause"@));
    assert(vstd::utf8::is_ascii_chars("audio/stop"@));
    assert(vstd::utf8::is_ascii_chars("audio/volume"@));
    assert(vstd::utf8::is_ascii_chars("audio/stream"@));
    lemma_ascii_bytes("audio/play");
    lemma_ascii_bytes("audio/pause");
    lemma_ascii_bytes("audio/stop");
    lemma_ascii_bytes("audio/volume");
    lemma_ascii_bytes("audio/stream");
}

/// `prefix + name` starts with `prefix` and continues with `name`.
proof fn lemma_split_topic(prefix: Seq<u8>, name: Seq<u8>)
    ensures
        has_prefix(prefix + name, prefix),
        (prefix + name).subrange(prefix.len() as int, (prefix + name).len() as int) == name,
{
    assert((prefix + name).subrange(0, prefix.len() as int) =~= prefix);
    assert((prefix + name).subrange(prefix.len() as int, (prefix + name).len() as int) =~= name);
}

/// A message on `<prefix>audio/play`, `audio/pause` or `audio/stop` gives
/// that command, whatever its payload.
pub proof fn lemma_transport_topics_route(prefix: Seq<u8>, payload: Seq<u8>)
    ensures
        routed(prefix, prefix + "audio/play".spec_bytes(), payload) == Some(AudioCommand::Play),
        routed(prefix, prefix + "audio/pause".spec_bytes(), payload) == Some(AudioCommand::Pause),
        routed(prefix, prefix + "audio/stop".spec_bytes(), payload) == Some(AudioCommand::Stop),
{
    lemma_command_topics();
    lemma_split_topic(prefix, "audio/play".spec_bytes());
    lemma_split_topic(prefix, "audio/pause".spec_bytes());
    lemma_split_topic(prefix, "audio/stop".spec_bytes());
}

/// A volume written in decimal on `<prefix>audio/volume` is read back as
/// that volume.
pub proof fn lemma_volume_round_trip(prefix: Seq<u8>, volume: u8)
    ensures
        routed(
            prefix,
            prefix + "audio/volume".spec_bytes(),
            vstd::utf8::encode_utf8(decimal(volume as nat)),
        ) == Some(AudioCommand::SetVolume(volume)),
{
    lemma_command_topics();
    lemma_split_topic(prefix, "audio/volume".spec_bytes());
    let text = decimal(volume as nat);
    vstd::utf8::encode_utf8_valid_utf8(text);
    vstd::utf8::encode_utf8_decode_utf8(text);
    lemma_decimal_digits(volume as nat);
    assert(payload_text(vstd::utf8::encode_utf8(text)) == text);
    assert(parse_u8_spec(text) == Some(volume));
}

/// The bytes of the topic prefix of `device`, as `get_prefix` builds it.
pub open spec fn device_prefix(device: Seq<char>) -> Seq<u8> {
    vstd::utf8::encode_utf8(topic_text(device, ""@))
}

proof fn lemma_device_topic(device: Seq<char>, name: &str)
    ensures
        vstd::utf8::encode_utf8(topic_text(device, name@)) == device_prefix(device) + name.spec_bytes(),
{
    reveal_strlit("");
    let base = "speaker/"@ + device + "/"@;
    assert(topic_text(device, ""@) =~= base);
    assert(topic_text(device, name@) =~= base + name@);
    lemma_encode_concat(base, name@);
}

/// Messages on the command topics that `MQTTTopics` builds for a device,
/// routed with that device's prefix, give their commands: play, pause
/// and stop whatever the payload, and a volume written in decimal.
pub proof fn lemma_device_topics_route(device: Seq<char>, payload: Seq<u8>, volume: u8)
    ensures
        routed(device_prefix(device), vstd::utf8::encode_utf8(topic_text(device, "audio/play"@)), payload)
            == Some(AudioCommand::Play),
        routed(device_prefix(device), vstd::utf8::encode_utf8(topic_text(device, "audio/pause"@)), payload)
            == Some(AudioCommand::Pause),
        routed(device_prefix(device), vstd::utf8::encode_utf8(topic_text(device, "audio/stop"@)), payload)
            == Some(AudioCommand::Stop),
        routed(
            device_prefix(device),
            vstd::utf8::encode_utf8(topic_text(device, "audio/volume"@)),
            vstd::utf8::encode_utf8(decimal(volume as nat)),
        ) == Some(AudioCommand::SetVolume(volume)),
{
    lemma_device_topic(device, "audio/play");
    lemma_device_topic(device, "audio/pause");
    lemma_device_topic(device, "audio/stop");
    lemma_device_topic(device, "audio/volume");
    lemma_transport_topics_route(device_prefix(device), payload);
    lemma_volume_round_trip(device_prefix(device), volume);
}

} // verus!
