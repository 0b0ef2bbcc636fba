//! Commands, events and topic names of the speaker's MQTT protocol.

use vstd::prelude::*;
use vstd::string::StringSliceAdditionalSpecFns;
use crate::bounded::{new_64, text_64, write_char_64, write_str_64};
use crate::text::{decimal, lemma_encode_concat, utf8_len};

verus! {

/// Capacity of a topic name, in bytes.
pub const TOPIC_CAPACITY: usize = 64;

/// A command for the audio task.
#[derive(Debug, Clone, Copy, PartialEq, Eq)]
pub enum AudioCommand {
    Play,
    Pause,
    Stop,
    SetVolume(u8),
    PlayUrl(&'static str),
}

/// An event the application reports.
#[derive(Debug, Clone, Copy, PartialEq, Eq)]
pub enum AppEvent {
    KeepAlive,
    PlaybackStarted,
    PlaybackPaused,
    PlaybackStopped,
    VolumeChanged(u8),
    Error(&'static str),
}

/// The topic names of one device.
pub struct MQTTTopics {
    device_id: &'static str,
}

/// The topic `speaker/<device>/<event>`.
pub open spec fn topic_text(device: Seq<char>, event: Seq<char>) -> Seq<char> {
    "speaker/"@ + device + "/"@ + event
}

/// The topic `speaker/<device>/button/<id>`.
pub open spec fn button_topic_text(device: Seq<char>, id: u8) -> Seq<char> {
    "speaker/"@ + device + "/button/"@ + decimal(id as nat)
}

/// A topic-building result: the topic when its bytes fit the capacity,
/// a formatting error otherwise.
pub open spec fn topic_result(r: Result<heapless::String<64>, core::fmt::Error>, text: Seq<char>) -> bool {
    match r {
        Ok(s) => utf8_len(text) <= TOPIC_CAPACITY && text_64(s) == text,
        Err(_) => utf8_len(text) > TOPIC_CAPACITY,
    }
}

proof fn lemma_ascii_char_len(c: char)
    requires
        '\0' <= c <= '\u{7f}',
    ensures
        utf8_len(seq![c]) == 1,
{
    assert(vstd::utf8::is_ascii_chars(seq![c]));
    vstd::utf8::is_ascii_chars_encode_utf8(seq![c]);
}

proof fn lemma_decimal_len(n: nat)
    ensures
        vstd::utf8::is_ascii_chars(decimal(n)),
        utf8_len(decimal(n)) == decimal(n).len(),
    decreases n,
{
    if n >= 10 {
        lemma_decimal_len(n / 10);
    }
    vstd::utf8::is_ascii_chars_encode_utf8(decimal(n));
}

/// Append a piece to a topic under construction.
fn append(s: &mut heapless::String<64>, x: &str) -> (r: Result<(), core::fmt::Error>)
    ensures
        utf8_len(text_64(*old(s)) + x@) <= 64 ==> r is Ok && text_64(*final(s)) == text_64(*old(s)) + x@,
        utf8_len(text_64(*old(s)) + x@) > 64 ==> r is Err,
        utf8_len(text_64(*final(s))) <= 64 || r is Err,
{
    proof {
        lemma_encode_concat(text_64(*s), x@);
    }
    write_str_64(s, x)
}

fn append_decimal(s: &mut heapless::String<64>, n: u8) -> (r: Result<(), core::fmt::Error>)
    ensures
        utf8_len(text_64(*old(s)) + decimal(n as nat)) <= 64 ==> r is Ok
            && text_64(*final(s)) == text_64(*old(s)) + decimal(n as nat),
        utf8_len(text_64(*old(s)) + decimal(n as nat)) > 64 ==> r is Err,
    decreases n,
{
    let ghost before = text_64(*s);
    let digit: u8 = n % 10;
    let c = (48u8 + digit) as char;
    proof {
        lemma_decimal_len(n as nat);
        lemma_encode_concat(before, decimal(n as nat));
        lemma_ascii_char_len(c);
        if n >= 10 {
            assert(decimal(n as nat) == decimal((n / 10) as nat).push(c));
            lemma_decimal_len((n / 10) as nat);
            lemma_encode_concat(before, decimal((n / 10) as nat));
            assert(before + decimal(n as nat) =~= (before + decimal((n / 10) as nat)).push(c));
        } else {
            assert(decimal(n as nat) =~= seq![c]);
            assert(before + decimal(n as nat) =~= before.push(c));
        }
    }
    if n >= 10 {
        match append_decimal(s, n / 10) {
            Ok(()) => {},
            Err(e) => return Err(e),
        }
    }
    proof {
        lemma_encode_concat(text_64(*s), seq![c]);
    }
    write_char_64(s, c)
}

impl MQTTTopics {
    /// The device whose topics these are.
    pub closed spec fn device(&self) -> Seq<char> {
        self.device_id@
    }

    pub fn new(device_id: &'static str) -> (t: Self)
        ensures
            t.device() == device_id@,
    {
        MQTTTopics { device_id }
    }

    fn build_topic(&self, event: &str) -> (r: Result<heapless::String<64>, core::fmt::Error>)
        ensures
            topic_result(r, topic_text(self.device(), event@)),
    {
        let mut topic = new_64();
        proof {
            assert(Seq::<char>::empty() + "speaker/"@ =~= "speaker/"@);
            assert(vstd::utf8::encode_utf8(Seq::<char>::empty()) =~= Seq::<u8>::empty());
            lemma_encode_concat("speaker/"@ + self.device_id@ + "/"@, event@);
            lemma_encode_concat("speaker/"@ + self.device_id@, "/"@);
            lemma_encode_concat("speaker/"@, self.device_id@);
        }
        match append(&mut topic, "speaker/") {
            Ok(()) => {},
            Err(e) => return Err(e),
        }
        match append(&mut topic, self.device_id) {
            Ok(()) => {},
            Err(e) => return Err(e),
        }
        match append(&mut topic, "/") {
            Ok(()) => {},
            Err(e) => return Err(e),
        }
        match append(&mut topic, event) {
            Ok(()) => {},
            Err(e) => return Err(e),
        }
        Ok(topic)
    }

    /// The prefix `speaker/<device>/` shared by all topics of the device.
    pub fn get_prefix(&self) -> (r: Result<heapless::String<64>, core::fmt::Error>)
        ensures
            topic_result(r, topic_text(self.device(), ""@)),
    {
        self.build_topic("")
    }

    /// The filter `speaker/<device>/#` that matches every command topic.
    pub fn subscrive_wildcard(&self) -> (r: Result<heapless::String<64>, core::fmt::Error>)
        ensures
            topic_result(r, topic_text(self.device(), "#"@)),
    {
        self.build_topic("#")
    }

    /// The topic `speaker/<device>/volume` where volume changes are reported.
    pub fn volume_changed(&self) -> (r: Result<heapless::String<64>, core::fmt::Error>)
        ensures
            topic_result(r, topic_text(self.device(), "volume"@)),
    {
        self.build_topic("volume")
    }

    /// The topic `speaker/<device>/status` where playback state is reported.
    pub fn status(&self) -> (r: Result<heapless::String<64>, core::fmt::Error>)
        ensures
            topic_result(r, topic_text(self.device(), "status"@)),
    {
        self.build_topic("status")
    }

    /// The topic `speaker/<device>/button/<id>` of a button press.
    pub fn button_press(&self, button_id: u8) -> (r: Result<heapless::String<64>, core::fmt::Error>)
        ensures
            topic_result(r, button_topic_text(self.device(), button_id)),
    {
        let mut topic = new_64();
        proof {
            assert(Seq::<char>::empty() + "speaker/"@ =~= "speaker/"@);
            assert(vstd::utf8::encode_utf8(Seq::<char>::empty()) =~= Seq::<u8>::empty());
            lemma_encode_concat("speaker/"@ + self.device_id@ + "/button/"@, decimal(button_id as nat));
            lemma_encode_concat("speaker/"@ + self.device_id@, "/button/"@);
            lemma_encode_concat("speaker/"@, self.device_id@);
        }
        match append(&mut topic, "speaker/") {
            Ok(()) => {},
            Err(e) => return Err(e),
        }
        match append(&mut topic, self.device_id) {
            Ok(()) => {},
            Err(e) => return Err(e),
        }
        match append(&mut topic, "/button/") {
            Ok(()) => {},
            Err(e) => return Err(e),
        }
        match append_decimal(&mut topic, button_id) {
            Ok(()) => {},
            Err(e) => return Err(e),
        }
        Ok(topic)
    }
}

} // verus!
