//! Audio: the announcement stream, the tone generator and payload decoding.

pub mod announcement;
pub mod codec;
pub mod payload;
pub mod sine;

use vstd::prelude::*;
use crate::config::AUDIO_SAMPLE_RATE;
use crate::mqtt::msg_protocol::AudioCommand;

verus! {

/// Failures of the audio path.
#[derive(Debug, Clone, Copy, PartialEq, Eq, Structural)]
pub enum AudioError {
    CodecInit,
    I2sError,
    DmaError,
}

/// Frames of the gentle attack at the start of a note (about 12 ms).
pub const NOTE_ATTACK_FRAMES: u32 = 600;

/// Frames of the release that fades a note to silence (about 40 ms).
pub const NOTE_RELEASE_FRAMES: u32 = 1920;

/// The longest note whose frame count the 64-bit arithmetic can hold, in
/// milliseconds.
pub const NOTE_MAX_DURATION_MS: u64 = 384_307_168_202_282;

/// Frames in a note of `duration_ms` milliseconds: at least one.
pub open spec fn note_frame_count(duration_ms: u64) -> int {
    let n = duration_ms as int * AUDIO_SAMPLE_RATE as int / 1000;
    if n < 1 { 1 } else { n }
}

/// Frames in a note of `duration_ms` milliseconds, at least one (kept
/// modulo `2^32`, as the frame counter is 32 bits wide).
pub fn note_frames(duration_ms: u64) -> (n: u32)
    requires
        duration_ms <= NOTE_MAX_DURATION_MS,
    ensures
        n == note_frame_count(duration_ms) % 0x1_0000_0000,
{
    let f: u64 = duration_ms * 48_000 / 1000;
    let f1: u64 = if f < 1 { 1 } else { f };
    let n = f1 as u32;
    assert(n == f1 % 0x1_0000_0000) by (bit_vector)
        requires
            n == f1 as u32,
    ;
    n
}

/// What the audio task does with a command.
#[derive(Clone, Copy, Debug, PartialEq, Eq, Structural)]
pub enum AudioStep {
    /// Power the output, report playback, play the connect jingle, power
    /// down and report the end of playback.
    PlayJingle,
    /// Change the output volume.
    SetVolume(u8),
    /// Nothing to play (pause, stop and streams are not supported).
    Ignore,
}

/// The step the audio task takes for a command.
pub open spec fn audio_step_spec(cmd: AudioCommand) -> AudioStep {
    match cmd {
        AudioCommand::Play => AudioStep::PlayJingle,
        AudioCommand::SetVolume(level) => AudioStep::SetVolume(level),
        _ => AudioStep::Ignore,
    }
}

/// The step the audio task takes for a command.
pub fn audio_step(cmd: AudioCommand) -> (step: AudioStep)
    ensures
        step == audio_step_spec(cmd),
{
    match cmd {
        AudioCommand::Play => AudioStep::PlayJingle,
        AudioCommand::SetVolume(level) => AudioStep::SetVolume(level),
        _ => AudioStep::Ignore,
    }
}

/// A note lasts 48 frames per millisecond at the 48 kHz sample rate, and
/// at least one frame: `max(1, 48·d)` frames for `d` milliseconds.
pub proof fn lemma_note_frames_per_ms(duration_ms: u64)
    ensures
        duration_ms == 0 ==> note_frame_count(duration_ms) == 1,
        duration_ms > 0 ==> note_frame_count(duration_ms) == 48 * duration_ms,
{
    let d = duration_ms as int;
    assert(d * 48000 / 1000 == 48 * d) by (nonlinear_arith)
        requires
            d >= 0,
    ;
}

/// The audio task plays the jingle for `Play`, applies every volume level
/// it is sent, and ignores only pause, stop and stream requests.
pub proof fn lemma_audio_steps(level: u8, url: &'static str)
    ensures
        audio_step_spec(AudioCommand::Play) == AudioStep::PlayJingle,
        audio_step_spec(AudioCommand::SetVolume(level)) == AudioStep::SetVolume(level),
        audio_step_spec(AudioCommand::Pause) == AudioStep::Ignore,
        audio_step_spec(AudioCommand::Stop) == AudioStep::Ignore,
        audio_step_spec(AudioCommand::PlayUrl(url)) == AudioStep::Ignore,
{
}

} // verus!
