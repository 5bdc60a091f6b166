//! What the listening pipeline reports: capture state, input devices, session events,
//! and the results of an offline run. Producing them is I/O done around the library.

use vstd::prelude::*;

verus! {

/// The state of a microphone capture.
pub enum CaptureStatus {
    Stopped,
    Running,
    /// The device went away or the driver failed. Carries the message shown in the UI.
    Failed(String),
}

/// An input device the host can see.
pub struct InputDevice {
    /// Human-readable name, and the identifier persisted in settings: names survive
    /// reboots better than platform device ids.
    pub name: String,
    pub is_default: bool,
    /// The device's own preferred configuration.
    pub default_sample_rate: Option<u32>,
    pub default_channels: Option<u16>,
}

/// One transcribed stretch of speech from a recorded file.
pub struct OfflineSegment {
    pub text: String,
    /// Where the speech starts in the file.
    pub start_ms: u32,
    pub duration_ms: u32,
    pub stt_ms: u32,
    pub language: Option<String>,
    /// False when the transcript was rejected as silence, noise or a hallucination.
    pub trusted: bool,
}

/// A whole recorded file, run through the pipeline.
pub struct OfflineRun {
    pub segments: Vec<OfflineSegment>,
    pub audio_ms: u32,
    /// Wall-clock time the whole run took, for comparison against the audio length.
    pub elapsed_ms: u32,
}

/// What a listening session reports.
pub enum SessionEvent {
    /// Speech began, `stream_ms` into the audio stream (a position, not a wall clock).
    SpeechStarted { stream_ms: i64 },
    /// A transcript of a sentence still being spoken.
    Partial { text: String, stream_ms: i64, stt_ms: u32, speech_ms: u32 },
    /// The settled transcript of a finished sentence.
    Final {
        text: String,
        stream_ms: i64,
        stt_ms: u32,
        speech_ms: u32,
        language: Option<String>,
        truncated: bool,
    },
    /// Speech ended but produced nothing believable: silence, noise, or a hallucination.
    Discarded { stream_ms: i64, speech_ms: u32, reason: String },
    Error { message: String },
}

/// The models a session needs, loaded before it starts.
pub struct SessionModels {
    pub vad_model_path: String,
    /// The accurate model, used for the final transcript.
    pub speech_model_path: String,
    /// The fast model for partial re-decodes. Falls back to the accurate one when absent.
    pub fast_model_path: Option<String>,
}

} // verus!
