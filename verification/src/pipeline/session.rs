//! The listening session's decisions.
//!
//! The session worker reads the microphone, runs the models and sends events: all of
//! that is I/O done around the library. What it decides between those steps (whether
//! audio is dropped while the application's own sounds play, when the sentence in
//! progress is worth re-transcribing, and what a finished sentence is reported as) is
//! decided here.

use vstd::prelude::*;

use crate::pipeline::stt::{has_words, is_hallucination, letter_count, hallucinated};
use crate::pipeline::types::SessionEvent;
use crate::text::{chars_of, is_whitespace, push_text, string_of, whitespace};

verus! {

/// How often the sentence in progress is re-transcribed: fast enough to feel
/// responsive, slow enough that the fast model keeps up.
pub const DEFAULT_PARTIAL_INTERVAL_MS: u64 = 400;

/// Do not bother transcribing less than this much speech.
pub const MIN_PARTIAL_MS: u64 = 500;

/// What to do with captured audio while the playback mute is consulted.
#[derive(Debug, Clone, Copy, PartialEq, Eq, Structural)]
pub enum MuteAction {
    /// A sound is audible: throw the audio away. `reset` is set on the first frame of
    /// the mute: whatever was half-said when the sound started is abandoned, and the
    /// segmenter and the VAD start over.
    Drop { reset: bool },
    /// Listen. `reset` is set on the first frame after a mute: the frames after the gap
    /// are the tail of the room's reverberation, so the segmenter and the VAD start from
    /// silence rather than from what they saw before it.
    Listen { reset: bool },
}

/// Whether the session is currently throwing audio away.
pub struct MuteState {
    pub muted: bool,
}

impl MuteState {
    pub fn new() -> (state: Self)
        ensures
            !state.muted,
    {
        MuteState { muted: false }
    }

    /// The step taken for one read of the microphone, given whether playback mutes it.
    pub fn on_read(&mut self, suppressed: bool) -> (action: MuteAction)
        ensures
            final(self).muted == suppressed,
            action == if suppressed {
                MuteAction::Drop { reset: !old(self).muted }
            } else {
                MuteAction::Listen { reset: old(self).muted }
            },
    {
        let was_muted = self.muted;
        self.muted = suppressed;
        if suppressed {
            MuteAction::Drop { reset: !was_muted }
        } else {
            MuteAction::Listen { reset: was_muted }
        }
    }
}

/// Whether the sentence in progress is due for another partial transcription.
pub fn partial_is_due(since_last_partial_ms: u64, interval_ms: u64, speech_ms: u32) -> (due: bool)
    ensures
        due == (since_last_partial_ms >= interval_ms && speech_ms >= MIN_PARTIAL_MS),
{
    since_last_partial_ms >= interval_ms && speech_ms as u64 >= MIN_PARTIAL_MS
}

/// Whether a transcript should be believed, apart from the model's own no-speech
/// probability: it has words, and it is not one of whisper's stock inventions.
pub fn believable(text: &str) -> (trusted: bool)
    ensures
        trusted == (letter_count(text@) >= 2 && !hallucinated(text@)),
{
    has_words(text) && !is_hallucination(text)
}

/// The text std's `{:?}` formatting gives a string: quoted, with escapes.
pub uninterp spec fn debug_form(text: Seq<char>) -> Seq<char>;

/// `format!("{:?}", text)`.
#[verifier::external_body]
fn debug_quoted(text: &str) -> (quoted: String)
    ensures
        quoted@ == debug_form(text@),
{
    format!("{:?}", text)
}

/// Why a finished sentence was not believed, in words for the debug panel.
pub open spec fn discard_reason_text(text: Seq<char>) -> Seq<char> {
    if forall|i: int| 0 <= i < text.len() ==> whitespace(#[trigger] text[i]) {
        "no words were recognised"@
    } else {
        "transcript rejected: "@ + debug_form(text)
    }
}

/// Why a finished sentence was not believed. Silence and noise routinely end up here,
/// and saying so is what makes the debug panel useful.
pub fn discard_reason(text: &str) -> (reason: String)
    ensures
        reason@ == discard_reason_text(text@),
{
    let chars = chars_of(text);
    let mut i: usize = 0;
    while i < chars.len()
        invariant
            i <= chars@.len(),
            chars@ == text@,
            forall|k: int| 0 <= k < i ==> whitespace(#[trigger] chars@[k]),
        decreases chars@.len() - i,
    {
        if !is_whitespace(chars[i]) {
            let mut out: Vec<char> = Vec::new();
            push_text(&mut out, "transcript rejected: ");
            let quoted = debug_quoted(text);
            push_text(&mut out, quoted.as_str());
            return string_of(out.as_slice());
        }
        i = i + 1;
    }
    "no words were recognised".to_string()
}

/// What a finished sentence is reported as: its transcript when it is trusted, and the
/// reason it was discarded otherwise.
pub fn sentence_event(
    text: String,
    trusted: bool,
    stream_ms: i64,
    stt_ms: u32,
    speech_ms: u32,
    language: Option<String>,
    truncated: bool,
) -> (event: SessionEvent)
    ensures
        trusted ==> event == (SessionEvent::Final {
            text,
            stream_ms,
            stt_ms,
            speech_ms,
            language,
            truncated,
        }),
        !trusted ==> (event matches SessionEvent::Discarded { stream_ms: s, speech_ms: m, reason }
            && s == stream_ms && m == speech_ms && reason@ == discard_reason_text(text@)),
{
    if trusted {
        SessionEvent::Final { text, stream_ms, stt_ms, speech_ms, language, truncated }
    } else {
        let reason = discard_reason(text.as_str());
        SessionEvent::Discarded { stream_ms, speech_ms, reason }
    }
}

} // verus!
