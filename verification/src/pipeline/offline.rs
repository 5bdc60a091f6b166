//! Running a recorded file through the pipeline: which recordings are accepted as
//! they are. Reading the file is I/O done around the library; its WAV header is parsed
//! (by hound) and judged here, and the samples are converted outside.

use vstd::prelude::*;

use crate::pipeline::vad::TARGET_SAMPLE_RATE;
use crate::text::{decimal, decimal_text, push_text, string_of};

verus! {

/// What is wrong with a recording's format, in words naming the file, if anything.
/// Only mono audio at 16 kHz is accepted: resampling here would hide the very mismatch
/// a recorded run exists to reproduce.
pub open spec fn format_problem_text(path: Seq<char>, channels: u16, sample_rate: u32) -> Option<
    Seq<char>,
> {
    if channels != 1 {
        Some(path + " has "@ + decimal(channels as nat) + " channels; the pipeline works in mono"@)
    } else if sample_rate != TARGET_SAMPLE_RATE {
        Some(path + " is "@ + decimal(sample_rate as nat) + " Hz; the pipeline works at "@ + decimal(
            TARGET_SAMPLE_RATE as nat,
        ) + " Hz"@)
    } else {
        None
    }
}

/// Check a WAV file's header before its samples are read.
pub fn wav_format_problem(path: &str, channels: u16, sample_rate: u32) -> (problem: Option<String>)
    ensures
        match format_problem_text(path@, channels, sample_rate) {
            Some(text) => problem matches Some(p) && p@ == text,
            None => problem is None,
        },
{
    if channels != 1 {
        let mut out: Vec<char> = Vec::new();
        push_text(&mut out, path);
        push_text(&mut out, " has ");
        push_text(&mut out, decimal_text(channels as u64).as_str());
        push_text(&mut out, " channels; the pipeline works in mono");
        Some(string_of(out.as_slice()))
    } else if sample_rate != TARGET_SAMPLE_RATE {
        let mut out: Vec<char> = Vec::new();
        push_text(&mut out, path);
        push_text(&mut out, " is ");
        push_text(&mut out, decimal_text(sample_rate as u64).as_str());
        push_text(&mut out, " Hz; the pipeline works at ");
        push_text(&mut out, decimal_text(TARGET_SAMPLE_RATE as u64).as_str());
        push_text(&mut out, " Hz");
        Some(string_of(out.as_slice()))
    } else {
        None
    }
}

/// What hound's `WavReader` makes of a file's bytes: its channel count and sample rate,
/// or the text of the error it refuses them with.
pub uninterp spec fn wav_header(bytes: Seq<u8>) -> Result<(u16, u32), Seq<char>>;

/// Parse a WAV header from memory.
///
/// Calls `hound::WavReader::new` over the bytes and reads `spec()`; a refusal is
/// rendered with the error's `Display`. Both are named, not described.
#[verifier::external_body]
fn wav_spec(bytes: &[u8]) -> (spec: Result<(u16, u32), String>)
    ensures
        match spec {
            Ok(s) => wav_header(bytes@) == Ok::<(u16, u32), Seq<char>>(s),
            Err(e) => wav_header(bytes@) == Err::<(u16, u32), Seq<char>>(e@),
        },
{
    match hound::WavReader::new(std::io::Cursor::new(bytes)) {
        Ok(reader) => Ok((reader.spec().channels, reader.spec().sample_rate)),
        Err(e) => Err(e.to_string()),
    }
}

/// What is wrong with a recording, given its bytes: a header hound cannot read, or a
/// format other than mono 16 kHz.
pub open spec fn wav_problem_text(path: Seq<char>, bytes: Seq<u8>) -> Option<Seq<char>> {
    match wav_header(bytes) {
        Err(e) => Some("could not open "@ + path + ": "@ + e),
        Ok((channels, sample_rate)) => format_problem_text(path, channels, sample_rate),
    }
}

/// Check a WAV file's bytes before its samples are read.
pub fn wav_bytes_problem(path: &str, bytes: &[u8]) -> (problem: Option<String>)
    ensures
        match wav_problem_text(path@, bytes@) {
            Some(text) => problem matches Some(p) && p@ == text,
            None => problem is None,
        },
{
    match wav_spec(bytes) {
        Ok((channels, sample_rate)) => wav_format_problem(path, channels, sample_rate),
        Err(e) => {
            let mut out: Vec<char> = Vec::new();
            push_text(&mut out, "could not open ");
            push_text(&mut out, path);
            push_text(&mut out, ": ");
            push_text(&mut out, e.as_str());
            Some(string_of(out.as_slice()))
        },
    }
}

} // verus!
