//! Which files the importer accepts, and what it reports about them.
//!
//! Reading a file is I/O and lives outside the library. Given its bytes, the container
//! header is parsed here (by symphonia) and the track the importer reports on is picked;
//! deciding which extensions are supported is here too.

use std::io::Cursor;

use vstd::prelude::*;

use crate::detect::stem::str_views;
use crate::text::{lowercase, same_text, str_lowercase};

verus! {

/// What a file's container header says about it.
pub struct SoundMetadata {
    pub format: String,
    pub duration_ms: Option<i64>,
    pub sample_rate: Option<i64>,
    pub channels: Option<i64>,
}

/// Extensions the importer accepts, lowercase. Anything else is rejected with a clear
/// message rather than imported and failing at play time.
pub open spec fn supported_extensions() -> Seq<Seq<char>> {
    seq!["wav"@, "mp3"@, "ogg"@, "oga"@, "flac"@]
}

fn supported_extension_list() -> (list: Vec<&'static str>)
    ensures
        str_views(list@) == supported_extensions(),
{
    let list = vec!["wav", "mp3", "ogg", "oga", "flac"];
    assert(str_views(list@) =~= supported_extensions());
    list
}

/// The extension std's `Path::extension` finds in a path.
pub uninterp spec fn extension_name(path: Seq<char>) -> Option<Seq<char>>;

/// `Path::new(path).extension()`, as text.
///
/// Calls `std::path::Path::extension`. A path built from a `&str` is valid UTF-8, so the
/// lossy conversion never replaces anything. The result is named; what std documents on
/// every platform is stated besides: a path without a `.` has no extension, and an
/// extension is what follows the file name's last `.`, so holds none itself. Where the
/// file name ends depends on the platform's separators and is left to the name.
#[verifier::external_body]
fn path_extension(path: &str) -> (extension: Option<String>)
    ensures
        extension matches Some(e) ==> extension_name(path@) == Some(e@) && !e@.contains('.'),
        extension is None ==> extension_name(path@) is None,
        !path@.contains('.') ==> extension is None,
{
    let extension = std::path::Path::new(path).extension()?;
    Some(extension.to_string_lossy().into_owned())
}

/// Whether an extension, in any case, is one the importer accepts.
pub fn is_supported_extension(extension: &str) -> (supported: bool)
    ensures
        supported == supported_extensions().contains(str_lowercase(extension@)),
{
    let lowered = lowercase(extension);
    let list = supported_extension_list();
    let ghost all = supported_extensions();
    let mut i: usize = 0;
    while i < list.len()
        invariant
            i <= list@.len(),
            all == str_views(list@),
            all == supported_extensions(),
            lowered@ == str_lowercase(extension@),
            forall|k: int| 0 <= k < i ==> all[k] != lowered@,
        decreases list@.len() - i,
    {
        if same_text(list[i], lowered.as_str()) {
            assert(all[i as int] == lowered@);
            return true;
        }
        i = i + 1;
    }
    false
}

/// Whether the importer accepts a file, judged by its extension in any case.
pub fn is_supported(path: &str) -> (supported: bool)
    ensures
        supported == match extension_name(path@) {
            Some(e) => supported_extensions().contains(str_lowercase(e)),
            None => false,
        },
        !path@.contains('.') ==> !supported,
{
    match path_extension(path) {
        Some(extension) => is_supported_extension(extension.as_str()),
        None => false,
    }
}

/// One track of a container as its header describes it: whether it carries audio, its
/// frame count, and, for an audio track, its sample rate and channel count.
pub type TrackFacts = (bool, Option<u64>, Option<u32>, Option<u64>);

/// The tracks symphonia's default probe finds in a container's bytes, in the order the
/// format reader lists them; `None` when no container format can be read from them.
pub uninterp spec fn container_tracks(bytes: Seq<u8>, extension: Seq<char>) -> Option<Seq<TrackFacts>>;

/// Parse a container header from memory and list its tracks.
///
/// Calls `symphonia::default::get_probe().probe` over the bytes (with `extension` as the
/// hint) and reads `tracks()` of the format reader it returns. What the probe finds is
/// named, not described: it depends on every registered format's parser.
#[verifier::external_body]
fn header_tracks(bytes: &[u8], extension: &str) -> (tracks: Option<Vec<TrackFacts>>)
    ensures
        tracks matches Some(t) ==> container_tracks(bytes@, extension@) == Some(t@),
        tracks is None ==> container_tracks(bytes@, extension@) is None,
{
    let source = symphonia::core::io::MediaSourceStream::new(Box::new(Cursor::new(bytes)), Default::default());
    let mut hint = symphonia::core::formats::probe::Hint::new();
    hint.with_extension(extension);
    let probe = symphonia::default::get_probe();
    let reader = probe.probe(&hint, source, Default::default(), Default::default()).ok()?;
    Some(reader.tracks().iter().map(|t| match &t.codec_params {
        Some(symphonia::core::codecs::CodecParameters::Audio(p)) => {
            (true, t.num_frames, p.sample_rate, p.channels.as_ref().map(|c| c.count() as u64))
        },
        _ => (false, t.num_frames, None, None),
    }).collect())
}

/// Why a file's header gave nothing to report.
#[derive(Debug, Clone, Copy, PartialEq, Eq, Structural)]
pub enum ProbeProblem {
    /// No container format could be read from the bytes.
    Corrupt,
    /// The container holds no audio track.
    NoAudioTrack,
}

impl ProbeProblem {
    /// The reason shown to the user.
    pub fn reason(&self) -> (text: &'static str) {
        match self {
            ProbeProblem::Corrupt => "unsupported or corrupt audio file",
            ProbeProblem::NoAudioTrack => "file contains no audio tracks",
        }
    }
}

/// The first track, from `from` on, that carries audio.
pub open spec fn first_audio(tracks: Seq<TrackFacts>, from: int) -> Option<int>
    decreases tracks.len() - from,
{
    if from < 0 || from >= tracks.len() {
        None
    } else if tracks[from].0 {
        Some(from)
    } else {
        first_audio(tracks, from + 1)
    }
}

/// What the importer reports of a container: frame count, sample rate and channel
/// count of its first audio track.
pub open spec fn header_report(tracks: Option<Seq<TrackFacts>>) -> Result<
    (Option<u64>, Option<u32>, Option<u64>),
    ProbeProblem,
> {
    match tracks {
        None => Err(ProbeProblem::Corrupt),
        Some(t) => match first_audio(t, 0) {
            None => Err(ProbeProblem::NoAudioTrack),
            Some(i) => Ok((t[i].1, t[i].2, t[i].3)),
        },
    }
}

/// What the container header in `bytes` says of the file's first audio track: its frame
/// count, sample rate and channel count. Corrupt exactly when no container can be read,
/// and "no audio track" exactly when none of its tracks carries audio.
pub fn header_facts(bytes: &[u8], extension: &str) -> (facts: Result<
    (Option<u64>, Option<u32>, Option<u64>),
    ProbeProblem,
>)
    ensures
        facts == header_report(container_tracks(bytes@, extension@)),
{
    let ghost named = container_tracks(bytes@, extension@);
    let tracks = match header_tracks(bytes, extension) {
        Some(t) => t,
        None => return Err(ProbeProblem::Corrupt),
    };
    let ghost all = tracks@;
    let mut i: usize = 0;
    while i < tracks.len()
        invariant
            i <= tracks@.len(),
            all == tracks@,
            named == Some(all),
            named == container_tracks(bytes@, extension@),
            first_audio(all, 0) == first_audio(all, i as int),
        decreases tracks@.len() - i,
    {
        let (audio, frames, rate, channels) = tracks[i];
        assert(all[i as int] == (audio, frames, rate, channels));
        if audio {
            assert(first_audio(all, i as int) == Some(i as int));
            return Ok((frames, rate, channels));
        }
        i = i + 1;
    }
    Err(ProbeProblem::NoAudioTrack)
}

} // verus!
