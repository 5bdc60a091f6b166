//! The folder of downloaded models: where each one lives, and whether it is intact.
//!
//! Reading and writing files, and the download itself, are I/O done by the application
//! around this library. What is decided from what was read (which path, which error,
//! whether a digest matches) is decided here.

use vstd::prelude::*;

use sha2::Digest;

use crate::models::catalog::{catalog_ids, find, first_with_id, model_catalog, ModelSpec};
use crate::text::{
    chars_of, decimal, decimal_text, is_whitespace, push_text, same_text, string_of, whitespace,
};

verus! {

/// Progress of an in-flight download, reported to the UI.
#[derive(Debug, Clone, Copy, PartialEq, Eq, Structural)]
pub struct DownloadProgress {
    pub downloaded_bytes: u64,
    pub total_bytes: Option<u64>,
}

/// Why a model could not be had.
pub enum ModelError {
    UnknownModel(String),
    NotDownloaded { id: String },
    Download { id: String, reason: String },
    ChecksumMismatch { id: String, expected: String, actual: String },
}

/// A model that passed verification: its digest, and whether that digest should now be
/// recorded because none was on record.
pub struct Verified {
    pub digest: String,
    pub record: bool,
}

/// A directory of downloaded models.
pub struct ModelStore {
    dir: String,
}

/// The path std's `Path::join` makes of a directory and a name.
pub uninterp spec fn joined_path(dir: Seq<char>, name: Seq<char>) -> Seq<char>;

/// The SHA-256 digest of some bytes, as `sha2` computes it.
pub uninterp spec fn sha256_of(bytes: Seq<u8>) -> Seq<u8>;

/// `Path::new(dir).join(name)`, as text.
///
/// Calls `std::path::Path::join`. Both parts are valid UTF-8, so the lossy conversion
/// never replaces anything. The result is named, not described.
#[verifier::external_body]
fn join_path(dir: &str, name: &str) -> (path: String)
    ensures
        path@ == joined_path(dir@, name@),
{
    std::path::Path::new(dir).join(name).to_string_lossy().into_owned()
}

/// `sha2::Sha256::digest`: the 32-byte SHA-256 digest of the bytes.
#[verifier::external_body]
fn sha256(bytes: &[u8]) -> (digest: Vec<u8>)
    ensures
        digest@ == sha256_of(bytes@),
        digest@.len() == 32,
{
    sha2::Sha256::digest(bytes).to_vec()
}

/// A lowercase hexadecimal digit.
pub open spec fn hex_digit(value: int) -> char {
    if value < 10 {
        (('0' as int) + value) as char
    } else {
        (('a' as int) + value - 10) as char
    }
}

/// Bytes as lowercase hexadecimal, two digits each.
pub open spec fn hex_of(bytes: Seq<u8>) -> Seq<char>
    decreases bytes.len(),
{
    if bytes.len() == 0 {
        Seq::empty()
    } else {
        hex_of(bytes.drop_last()) + seq![
            hex_digit(bytes.last() as int / 16),
            hex_digit(bytes.last() as int % 16),
        ]
    }
}

/// How many bytes a character takes in UTF-8.
pub open spec fn utf8_width(c: char) -> nat {
    if (c as u32) < 0x80 {
        1
    } else if (c as u32) < 0x800 {
        2
    } else if (c as u32) < 0x1_0000 {
        3
    } else {
        4
    }
}

/// How many bytes a text takes in UTF-8.
pub open spec fn utf8_len(text: Seq<char>) -> nat
    decreases text.len(),
{
    if text.len() == 0 {
        0
    } else {
        utf8_len(text.drop_last()) + utf8_width(text.last())
    }
}

/// A text without leading or trailing white space.
pub open spec fn trimmed(text: Seq<char>) -> Seq<char>
    decreases text.len(),
{
    if text.len() > 0 && whitespace(text[0]) {
        trimmed(text.drop_first())
    } else if text.len() > 0 && whitespace(text.last()) {
        trimmed(text.drop_last())
    } else {
        text
    }
}

/// The digest a digest file records: its trimmed text, when that is 64 bytes long.
pub open spec fn recorded(contents: Seq<char>) -> Option<Seq<char>> {
    if utf8_len(trimmed(contents)) == 64 {
        Some(trimmed(contents))
    } else {
        None
    }
}

fn hex_char(value: u8) -> (c: char)
    requires
        value < 16,
    ensures
        c == hex_digit(value as int),
{
    if value < 10 {
        ((48u8 + value) as char)
    } else {
        ((97u8 + value - 10) as char)
    }
}

/// Bytes as lowercase hexadecimal.
pub fn to_hex(bytes: &[u8]) -> (hex: String)
    ensures
        hex@ == hex_of(bytes@),
{
    let mut out: Vec<char> = Vec::new();
    let mut i: usize = 0;
    while i < bytes.len()
        invariant
            i <= bytes@.len(),
            out@ == hex_of(bytes@.take(i as int)),
        decreases bytes@.len() - i,
    {
        proof {
            assert(bytes@.take(i + 1).drop_last() =~= bytes@.take(i as int));
        }
        let byte = bytes[i];
        out.push(hex_char(byte / 16));
        out.push(hex_char(byte % 16));
        i = i + 1;
        assert(out@ =~= hex_of(bytes@.take(i as int)));
    }
    assert(bytes@.take(bytes@.len() as int) =~= bytes@);
    string_of(out.as_slice())
}

/// The SHA-256 digest of some bytes, in lowercase hexadecimal.
pub fn digest_hex(bytes: &[u8]) -> (hex: String)
    ensures
        hex@ == hex_of(sha256_of(bytes@)),
{
    let digest = sha256(bytes);
    to_hex(digest.as_slice())
}

proof fn lemma_utf8_len_prefix(text: Seq<char>, n: int)
    requires
        0 <= n <= text.len(),
    ensures
        utf8_len(text.take(n)) <= utf8_len(text),
    decreases text.len(),
{
    if n < text.len() {
        assert(text.drop_last().take(n) =~= text.take(n));
        lemma_utf8_len_prefix(text.drop_last(), n);
    } else {
        assert(text.take(n) =~= text);
    }
}

fn char_width(c: char) -> (width: u64)
    ensures
        width == utf8_width(c),
{
    let code = c as u32;
    if code < 0x80 {
        1
    } else if code < 0x800 {
        2
    } else if code < 0x1_0000 {
        3
    } else {
        4
    }
}

/// A lowercase hexadecimal digit, as a character.
pub open spec fn is_hex_char(c: char) -> bool {
    ('0' <= c && c <= '9') || ('a' <= c && c <= 'f')
}

/// A SHA-256 digest written as `digest_hex` writes one: 64 lowercase hex digits.
pub open spec fn is_digest_text(text: Seq<char>) -> bool {
    text.len() == 64 && forall|i: int| 0 <= i < text.len() ==> is_hex_char(#[trigger] text[i])
}

proof fn lemma_ascii_utf8_len(text: Seq<char>)
    requires
        forall|i: int| 0 <= i < text.len() ==> is_hex_char(#[trigger] text[i]),
    ensures
        utf8_len(text) == text.len(),
    decreases text.len(),
{
    if text.len() > 0 {
        assert(is_hex_char(text[text.len() - 1]));
        assert forall|i: int| 0 <= i < text.drop_last().len() implies is_hex_char(
            #[trigger] text.drop_last()[i],
        ) by {
            assert(text.drop_last()[i] == text[i]);
        }
        lemma_ascii_utf8_len(text.drop_last());
    }
}

/// The digest a digest file's contents record, if they hold one. A file holding exactly
/// a digest, as `digest_hex` writes it, records that digest.
pub fn recorded_digest(contents: &str) -> (digest: Option<String>)
    ensures
        match recorded(contents@) {
            Some(d) => digest matches Some(s) && s@ == d,
            None => digest is None,
        },
        is_digest_text(contents@) ==> (digest matches Some(s) && s@ == contents@),
{
    let chars = chars_of(contents);
    let ghost exact = is_digest_text(contents@);
    let mut start: usize = 0;
    let mut end: usize = chars.len();
    assert(chars@.subrange(0, end as int) =~= chars@);
    while start < end && is_whitespace(chars[start])
        invariant
            start <= end <= chars@.len(),
            end == chars@.len(),
            trimmed(contents@) == trimmed(chars@.subrange(start as int, end as int)),
            chars@ == contents@,
            exact == is_digest_text(contents@),
            exact ==> start == 0,
        decreases end - start,
    {
        assert(chars@.subrange(start as int, end as int).drop_first() =~= chars@.subrange(
            start + 1,
            end as int,
        ));
        proof {
            if exact {
                assert(is_hex_char(chars@[start as int]));
            }
        }
        start = start + 1;
    }
    while start < end && is_whitespace(chars[end - 1])
        invariant
            start <= end <= chars@.len(),
            start == end || !whitespace(chars@[start as int]),
            trimmed(contents@) == trimmed(chars@.subrange(start as int, end as int)),
            chars@ == contents@,
            exact == is_digest_text(contents@),
            exact ==> start == 0 && end == chars@.len(),
        decreases end - start,
    {
        assert(chars@.subrange(start as int, end as int).drop_last() =~= chars@.subrange(
            start as int,
            end - 1,
        ));
        proof {
            if exact {
                assert(is_hex_char(chars@[end - 1]));
            }
        }
        end = end - 1;
    }
    let ghost kept = chars@.subrange(start as int, end as int);
    assert(trimmed(kept) == kept);
    proof {
        if exact {
            assert(kept =~= contents@);
            lemma_ascii_utf8_len(contents@);
            assert(recorded(contents@) == Some(contents@));
        }
    }
    let mut out: Vec<char> = Vec::new();
    let mut width: u64 = 0;
    let mut i: usize = start;
    while i < end
        invariant
            start <= i <= end <= chars@.len(),
            kept == chars@.subrange(start as int, end as int),
            trimmed(contents@) == kept,
            out@ == chars@.subrange(start as int, i as int),
            width == utf8_len(out@),
            width <= 64,
            exact == is_digest_text(contents@),
            exact ==> recorded(contents@) == Some(contents@) && kept == contents@,
        decreases end - i,
    {
        let ghost before = out@;
        out.push(chars[i]);
        assert(out@.drop_last() =~= before);
        width = width + char_width(chars[i]);
        i = i + 1;
        assert(out@ =~= chars@.subrange(start as int, i as int));
        if width > 64 {
            proof {
                assert(kept.take(i - start) =~= out@);
                lemma_utf8_len_prefix(kept, i - start);
            }
            return None;
        }
    }
    if width == 64 {
        Some(string_of(out.as_slice()))
    } else {
        None
    }
}

/// Whether a digest just computed matches the one on record.
pub open spec fn verdict(id: Seq<char>, actual: Seq<char>, contents: Option<Seq<char>>) -> Result<
    (Seq<char>, bool),
    (Seq<char>, Seq<char>),
> {
    match contents {
        Some(text) => match recorded(text) {
            Some(expected) => if expected == actual {
                Ok((actual, false))
            } else {
                Err((expected, actual))
            },
            None => Ok((actual, true)),
        },
        None => Ok((actual, true)),
    }
}

impl ModelStore {
    pub closed spec fn directory(&self) -> Seq<char> {
        self.dir@
    }

    pub fn new(dir: &str) -> (store: Self)
        ensures
            store.directory() == dir@,
    {
        ModelStore { dir: dir.to_string() }
    }

    pub fn dir(&self) -> (dir: &str)
        ensures
            dir@ == self.directory(),
    {
        self.dir.as_str()
    }

    /// Where a model lives once downloaded, whether or not it is there yet.
    pub fn path_of(&self, spec: &ModelSpec) -> (path: String)
        ensures
            path@ == joined_path(self.directory(), spec.file_name@),
    {
        join_path(self.dir.as_str(), spec.file_name)
    }

    /// Where a model's digest is recorded: its file name with `.sha256` added.
    pub fn digest_path(&self, spec: &ModelSpec) -> (path: String)
        ensures
            path@ == joined_path(self.directory(), spec.file_name@ + ".sha256"@),
    {
        let mut name = chars_of(spec.file_name);
        let suffix = chars_of(".sha256");
        let ghost base = name@;
        let mut i: usize = 0;
        while i < suffix.len()
            invariant
                i <= suffix@.len(),
                name@ == base + suffix@.take(i as int),
            decreases suffix@.len() - i,
        {
            name.push(suffix[i]);
            i = i + 1;
            assert(name@ =~= base + suffix@.take(i as int));
        }
        assert(suffix@.take(suffix@.len() as int) =~= suffix@);
        let name = string_of(name.as_slice());
        join_path(self.dir.as_str(), name.as_str())
    }

    /// The path to a model that must already be present; `on_disk` is whether its file
    /// is there.
    pub fn require(&self, id: &str, on_disk: bool) -> (path: Result<String, ModelError>)
        ensures
            !catalog_ids().contains(id@) ==> (path matches Err(ModelError::UnknownModel(i))
                && i@ == id@),
            catalog_ids().contains(id@) && !on_disk ==> (path matches Err(
                ModelError::NotDownloaded { id: i },
            ) && i@ == id@),
            catalog_ids().contains(id@) && on_disk ==> (path matches Ok(p) && exists|spec: ModelSpec|
                spec.id@ == id@ && p@ == joined_path(self.directory(), spec.file_name@)),
            on_disk ==> match first_with_id(model_catalog(), id@, 0) {
                Some(k) => path matches Ok(p) && p@ == joined_path(
                    self.directory(),
                    model_catalog()[k].file_name@,
                ),
                None => path is Err,
            },
    {
        match find(id) {
            None => Err(ModelError::UnknownModel(id.to_string())),
            Some(spec) => {
                if on_disk {
                    Ok(self.path_of(&spec))
                } else {
                    Err(ModelError::NotDownloaded { id: id.to_string() })
                }
            },
        }
    }

    /// Check a downloaded model against the digest recorded when it was fetched. This
    /// is what catches a file corrupted on disk later.
    ///
    /// `file` holds the model's bytes when it is on disk; `digest_file` the contents of
    /// its digest file when there is one. A model with no usable digest on record passes,
    /// and its digest is to be recorded now.
    pub fn verify(&self, id: &str, file: Option<&[u8]>, digest_file: Option<&str>) -> (outcome:
        Result<Verified, ModelError>)
        ensures
            !catalog_ids().contains(id@) ==> (outcome matches Err(ModelError::UnknownModel(i))
                && i@ == id@),
            catalog_ids().contains(id@) && file is None ==> (outcome matches Err(
                ModelError::NotDownloaded { id: i },
            ) && i@ == id@),
            catalog_ids().contains(id@) ==> (file matches Some(bytes) ==> {
                let actual = hex_of(sha256_of(bytes@));
                let contents = match digest_file {
                    Some(text) => Some(text@),
                    None => None,
                };
                match verdict(id@, actual, contents) {
                    Ok((digest, record)) => (outcome matches Ok(v) && v.digest@ == digest
                        && v.record == record),
                    Err((expected, found)) => (outcome matches Err(
                        ModelError::ChecksumMismatch { id: i, expected: e, actual: a },
                    ) && i@ == id@ && e@ == expected && a@ == found),
                }
            }),
            catalog_ids().contains(id@) ==> (file matches Some(bytes) ==> (digest_file matches Some(
                text,
            ) ==> (is_digest_text(text@) ==> {
                let actual = hex_of(sha256_of(bytes@));
                &&& text@ == actual ==> (outcome matches Ok(v) && v.digest@ == actual && !v.record)
                &&& text@ != actual ==> (outcome matches Err(
                    ModelError::ChecksumMismatch { expected: e, actual: a, .. },
                ) && e@ == text@ && a@ == actual)
            }))),
    {
        if find(id).is_none() {
            return Err(ModelError::UnknownModel(id.to_string()));
        }
        let bytes = match file {
            Some(bytes) => bytes,
            None => {
                return Err(ModelError::NotDownloaded { id: id.to_string() });
            },
        };
        let actual = digest_hex(bytes);
        match digest_file {
            Some(text) => match recorded_digest(text) {
                Some(expected) => {
                    if same_text(expected.as_str(), actual.as_str()) {
                        Ok(Verified { digest: actual, record: false })
                    } else {
                        Err(
                            ModelError::ChecksumMismatch {
                                id: id.to_string(),
                                expected,
                                actual,
                            },
                        )
                    }
                },
                None => Ok(Verified { digest: actual, record: true }),
            },
            None => Ok(Verified { digest: actual, record: true }),
        }
    }
}


/// Why a download of `received` bytes is refused when the server announced `expected`.
pub open spec fn size_mismatch(expected: u64, received: u64) -> Seq<char> {
    "expected "@ + decimal(expected as nat) + " bytes but received "@ + decimal(received as nat)
}

/// Check a finished download against the size the server announced, if it announced
/// one. A truncated download is worse than a failed one: it looks installed and then
/// fails deep inside an inference call.
pub fn check_download(id: &str, expected: Option<u64>, received: u64) -> (checked: Result<
    (),
    ModelError,
>)
    ensures
        match expected {
            Some(e) if e != received => checked matches Err(ModelError::Download { id: i, reason })
                && i@ == id@ && reason@ == size_mismatch(e, received),
            _ => checked is Ok,
        },
{
    match expected {
        Some(e) => {
            if e != received {
                let mut reason: Vec<char> = Vec::new();
                push_text(&mut reason, "expected ");
                push_text(&mut reason, decimal_text(e).as_str());
                push_text(&mut reason, " bytes but received ");
                push_text(&mut reason, decimal_text(received).as_str());
                Err(ModelError::Download { id: id.to_string(), reason: string_of(reason.as_slice()) })
            } else {
                Ok(())
            }
        },
        None => Ok(()),
    }
}

} // verus!
