//! Which licence a Freesound sound carries, and what that obliges the user to do.
//!
//! The difference between CC0 and CC-BY is the difference between "use it however you
//! like" and "you must name the author wherever this is heard". A sound library that
//! forgets which is which cannot honour either.

use vstd::prelude::*;

use crate::text::{chars_of, contains_chars, lowercase, occurs_in, str_lowercase};

verus! {

#[derive(Debug, Clone, PartialEq, Eq)]
pub enum License {
    /// Public domain dedication. No obligations at all.
    Cc0,
    /// Attribution required.
    CcBy,
    /// Attribution required, derivatives must carry the same licence.
    CcBySa,
    /// Attribution required, no commercial use.
    CcByNc,
    /// Freesound's older "Sampling+" licence: attribution, no commercial use as-is.
    SamplingPlus,
    /// Anything not recognised. Carries the URL so the user can read it themselves.
    Other(String),
}

/// A URL without its trailing slashes.
pub open spec fn without_trailing_slashes(url: Seq<char>) -> Seq<char>
    decreases url.len(),
{
    if url.len() > 0 && url.last() == '/' {
        without_trailing_slashes(url.drop_last())
    } else {
        url
    }
}

/// The licence path a URL is judged by: lowercase, trailing slashes gone. Both http and
/// https appear in the API's output, and the version segment changes over time, so the
/// licence is told by what the path contains rather than by the whole URL.
pub open spec fn licence_path(url: Seq<char>) -> Seq<char> {
    str_lowercase(without_trailing_slashes(url))
}

/// Which recognised licence a URL names, in the order the checks are made: by-nc-sa
/// contains both "by-nc" and "by-sa", and the commercial restriction matters more.
pub open spec fn recognised(url: Seq<char>) -> Option<License> {
    let path = licence_path(url);
    if occurs_in(path, "publicdomain/zero"@) {
        Some(License::Cc0)
    } else if occurs_in(path, "sampling+"@) {
        Some(License::SamplingPlus)
    } else if occurs_in(path, "/licenses/by-nc-sa"@) || occurs_in(path, "/licenses/by-nc"@) {
        Some(License::CcByNc)
    } else if occurs_in(path, "/licenses/by-sa"@) {
        Some(License::CcBySa)
    } else if occurs_in(path, "/licenses/by"@) {
        Some(License::CcBy)
    } else {
        None
    }
}

fn trim_trailing_slashes(url: &str) -> (trimmed: String)
    ensures
        trimmed@ == without_trailing_slashes(url@),
{
    let chars = chars_of(url);
    let mut end: usize = chars.len();
    assert(chars@.take(end as int) =~= chars@);
    while end > 0 && chars[end - 1] == '/'
        invariant
            end <= chars@.len(),
            without_trailing_slashes(url@) == without_trailing_slashes(chars@.take(end as int)),
            chars@ == url@,
        decreases end,
    {
        assert(chars@.take(end as int).drop_last() =~= chars@.take(end - 1));
        end = end - 1;
    }
    let mut out: Vec<char> = Vec::new();
    let mut i: usize = 0;
    while i < end
        invariant
            i <= end <= chars@.len(),
            out@ == chars@.take(i as int),
        decreases end - i,
    {
        out.push(chars[i]);
        i = i + 1;
        assert(out@ =~= chars@.take(i as int));
    }
    crate::text::string_of(out.as_slice())
}

fn path_contains(path: &[char], needle: &str) -> (found: bool)
    ensures
        found == occurs_in(path@, needle@),
{
    let needle = chars_of(needle);
    contains_chars(path, needle.as_slice())
}

impl License {
    /// The licence a Creative Commons URL, as Freesound reports it, stands for.
    pub fn from_url(url: &str) -> (license: Self)
        ensures
            match recognised(url@) {
                Some(known) => license == known,
                None => license matches License::Other(u) && u@ == url@,
            },
    {
        let trimmed = trim_trailing_slashes(url);
        let lowered = lowercase(trimmed.as_str());
        let path = chars_of(lowered.as_str());
        if path_contains(path.as_slice(), "publicdomain/zero") {
            License::Cc0
        } else if path_contains(path.as_slice(), "sampling+") {
            License::SamplingPlus
        } else if path_contains(path.as_slice(), "/licenses/by-nc-sa") || path_contains(
            path.as_slice(),
            "/licenses/by-nc",
        ) {
            License::CcByNc
        } else if path_contains(path.as_slice(), "/licenses/by-sa") {
            License::CcBySa
        } else if path_contains(path.as_slice(), "/licenses/by") {
            License::CcBy
        } else {
            License::Other(url.to_string())
        }
    }

    /// Everything but CC0 asks for the author to be named.
    pub fn requires_attribution(&self) -> (required: bool)
        ensures
            required == !(*self is Cc0),
    {
        !matches!(self, License::Cc0)
    }

    /// False only where the licence positively forbids it, and for an unknown licence:
    /// the safe direction for such a claim is to understate.
    pub fn allows_commercial_use(&self) -> (allowed: bool)
        ensures
            allowed == self.permits_commercial_use(),
    {
        matches!(self, License::Cc0 | License::CcBy | License::CcBySa)
    }

    /// Whether the licence lets a paid game use the sound.
    pub open spec fn permits_commercial_use(&self) -> bool {
        *self is Cc0 || *self is CcBy || *self is CcBySa
    }

    pub open spec fn short_name_view(&self) -> Seq<char> {
        match *self {
            License::Cc0 => "CC0"@,
            License::CcBy => "CC-BY"@,
            License::CcBySa => "CC-BY-SA"@,
            License::CcByNc => "CC-BY-NC"@,
            License::SamplingPlus => "Sampling+"@,
            License::Other(_) => "other"@,
        }
    }

    pub fn short_name(&self) -> (name: &'static str)
        ensures
            name@ == self.short_name_view(),
    {
        match self {
            License::Cc0 => "CC0",
            License::CcBy => "CC-BY",
            License::CcBySa => "CC-BY-SA",
            License::CcByNc => "CC-BY-NC",
            License::SamplingPlus => "Sampling+",
            License::Other(_) => "other",
        }
    }
}

} // verus!
