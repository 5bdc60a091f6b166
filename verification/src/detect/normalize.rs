//! Turning a raw transcript into something matchable.
//!
//! Everything downstream compares normalized text against normalized phrases, so this
//! module defines what "the same words" means: case, punctuation, apostrophe variants
//! and decomposed characters are removed; meaning is not.

use std::ops::Range;

use vstd::prelude::*;

use crate::detect::stem::{stem, stem_of, stems_of};
use crate::text::{
    alphanumeric, char_lowercase, chars_equal, chars_of, is_alphanumeric, is_whitespace,
    lower_char, nfc, nfc_of, string_of, whitespace,
};

verus! {

/// A transcript, prepared for matching.
pub struct Normalized {
    /// Lowercased, punctuation-free, single-spaced text.
    pub text: String,
    /// Word tokens of `text`.
    pub tokens: Vec<String>,
    /// Stems of `tokens`, index for index.
    pub stems: Vec<String>,
}

/// The views of a list of strings.
pub open spec fn string_views(list: Seq<String>) -> Seq<Seq<char>> {
    list.map_values(|s: String| s@)
}

/// The five apostrophe-ish characters Ukrainian text arrives with all mean `'`.
pub open spec fn unified(c: char) -> char {
    if c == '\u{2019}' || c == '\u{02BC}' || c == '\u{02BB}' || c == '\u{0060}' || c
        == '\u{00B4}' || c == '\u{2018}' {
        '\''
    } else {
        c
    }
}

/// Characters that survive normalization: letters, digits and the apostrophe.
pub open spec fn kept(c: char) -> bool {
    alphanumeric(c) || c == '\''
}

/// Normalization of a character sequence before trailing space is trimmed, together
/// with whether the output currently ends in a separator (or is empty).
pub open spec fn fold_normal(chars: Seq<char>) -> (Seq<char>, bool)
    decreases chars.len(),
{
    if chars.len() == 0 {
        (Seq::empty(), true)
    } else {
        let (out, last_was_space) = fold_normal(chars.drop_last());
        let c = unified(chars.last());
        if kept(c) {
            (out + char_lowercase(c), false)
        } else if !last_was_space {
            (out.push(' '), true)
        } else {
            (out, true)
        }
    }
}

/// A text without its trailing white space.
pub open spec fn trim_end_white(text: Seq<char>) -> Seq<char>
    decreases text.len(),
{
    if text.len() > 0 && whitespace(text.last()) {
        trim_end_white(text.drop_last())
    } else {
        text
    }
}

/// The normalized form of a text: composed, apostrophes unified, lowercased, every run
/// of other characters collapsed to one space, trailing space removed.
pub open spec fn normalized_text(text: Seq<char>) -> Seq<char> {
    trim_end_white(fold_normal(nfc_of(text)).0)
}

/// Words of a text separated by white space, with the word in progress.
pub open spec fn words_fold(text: Seq<char>) -> (Seq<Seq<char>>, Seq<char>)
    decreases text.len(),
{
    if text.len() == 0 {
        (Seq::empty(), Seq::empty())
    } else {
        let (done, current) = words_fold(text.drop_last());
        if whitespace(text.last()) {
            if current.len() > 0 {
                (done.push(current), Seq::empty())
            } else {
                (done, current)
            }
        } else {
            (done, current.push(text.last()))
        }
    }
}

/// The white-space separated words of a text, in order.
pub open spec fn words(text: Seq<char>) -> Seq<Seq<char>> {
    let (done, current) = words_fold(text);
    if current.len() > 0 {
        done.push(current)
    } else {
        done
    }
}

/// Words of a text separated by the space character, empty pieces dropped.
pub open spec fn space_words_fold(text: Seq<char>) -> (Seq<Seq<char>>, Seq<char>)
    decreases text.len(),
{
    if text.len() == 0 {
        (Seq::empty(), Seq::empty())
    } else {
        let (done, current) = space_words_fold(text.drop_last());
        if text.last() == ' ' {
            if current.len() > 0 {
                (done.push(current), Seq::empty())
            } else {
                (done, current)
            }
        } else {
            (done, current.push(text.last()))
        }
    }
}

pub open spec fn space_words(text: Seq<char>) -> Seq<Seq<char>> {
    let (done, current) = space_words_fold(text);
    if current.len() > 0 {
        done.push(current)
    } else {
        done
    }
}

/// `needle` sits in `haystack` starting at `start`.
pub open spec fn run_at<T>(haystack: Seq<T>, needle: Seq<T>, start: int) -> bool {
    0 <= start && start + needle.len() <= haystack.len() && haystack.subrange(
        start,
        start + needle.len(),
    ) == needle
}

/// `needle` sits in `haystack` at `start` or at some later position.
pub open spec fn run_from<T>(haystack: Seq<T>, needle: Seq<T>, start: int) -> bool
    decreases haystack.len() - start,
{
    if start < 0 || start >= haystack.len() || start + needle.len() > haystack.len() {
        false
    } else {
        run_at(haystack, needle, start) || run_from(haystack, needle, start + 1)
    }
}

/// `needle` is a non-empty contiguous run of `haystack`.
pub open spec fn contains_run<T>(haystack: Seq<T>, needle: Seq<T>) -> bool {
    needle.len() > 0 && run_from(haystack, needle, 0)
}

/// Word-boundary-aware containment of one normalized text in another.
pub open spec fn contains_word_run(haystack: Seq<char>, needle: Seq<char>) -> bool {
    needle.len() > 0 && contains_run(space_words(haystack), space_words(needle))
}

/// A span that does not overlap `exclude`, if there is one to avoid.
pub open spec fn outside(start: int, end: int, exclude: Option<Range<usize>>) -> bool {
    match exclude {
        Some(r) => end <= r.start || start >= r.end,
        None => true,
    }
}

/// The range behind an optional reference.
pub open spec fn owned_range(exclude: Option<&Range<usize>>) -> Option<Range<usize>> {
    match exclude {
        Some(r) => Some(*r),
        None => None,
    }
}

/// `stems` found at `start` in `haystack`, clear of `exclude`.
pub open spec fn usable_at(
    haystack: Seq<Seq<char>>,
    needle: Seq<Seq<char>>,
    start: int,
    exclude: Option<Range<usize>>,
) -> bool {
    run_at(haystack, needle, start) && outside(start, start + needle.len(), exclude)
}

/// The first occurrence of `needle` at or after `start` that is clear of `exclude`.
pub open spec fn first_usable_from(
    haystack: Seq<Seq<char>>,
    needle: Seq<Seq<char>>,
    exclude: Option<Range<usize>>,
    start: int,
) -> Option<int>
    decreases haystack.len() - start,
{
    if start < 0 || start >= haystack.len() || start + needle.len() > haystack.len() {
        None
    } else if usable_at(haystack, needle, start, exclude) {
        Some(start)
    } else {
        first_usable_from(haystack, needle, exclude, start + 1)
    }
}

/// The first occurrence of a non-empty `needle` in `haystack` that is clear of `exclude`.
pub open spec fn first_usable(
    haystack: Seq<Seq<char>>,
    needle: Seq<Seq<char>>,
    exclude: Option<Range<usize>>,
) -> Option<int> {
    if needle.len() == 0 {
        None
    } else {
        first_usable_from(haystack, needle, exclude, 0)
    }
}

impl Normalized {
    /// The text, tokens and stems that normalizing `raw` produces.
    pub open spec fn normalizes(&self, raw: Seq<char>) -> bool {
        &&& self.text@ == normalized_text(raw)
        &&& string_views(self.tokens@) == words(self.text@)
        &&& string_views(self.stems@) == stems_of(words(self.text@))
    }

    pub fn is_empty(&self) -> (empty: bool)
        ensures
            empty == (self.tokens@.len() == 0),
    {
        self.tokens.len() == 0
    }

    /// Does the normalized text contain this normalized phrase, on word boundaries?
    ///
    /// Substring matching alone would let "or" match inside "sword".
    pub fn contains_phrase(&self, phrase: &str) -> (found: bool)
        ensures
            found == contains_word_run(self.text@, phrase@),
    {
        contains_word_sequence(self.text.as_str(), phrase)
    }

    /// Does the stem sequence contain this sequence of stems?
    pub fn contains_stems(&self, stems: &[String]) -> (found: bool)
        ensures
            found == first_usable(string_views(self.stems@), string_views(stems@), None) is Some,
    {
        self.find_stems(stems).is_some()
    }

    /// Where this sequence of stems sits in the token stream, if it is there at all.
    pub fn find_stems(&self, stems: &[String]) -> (span: Option<Range<usize>>)
        ensures
            span matches Some(r) ==> first_usable(
                string_views(self.stems@),
                string_views(stems@),
                None,
            ) == Some(r.start as int) && r.end == r.start + stems@.len(),
            span is None <==> first_usable(string_views(self.stems@), string_views(stems@), None)
                is None,
    {
        self.find_stems_outside(stems, None)
    }

    /// `find_stems`, ignoring occurrences that overlap `exclude`. Every occurrence is
    /// considered, not just the first.
    pub fn find_stems_outside(&self, stems: &[String], exclude: Option<&Range<usize>>) -> (span:
        Option<Range<usize>>)
        ensures
            span matches Some(r) ==> first_usable(
                string_views(self.stems@),
                string_views(stems@),
                owned_range(exclude),
            ) == Some(r.start as int) && r.end == r.start + stems@.len(),
            span is None <==> first_usable(
                string_views(self.stems@),
                string_views(stems@),
                owned_range(exclude),
            ) is None,
    {
        let ghost hay = string_views(self.stems@);
        let ghost needle = string_views(stems@);
        let ghost ex = owned_range(exclude);
        let n = stems.len();
        if n == 0 || n > self.stems.len() {
            return None;
        }
        let last = self.stems.len() - n;
        let mut start: usize = 0;
        while start <= last
            invariant
                hay == string_views(self.stems@),
                needle == string_views(stems@),
                ex == owned_range(exclude),
                n == needle.len(),
                n > 0,
                last + n == hay.len(),
                hay.len() <= usize::MAX,
                start <= last + 1,
                first_usable(hay, needle, ex) == first_usable_from(hay, needle, ex, start as int),
            decreases last + 1 - start,
        {
            if window_matches(&self.stems, stems, start) {
                let clear = match exclude {
                    Some(r) => n <= r.start && start <= r.start - n || start >= r.end,
                    None => true,
                };
                if clear {
                    return Some(start..start + n);
                }
            }
            if start == last {
                assert(first_usable_from(hay, needle, ex, start + 1) is None);
                return None;
            }
            start = start + 1;
        }
        None
    }

    /// Position of a stem in the token stream, if present.
    pub fn stem_position(&self, stem: &str) -> (position: Option<usize>)
        ensures
            position matches Some(i) ==> i < self.stems@.len() && self.stems@[i as int]@ == stem@
                && forall|k: int| 0 <= k < i ==> self.stems@[k]@ != stem@,
            position is None ==> forall|k: int|
                0 <= k < self.stems@.len() ==> self.stems@[k]@ != stem@,
    {
        let target = chars_of(stem);
        let mut i: usize = 0;
        while i < self.stems.len()
            invariant
                target@ == stem@,
                i <= self.stems@.len(),
                forall|k: int| 0 <= k < i ==> self.stems@[k]@ != stem@,
            decreases self.stems@.len() - i,
        {
            let candidate = chars_of(self.stems[i].as_str());
            if chars_equal(candidate.as_slice(), target.as_slice()) {
                return Some(i);
            }
            i = i + 1;
        }
        None
    }
}

/// Is `needle` equal, string for string, to the window of `haystack` at `start`?
fn window_matches(haystack: &Vec<String>, needle: &[String], start: usize) -> (same: bool)
    requires
        start + needle@.len() <= haystack@.len(),
    ensures
        same == run_at(string_views(haystack@), string_views(needle@), start as int),
{
    let ghost hay = string_views(haystack@);
    let ghost nd = string_views(needle@);
    let _ = haystack.len();
    let mut i: usize = 0;
    while i < needle.len()
        invariant
            hay == string_views(haystack@),
            nd == string_views(needle@),
            start + needle@.len() <= haystack@.len(),
            haystack@.len() <= usize::MAX,
            i <= needle@.len(),
            forall|k: int| 0 <= k < i ==> hay[start + k] == nd[k],
        decreases needle@.len() - i,
    {
        let a = chars_of(haystack[start + i].as_str());
        let b = chars_of(needle[i].as_str());
        if !chars_equal(a.as_slice(), b.as_slice()) {
            assert(hay.subrange(start as int, start + nd.len())[i as int] != nd[i as int]);
            return false;
        }
        i = i + 1;
    }
    assert(hay.subrange(start as int, start + nd.len()) =~= nd);
    true
}

/// Normalize a transcript.
pub fn normalize(text: &str) -> (normalized: Normalized)
    ensures
        normalized.normalizes(text@),
{
    let text = normalize_text(text);
    let chars = chars_of(text.as_str());
    let tokens = split_whitespace(chars.as_slice());
    let mut stems: Vec<String> = Vec::new();
    let mut i: usize = 0;
    while i < tokens.len()
        invariant
            i <= tokens@.len(),
            stems@.len() == i,
            forall|k: int| 0 <= k < i ==> #[trigger] stems@[k]@ == stem_of(tokens@[k]@),
        decreases tokens@.len() - i,
    {
        let key = stem(tokens[i].as_str());
        stems.push(key);
        i = i + 1;
    }
    assert(string_views(stems@) =~= stems_of(string_views(tokens@)));
    Normalized { text, tokens, stems }
}

/// Ukrainian text arrives with any of five apostrophe-ish characters. They all mean the
/// same thing.
fn unify_apostrophe(character: char) -> (unified_char: char)
    ensures
        unified_char == unified(character),
{
    if character == '\u{2019}' || character == '\u{02BC}' || character == '\u{02BB}'
        || character == '\u{0060}' || character == '\u{00B4}' || character == '\u{2018}' {
        '\''
    } else {
        character
    }
}

/// The text half of normalization, exposed so phrases can be normalized the same way.
pub fn normalize_text(text: &str) -> (normalized: String)
    ensures
        normalized@ == normalized_text(text@),
{
    let composed = nfc(text);
    let mut out: Vec<char> = Vec::new();
    let mut last_was_space = true;
    let mut i: usize = 0;
    while i < composed.len()
        invariant
            i <= composed@.len(),
            (out@, last_was_space) == fold_normal(composed@.take(i as int)),
        decreases composed@.len() - i,
    {
        let character = unify_apostrophe(composed[i]);
        proof {
            assert(composed@.take(i + 1).drop_last() =~= composed@.take(i as int));
        }
        if is_alphanumeric(character) || character == '\'' {
            let mut lowered = lower_char(character);
            out.append(&mut lowered);
            last_was_space = false;
        } else if !last_was_space {
            out.push(' ');
            last_was_space = true;
        }
        i = i + 1;
    }
    assert(composed@.take(composed@.len() as int) =~= composed@);
    let mut end = out.len();
    assert(out@.take(end as int) =~= out@);
    while end > 0 && is_whitespace(out[end - 1])
        invariant
            end <= out@.len(),
            trim_end_white(out@) == trim_end_white(out@.take(end as int)),
        decreases end,
    {
        assert(out@.take(end as int).drop_last() =~= out@.take(end - 1));
        end = end - 1;
    }
    assert(trim_end_white(out@.take(end as int)) == out@.take(end as int));
    out.truncate(end);
    string_of(out.as_slice())
}

/// `str::split_whitespace`: the words between runs of white space.
pub fn split_whitespace(text: &[char]) -> (tokens: Vec<String>)
    ensures
        string_views(tokens@) == words(text@),
{
    let mut done: Vec<String> = Vec::new();
    let mut current: Vec<char> = Vec::new();
    let mut i: usize = 0;
    while i < text.len()
        invariant
            i <= text@.len(),
            (string_views(done@), current@) == words_fold(text@.take(i as int)),
        decreases text@.len() - i,
    {
        proof {
            assert(text@.take(i + 1).drop_last() =~= text@.take(i as int));
        }
        let c = text[i];
        if is_whitespace(c) {
            if current.len() > 0 {
                let word = string_of(current.as_slice());
                done.push(word);
                assert(string_views(done@) =~= words_fold(text@.take(i as int)).0.push(
                    current@,
                ));
                current = Vec::new();
            }
        } else {
            current.push(c);
        }
        i = i + 1;
    }
    assert(text@.take(text@.len() as int) =~= text@);
    if current.len() > 0 {
        let word = string_of(current.as_slice());
        done.push(word);
        assert(string_views(done@) =~= words_fold(text@).0.push(current@));
    }
    done
}

/// Words separated by the space character, empty pieces dropped.
fn split_spaces(text: &[char]) -> (pieces: Vec<Vec<char>>)
    ensures
        pieces@.map_values(|p: Vec<char>| p@) == space_words(text@),
{
    let mut done: Vec<Vec<char>> = Vec::new();
    let mut current: Vec<char> = Vec::new();
    let mut i: usize = 0;
    while i < text.len()
        invariant
            i <= text@.len(),
            (done@.map_values(|p: Vec<char>| p@), current@) == space_words_fold(
                text@.take(i as int),
            ),
        decreases text@.len() - i,
    {
        proof {
            assert(text@.take(i + 1).drop_last() =~= text@.take(i as int));
        }
        let c = text[i];
        if c == ' ' {
            if current.len() > 0 {
                let ghost before = done@.map_values(|p: Vec<char>| p@);
                done.push(current);
                assert(done@.map_values(|p: Vec<char>| p@) =~= before.push(
                    space_words_fold(text@.take(i as int)).1,
                ));
                current = Vec::new();
            }
        } else {
            current.push(c);
        }
        i = i + 1;
    }
    assert(text@.take(text@.len() as int) =~= text@);
    if current.len() > 0 {
        let ghost before = done@.map_values(|p: Vec<char>| p@);
        let ghost cur = current@;
        done.push(current);
        assert(done@.map_values(|p: Vec<char>| p@) =~= before.push(cur));
    }
    done
}

/// Does `needle` equal, word for word, the words of `haystack` at `start`?
fn words_match_at(haystack: &Vec<Vec<char>>, needle: &Vec<Vec<char>>, start: usize) -> (same: bool)
    requires
        start + needle@.len() <= haystack@.len(),
    ensures
        same == run_at(
            haystack@.map_values(|p: Vec<char>| p@),
            needle@.map_values(|p: Vec<char>| p@),
            start as int,
        ),
{
    let ghost hay = haystack@.map_values(|p: Vec<char>| p@);
    let ghost nd = needle@.map_values(|p: Vec<char>| p@);
    let _ = haystack.len();
    let mut i: usize = 0;
    while i < needle.len()
        invariant
            hay == haystack@.map_values(|p: Vec<char>| p@),
            nd == needle@.map_values(|p: Vec<char>| p@),
            start + needle@.len() <= haystack@.len(),
            haystack@.len() <= usize::MAX,
            i <= needle@.len(),
            forall|k: int| 0 <= k < i ==> hay[start + k] == nd[k],
        decreases needle@.len() - i,
    {
        if !chars_equal(haystack[start + i].as_slice(), needle[i].as_slice()) {
            assert(hay.subrange(start as int, start + nd.len())[i as int] != nd[i as int]);
            return false;
        }
        i = i + 1;
    }
    assert(hay.subrange(start as int, start + nd.len()) =~= nd);
    true
}

/// Word-boundary-aware search over already-normalized text.
fn contains_word_sequence(haystack: &str, needle: &str) -> (found: bool)
    ensures
        found == contains_word_run(haystack@, needle@),
{
    let needle_chars = chars_of(needle);
    if needle_chars.len() == 0 {
        return false;
    }
    let haystack_chars = chars_of(haystack);
    let hay = split_spaces(haystack_chars.as_slice());
    let nd = split_spaces(needle_chars.as_slice());
    let ghost hv = hay@.map_values(|p: Vec<char>| p@);
    let ghost nv = nd@.map_values(|p: Vec<char>| p@);
    assert(hv == space_words(haystack@));
    assert(nv == space_words(needle@));
    if nd.len() == 0 || nd.len() > hay.len() {
        return false;
    }
    let n = nd.len();
    let last = hay.len() - n;
    let mut start: usize = 0;
    while start <= last
        invariant
            hv == hay@.map_values(|p: Vec<char>| p@),
            nv == nd@.map_values(|p: Vec<char>| p@),
            n == nv.len(),
            n > 0,
            last + n == hv.len(),
            start <= last + 1,
            run_from(hv, nv, 0) == run_from(hv, nv, start as int),
            hv == space_words(haystack@),
            nv == space_words(needle@),
            needle@.len() > 0,
        decreases last + 1 - start,
    {
        if words_match_at(&hay, &nd, start) {
            assert(run_from(hv, nv, start as int));
            return true;
        }
        if start == last {
            assert(!run_from(hv, nv, start + 1));
            return false;
        }
        start = start + 1;
    }
    false
}

} // verus!
