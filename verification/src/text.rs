//! Character-level text primitives shared by every module that reads words.
//!
//! Unicode classification, case mapping and canonical composition come from std and
//! from `unicode-normalization`; everything built on top of them (splitting, trimming,
//! comparing, searching) is written and proved here.

use unicode_normalization::UnicodeNormalization;

use crate::detect::normalize::string_views;
use vstd::prelude::*;

verus! {

/// The canonical composition (NFC) of a text, as `unicode-normalization` computes it.
pub uninterp spec fn nfc_of(text: Seq<char>) -> Seq<char>;

/// Whether std classifies a character as alphabetic or numeric.
pub uninterp spec fn alphanumeric(c: char) -> bool;

/// Whether std classifies a character as alphabetic.
pub uninterp spec fn alphabetic(c: char) -> bool;

/// Whether std classifies a character as white space.
pub uninterp spec fn whitespace(c: char) -> bool;

/// The characters std's `char::to_lowercase` yields for one character.
pub uninterp spec fn char_lowercase(c: char) -> Seq<char>;

/// The text std's `str::to_lowercase` returns.
pub uninterp spec fn str_lowercase(text: Seq<char>) -> Seq<char>;

/// A lowercase ASCII letter or an ASCII digit: characters that lowercasing leaves alone.
pub open spec fn is_plain_lower_ascii(c: char) -> bool {
    ('a' <= c && c <= 'z') || ('0' <= c && c <= '9')
}

/// An ASCII letter, either case.
pub open spec fn is_ascii_letter(c: char) -> bool {
    ('a' <= c && c <= 'z') || ('A' <= c && c <= 'Z')
}

/// An ASCII letter or digit.
pub open spec fn is_ascii_alphanumeric(c: char) -> bool {
    is_ascii_letter(c) || ('0' <= c && c <= '9')
}

/// An ASCII character.
pub open spec fn is_ascii_char(c: char) -> bool {
    (c as u32) < 0x80
}

/// ASCII lowercasing: `A`..`Z` become `a`..`z`, everything else stays.
pub open spec fn ascii_lower(c: char) -> char {
    if 'A' <= c && c <= 'Z' {
        ((c as u32) + 32) as char
    } else {
        c
    }
}

/// `text.nfc()`, collected.
#[verifier::external_body]
pub(crate) fn nfc(text: &str) -> (composed: Vec<char>)
    ensures
        composed@ == nfc_of(text@),
{
    text.nfc().collect()
}

/// `char::is_alphanumeric`: Unicode `Alphabetic` or `Numeric`. Among ASCII characters
/// those are exactly the letters and digits; punctuation, symbols, space and controls
/// are neither.
#[verifier::external_body]
pub(crate) fn is_alphanumeric(c: char) -> (b: bool)
    ensures
        b == alphanumeric(c),
        is_ascii_char(c) ==> b == is_ascii_alphanumeric(c),
{
    c.is_alphanumeric()
}

/// `char::is_alphabetic`: the Unicode `Alphabetic` property, which among ASCII
/// characters only the letters have.
#[verifier::external_body]
pub(crate) fn is_alphabetic(c: char) -> (b: bool)
    ensures
        b == alphabetic(c),
        is_ascii_char(c) ==> b == is_ascii_letter(c),
{
    c.is_alphabetic()
}

/// `char::is_whitespace`: the Unicode `White_Space` property, which among ASCII
/// characters only the space and U+0009 to U+000D (tab, line feed, vertical tab, form
/// feed, carriage return) have.
#[verifier::external_body]
pub(crate) fn is_whitespace(c: char) -> (b: bool)
    ensures
        b == whitespace(c),
        is_ascii_char(c) ==> b == (c == ' ' || ('\t' <= c && c <= '\r')),
{
    c.is_whitespace()
}

/// `char::to_lowercase`, collected. An ASCII character lowercases to its ASCII
/// lowercase, one character.
#[verifier::external_body]
pub(crate) fn lower_char(c: char) -> (lowered: Vec<char>)
    ensures
        lowered@ == char_lowercase(c),
        is_ascii_char(c) ==> lowered@ == seq![ascii_lower(c)],
{
    c.to_lowercase().collect()
}

/// `str::to_lowercase`. Text made only of lowercase ASCII letters and ASCII digits has
/// no lowercase mapping other than itself, so it comes back unchanged; ASCII text comes
/// back ASCII-lowercased, character for character.
#[verifier::external_body]
pub(crate) fn lowercase(text: &str) -> (lowered: String)
    ensures
        lowered@ == str_lowercase(text@),
        (forall|i: int| 0 <= i < text@.len() ==> is_plain_lower_ascii(#[trigger] text@[i]))
            ==> lowered@ == text@,
        (forall|i: int| 0 <= i < text@.len() ==> is_ascii_char(#[trigger] text@[i]))
            ==> lowered@ == text@.map_values(|c: char| ascii_lower(c)),
{
    text.to_lowercase()
}

/// The characters of a text, in order.
pub fn chars_of(text: &str) -> (chars: Vec<char>)
    ensures
        chars@ == text@,
{
    broadcast use vstd::string::axiom_spec_iter;

    let mut chars: Vec<char> = Vec::new();
    for c in it: text.chars()
        invariant
            chars@ == it.seq().take(it.index() as int),
    {
        chars.push(c);
    }
    chars
}

/// A text made of these characters, in order.
#[verifier::external_body]
pub(crate) fn string_of(chars: &[char]) -> (text: String)
    ensures
        text@ == chars@,
{
    chars.iter().collect()
}

/// Do two character slices hold the same characters?
pub fn chars_equal(a: &[char], b: &[char]) -> (same: bool)
    ensures
        same == (a@ == b@),
{
    if a.len() != b.len() {
        return false;
    }
    let mut i: usize = 0;
    while i < a.len()
        invariant
            a@.len() == b@.len(),
            i <= a@.len(),
            forall|k: int| 0 <= k < i ==> a@[k] == b@[k],
        decreases a@.len() - i,
    {
        if a[i] != b[i] {
            return false;
        }
        i = i + 1;
    }
    assert(a@ =~= b@);
    true
}

/// Are two texts the same characters?
pub fn same_text(a: &str, b: &str) -> (same: bool)
    ensures
        same == (a@ == b@),
{
    let a = chars_of(a);
    let b = chars_of(b);
    chars_equal(a.as_slice(), b.as_slice())
}

/// Does `text` end with `suffix`?
pub open spec fn ends_with(text: Seq<char>, suffix: Seq<char>) -> bool {
    suffix.len() <= text.len() && text.subrange(text.len() - suffix.len(), text.len() as int)
        == suffix
}

/// Does `text` start with `prefix`?
pub open spec fn starts_with(text: Seq<char>, prefix: Seq<char>) -> bool {
    prefix.len() <= text.len() && text.subrange(0, prefix.len() as int) == prefix
}

/// Does `needle` occur in `text` as a contiguous run of characters?
pub open spec fn occurs_in(text: Seq<char>, needle: Seq<char>) -> bool {
    exists|i: int|
        0 <= i && i + needle.len() <= text.len() && #[trigger] text.subrange(
            i,
            i + needle.len(),
        ) == needle
}

/// `ends_with`, computed.
pub fn has_suffix(text: &[char], suffix: &[char]) -> (b: bool)
    ensures
        b == ends_with(text@, suffix@),
{
    if suffix.len() > text.len() {
        return false;
    }
    let offset = text.len() - suffix.len();
    let mut i: usize = 0;
    while i < suffix.len()
        invariant
            offset + suffix@.len() == text@.len(),
            text@.len() <= usize::MAX,
            i <= suffix@.len(),
            forall|k: int| 0 <= k < i ==> text@[offset + k] == suffix@[k],
        decreases suffix@.len() - i,
    {
        if text[offset + i] != suffix[i] {
            assert(text@.subrange(offset as int, text@.len() as int)[i as int] != suffix@[i as int]);
            return false;
        }
        i = i + 1;
    }
    assert(text@.subrange(offset as int, text@.len() as int) =~= suffix@);
    true
}

/// Does `needle` occur in `text` starting exactly at `start`?
pub fn occurs_at(text: &[char], needle: &[char], start: usize) -> (b: bool)
    requires
        start <= text@.len(),
    ensures
        b == (start + needle@.len() <= text@.len() && text@.subrange(
            start as int,
            start + needle@.len(),
        ) == needle@),
{
    if needle.len() > text.len() - start {
        return false;
    }
    let mut i: usize = 0;
    while i < needle.len()
        invariant
            start + needle@.len() <= text@.len(),
            text@.len() <= usize::MAX,
            i <= needle@.len(),
            forall|k: int| 0 <= k < i ==> text@[start + k] == needle@[k],
        decreases needle@.len() - i,
    {
        if text[start + i] != needle[i] {
            assert(text@.subrange(start as int, start + needle@.len())[i as int]
                != needle@[i as int]);
            return false;
        }
        i = i + 1;
    }
    assert(text@.subrange(start as int, start + needle@.len()) =~= needle@);
    true
}

/// `occurs_in`, computed.
pub fn contains_chars(text: &[char], needle: &[char]) -> (b: bool)
    ensures
        b == occurs_in(text@, needle@),
{
    if needle.len() > text.len() {
        return false;
    }
    let last = text.len() - needle.len();
    let mut start: usize = 0;
    while start <= last
        invariant
            last + needle@.len() == text@.len(),
            start <= last + 1,
            forall|k: int|
                0 <= k < start ==> #[trigger] text@.subrange(k, k + needle@.len()) != needle@,
        decreases last + 1 - start,
    {
        if occurs_at(text, needle, start) {
            return true;
        }
        if start == last {
            return false;
        }
        start = start + 1;
    }
    false
}

/// Words joined by single spaces.
pub open spec fn joined(words: Seq<Seq<char>>) -> Seq<char>
    decreases words.len(),
{
    if words.len() == 0 {
        Seq::empty()
    } else if words.len() == 1 {
        words[0]
    } else {
        joined(words.drop_last()) + seq![' '] + words.last()
    }
}

/// Join words with single spaces.
pub fn join_words(words: &[String]) -> (text: String)
    ensures
        text@ == joined(string_views(words@)),
{
    let mut out: Vec<char> = Vec::new();
    let mut i: usize = 0;
    while i < words.len()
        invariant
            i <= words@.len(),
            out@ == joined(string_views(words@).take(i as int)),
        decreases words@.len() - i,
    {
        proof {
            assert(string_views(words@).take(i + 1).drop_last() =~= string_views(words@).take(
                i as int,
            ));
        }
        if i > 0 {
            out.push(' ');
        }
        let word = chars_of(words[i].as_str());
        let mut j: usize = 0;
        let ghost before = out@;
        while j < word.len()
            invariant
                j <= word@.len(),
                out@ == before + word@.take(j as int),
            decreases word@.len() - j,
        {
            out.push(word[j]);
            j = j + 1;
            assert(out@ =~= before + word@.take(j as int));
        }
        assert(word@.take(word@.len() as int) =~= word@);
        i = i + 1;
    }
    assert(string_views(words@).take(words@.len() as int) =~= string_views(words@));
    string_of(out.as_slice())
}


/// Append a text's characters.
pub fn push_text(out: &mut Vec<char>, text: &str)
    ensures
        final(out)@ == old(out)@ + text@,
{
    let chars = chars_of(text);
    let ghost head = out@;
    let mut i: usize = 0;
    while i < chars.len()
        invariant
            i <= chars@.len(),
            out@ == head + chars@.take(i as int),
        decreases chars@.len() - i,
    {
        out.push(chars[i]);
        i = i + 1;
        assert(out@ =~= head + chars@.take(i as int));
    }
    assert(chars@.take(chars@.len() as int) =~= chars@);
}


/// The decimal digits of a number, most significant first.
pub open spec fn decimal(n: nat) -> Seq<char>
    decreases n,
{
    if n < 10 {
        seq![(('0' as int) + n) as char]
    } else {
        decimal(n / 10).push((('0' as int) + n % 10) as char)
    }
}

/// A number written in decimal, as `{}` formats it.
pub fn decimal_text(n: u64) -> (text: String)
    ensures
        text@ == decimal(n as nat),
{
    let mut digits: Vec<char> = Vec::new();
    let mut rest = n;
    // Digits come out least significant first; `rest` is what is left to write.
    loop
        invariant_except_break
            decimal(n as nat) == decimal(rest as nat) + digits@.reverse(),
        ensures
            decimal(n as nat) == digits@.reverse(),
        decreases rest,
    {
        let digit = ((48u64 + rest % 10) as u8) as char;
        assert(digit == (('0' as int) + rest % 10) as char);
        if rest < 10 {
            assert(decimal(rest as nat) == seq![digit]);
            let ghost before = digits@;
            digits.push(digit);
            assert(digits@.reverse() =~= seq![digit] + before.reverse());
            break;
        }
        assert(decimal(rest as nat) == decimal((rest / 10) as nat).push(digit));
        let ghost before = digits@;
        digits.push(digit);
        assert(digits@.reverse() =~= seq![digit] + before.reverse());
        rest = rest / 10;
    }
    let mut out: Vec<char> = Vec::new();
    let mut i: usize = digits.len();
    while i > 0
        invariant
            i <= digits@.len(),
            out@ == digits@.subrange(i as int, digits@.len() as int).reverse(),
        decreases i,
    {
        i = i - 1;
        out.push(digits[i]);
        assert(out@ =~= digits@.subrange(i as int, digits@.len() as int).reverse());
    }
    assert(digits@.subrange(0, digits@.len() as int) =~= digits@);
    string_of(out.as_slice())
}

/// A signed number written in decimal: a minus sign before the digits of its magnitude.
pub open spec fn signed_decimal(n: int) -> Seq<char> {
    if n < 0 {
        seq!['-'] + decimal((-n) as nat)
    } else {
        decimal(n as nat)
    }
}

/// A signed number written in decimal, as `{}` formats it.
pub fn signed_decimal_text(n: i64) -> (text: String)
    ensures
        text@ == signed_decimal(n as int),
{
    if n < 0 {
        let magnitude: u64 = if n == i64::MIN {
            0x8000_0000_0000_0000
        } else {
            (-n) as u64
        };
        let mut out: Vec<char> = vec!['-'];
        push_text(&mut out, decimal_text(magnitude).as_str());
        string_of(out.as_slice())
    } else {
        decimal_text(n as u64)
    }
}

} // verus!
