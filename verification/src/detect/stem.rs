//! Light stemming for Ukrainian and English.
//!
//! The goal is consistency, not linguistic correctness: event phrases and transcripts
//! both go through this, so "відчиняє", "відчинив" and "відчиняти" only need to collapse
//! to the same string as each other.
//!
//! Two guards against over-stemming: a minimum stem length, and suffix lists that are
//! matched longest-first.

use vstd::prelude::*;

use crate::detect::normalize::{split_whitespace, string_views, words};
use crate::text::{chars_of, has_suffix, lowercase, string_of, str_lowercase, ends_with};

verus! {

/// Never stem below this many characters.
pub const MIN_STEM_CHARS: usize = 3;

/// A suffix of two characters or more must leave at least this much behind.
pub const MIN_STEM_CHARS_LONG_SUFFIX: usize = 4;

/// Ukrainian suffixes, longest first: the first match wins, so order is correctness.
pub open spec fn ukrainian_suffixes() -> Seq<Seq<char>> {
    seq![
        "відкриває скриню"@, "розлетілося"@, "розчахнула"@, "відчинити"@, "піднімаєш"@, "розбилась"@,
        "розчахнув"@, "відчиняє"@, "піднімає"@, "розчахну"@, "підніма"@, "увалась"@,
        "увалися"@, "уватися"@, "ювалися"@, "юватися"@, "валася"@, "монета"@,
        "монети"@, "нулася"@, "нулись"@, "нулися"@, "нулось"@, "нулося"@,
        "піднім"@, "уються"@, "яються"@, "яємося"@, "яється"@, "-нула"@,
        "ались"@, "атися"@, "вався"@, "илась"@, "илася"@, "илися"@,
        "илось"@, "итися"@, "монет"@, "нувся"@, "ували"@, "увати"@,
        "ювали"@, "ювати"@, "ються"@, "ялась"@, "ялися"@, "ємось"@,
        "ється"@, "ілась"@, "ілася"@, "ілися"@, "ілось"@, "ілося"@,
        "ішими"@, "-нув"@, "ався"@, "аємо"@, "аєте"@, "ешся"@,
        "ився"@, "лась"@, "лись"@, "лися"@, "лося"@, "моне"@,
        "нула"@, "нули"@, "нуло"@, "ував"@, "уємо"@, "уєте"@,
        "ював"@, "явся"@, "яють"@, "яємо"@, "яєте"@, "-єш"@,
        "ала"@, "али"@, "ало"@, "ами"@, "ати"@, "ать"@,
        "аєш"@, "вся"@, "еві"@, "ела"@, "ели"@, "ело"@,
        "ему"@, "ила"@, "или"@, "ило"@, "има"@, "ими"@,
        "имо"@, "ити"@, "ить"@, "нув"@, "ові"@, "ого"@,
        "ому"@, "ула"@, "ули"@, "уло"@, "ути"@, "уєш"@,
        "ьми"@, "юти"@, "ють"@, "ями"@, "яти"@, "ять"@,
        "яєш"@, "ємо"@, "іла"@, "іли"@, "іло"@, "іми"@,
        "іти"@, "ією"@, "-в"@, "ав"@, "ам"@, "ах"@,
        "ає"@, "ей"@, "ем"@, "еш"@, "ею"@, "ив"@,
        "ий"@, "их"@, "иш"@, "ка"@, "ки"@, "ко"@,
        "ку"@, "ла"@, "ли"@, "ло"@, "ов"@, "ом"@,
        "ою"@, "ої"@, "ює"@, "яв"@, "ям"@, "ях"@,
        "яє"@, "єш"@, "ів"@, "ій"@, "іх"@, "їш"@,
        "а"@, "е"@, "и"@, "о"@, "у"@, "ь"@,
        "ю"@, "я"@, "є"@, "і"@, "ї"@,
    ]
}

/// English suffixes, longest first.
pub open spec fn english_suffixes() -> Seq<Seq<char>> {
    seq![
        "ingly"@, "edly"@, "ings"@, "ings"@, "ing"@, "ies"@,
        "ied"@, "ers"@, "est"@, "ed"@, "es"@, "er"@,
        "s"@,
    ]
}

/// The views of a list of string slices.
pub open spec fn str_views(list: Seq<&str>) -> Seq<Seq<char>> {
    list.map_values(|s: &str| s@)
}

fn ukrainian_suffix_list() -> (list: Vec<&'static str>)
    ensures
        str_views(list@) == ukrainian_suffixes(),
{
    let list = vec![
        "відкриває скриню", "розлетілося", "розчахнула", "відчинити", "піднімаєш", "розбилась",
        "розчахнув", "відчиняє", "піднімає", "розчахну", "підніма", "увалась",
        "увалися", "уватися", "ювалися", "юватися", "валася", "монета",
        "монети", "нулася", "нулись", "нулися", "нулось", "нулося",
        "піднім", "уються", "яються", "яємося", "яється", "-нула",
        "ались", "атися", "вався", "илась", "илася", "илися",
        "илось", "итися", "монет", "нувся", "ували", "увати",
        "ювали", "ювати", "ються", "ялась", "ялися", "ємось",
        "ється", "ілась", "ілася", "ілися", "ілось", "ілося",
        "ішими", "-нув", "ався", "аємо", "аєте", "ешся",
        "ився", "лась", "лись", "лися", "лося", "моне",
        "нула", "нули", "нуло", "ував", "уємо", "уєте",
        "ював", "явся", "яють", "яємо", "яєте", "-єш",
        "ала", "али", "ало", "ами", "ати", "ать",
        "аєш", "вся", "еві", "ела", "ели", "ело",
        "ему", "ила", "или", "ило", "има", "ими",
        "имо", "ити", "ить", "нув", "ові", "ого",
        "ому", "ула", "ули", "уло", "ути", "уєш",
        "ьми", "юти", "ють", "ями", "яти", "ять",
        "яєш", "ємо", "іла", "іли", "іло", "іми",
        "іти", "ією", "-в", "ав", "ам", "ах",
        "ає", "ей", "ем", "еш", "ею", "ив",
        "ий", "их", "иш", "ка", "ки", "ко",
        "ку", "ла", "ли", "ло", "ов", "ом",
        "ою", "ої", "ює", "яв", "ям", "ях",
        "яє", "єш", "ів", "ій", "іх", "їш",
        "а", "е", "и", "о", "у", "ь",
        "ю", "я", "є", "і", "ї",
    ];
    assert(str_views(list@) =~= ukrainian_suffixes());
    list
}

fn english_suffix_list() -> (list: Vec<&'static str>)
    ensures
        str_views(list@) == english_suffixes(),
{
    let list = vec![
        "ingly", "edly", "ings", "ings", "ing", "ies",
        "ied", "ers", "est", "ed", "es", "er",
        "s",
    ];
    assert(str_views(list@) =~= english_suffixes());
    list
}

/// The stem floor that applies to a suffix of this many characters.
pub open spec fn floor_for(suffix_len: nat) -> nat {
    if suffix_len >= 2 {
        MIN_STEM_CHARS_LONG_SUFFIX as nat
    } else {
        MIN_STEM_CHARS as nat
    }
}

/// Whether `suffix` may be stripped from `lowered`: it is there, and what is left is
/// at least the floor for a suffix of its length.
pub open spec fn may_strip(lowered: Seq<char>, suffix: Seq<char>) -> bool {
    lowered.len() >= suffix.len() + floor_for(suffix.len()) && ends_with(lowered, suffix)
}

/// `lowered` without the first suffix of the list that may be stripped, if any.
pub open spec fn strip_first(lowered: Seq<char>, suffixes: Seq<Seq<char>>) -> Option<Seq<char>>
    decreases suffixes.len(),
{
    if suffixes.len() == 0 {
        None
    } else if may_strip(lowered, suffixes[0]) {
        Some(lowered.subrange(0, lowered.len() - suffixes[0].len()))
    } else {
        strip_first(lowered, suffixes.drop_first())
    }
}

pub open spec fn is_vowel(c: char) -> bool {
    c == 'a' || c == 'e' || c == 'i' || c == 'o' || c == 'u'
}

/// A stem longer than the floor that ends in a doubled consonant loses one of them:
/// "runn" becomes "run".
pub open spec fn undoubled(stem: Seq<char>) -> Seq<char> {
    if stem.len() > MIN_STEM_CHARS && stem[stem.len() - 1] == stem[stem.len() - 2]
        && !is_vowel(stem[stem.len() - 1]) {
        stem.drop_last()
    } else {
        stem
    }
}

/// Undoubling only ever takes off the last character of a doubled consonant: a stem
/// ending in a vowel (a, e, i, o, u) is kept whole, so "flee" stays "flee" and
/// "fleeing" meets it; a stem longer than the floor ending in a doubled consonant
/// ("runn") loses one copy; anything else is kept.
pub proof fn lemma_undoubling_drops_only_a_doubled_consonant(stem: Seq<char>)
    ensures
        stem.len() > 0 && (stem.last() == 'a' || stem.last() == 'e' || stem.last() == 'i'
            || stem.last() == 'o' || stem.last() == 'u') ==> undoubled(stem) == stem,
        stem.len() > MIN_STEM_CHARS && stem.last() == stem[stem.len() - 2] && !(stem.last() == 'a'
            || stem.last() == 'e' || stem.last() == 'i' || stem.last() == 'o' || stem.last()
            == 'u') ==> undoubled(stem) == stem.drop_last(),
        undoubled(stem) == stem || (undoubled(stem) == stem.drop_last() && stem.len()
            > MIN_STEM_CHARS && stem.last() == stem[stem.len() - 2]),
{
}

/// The stem of an already lowercased token against one suffix list.
pub open spec fn stem_lowered(lowered: Seq<char>, suffixes: Seq<Seq<char>>, undouble: bool) -> Seq<
    char,
> {
    if lowered.len() <= MIN_STEM_CHARS {
        lowered
    } else {
        match strip_first(lowered, suffixes) {
            Some(stripped) => if undouble {
                undoubled(stripped)
            } else {
                stripped
            },
            None => lowered,
        }
    }
}

/// Cyrillic block, U+0400 to U+04FF.
pub open spec fn is_cyrillic(c: char) -> bool {
    '\u{0400}' <= c && c <= '\u{04FF}'
}

pub open spec fn has_cyrillic(token: Seq<char>) -> bool {
    exists|i: int| 0 <= i < token.len() && is_cyrillic(#[trigger] token[i])
}

/// The comparison key of a token: Ukrainian rules when it contains any Cyrillic letter,
/// English rules otherwise.
pub open spec fn stem_of(token: Seq<char>) -> Seq<char> {
    if has_cyrillic(token) {
        stem_lowered(str_lowercase(token), ukrainian_suffixes(), false)
    } else {
        stem_lowered(str_lowercase(token), english_suffixes(), true)
    }
}

/// The stem of every word of a phrase.
pub open spec fn stems_of(words: Seq<Seq<char>>) -> Seq<Seq<char>> {
    words.map_values(|w: Seq<char>| stem_of(w))
}

/// A stripped suffix only ever leaves the floor or more behind.
proof fn lemma_strip_first_keeps_floor(lowered: Seq<char>, suffixes: Seq<Seq<char>>)
    ensures
        strip_first(lowered, suffixes) matches Some(s) ==> s.len() >= MIN_STEM_CHARS
            && s.len() <= lowered.len(),
    decreases suffixes.len(),
{
    if suffixes.len() > 0 && !may_strip(lowered, suffixes[0]) {
        lemma_strip_first_keeps_floor(lowered, suffixes.drop_first());
    }
}

/// Stemming never cuts a word longer than the floor down below it, and never touches a
/// word at or under it.
proof fn lemma_stem_respects_floor(lowered: Seq<char>, suffixes: Seq<Seq<char>>, undouble: bool)
    ensures
        lowered.len() <= MIN_STEM_CHARS ==> stem_lowered(lowered, suffixes, undouble) == lowered,
        lowered.len() > MIN_STEM_CHARS ==> stem_lowered(lowered, suffixes, undouble).len()
            >= MIN_STEM_CHARS,
        stem_lowered(lowered, suffixes, undouble).len() <= lowered.len(),
{
    lemma_strip_first_keeps_floor(lowered, suffixes);
}

fn cyrillic_present(token: &[char]) -> (found: bool)
    ensures
        found == has_cyrillic(token@),
{
    let mut i: usize = 0;
    while i < token.len()
        invariant
            i <= token@.len(),
            forall|k: int| 0 <= k < i ==> !is_cyrillic(#[trigger] token@[k]),
        decreases token@.len() - i,
    {
        let c = token[i];
        if '\u{0400}' <= c && c <= '\u{04FF}' {
            return true;
        }
        i = i + 1;
    }
    false
}

fn undouble_final(stem: Vec<char>) -> (out: Vec<char>)
    ensures
        out@ == undoubled(stem@),
{
    let n = stem.len();
    if n > MIN_STEM_CHARS {
        let last = stem[n - 1];
        let previous = stem[n - 2];
        let vowel = last == 'a' || last == 'e' || last == 'i' || last == 'o' || last == 'u';
        if last == previous && !vowel {
            let mut out = stem;
            out.pop();
            assert(out@ =~= stem@.drop_last());
            return out;
        }
    }
    stem
}

fn stem_with(token: &str, suffixes: &[&str], undouble: bool) -> (stem: String)
    ensures
        stem@ == stem_lowered(str_lowercase(token@), str_views(suffixes@), undouble),
{
    let lowered_text = lowercase(token);
    let lowered = chars_of(lowered_text.as_str());
    let length = lowered.len();
    if length <= MIN_STEM_CHARS {
        return lowered_text;
    }
    let ghost all = str_views(suffixes@);
    let mut k: usize = 0;
    assert(all.subrange(0, all.len() as int) =~= all);
    while k < suffixes.len()
        invariant
            k <= suffixes@.len(),
            all == str_views(suffixes@),
            lowered@ == str_lowercase(token@),
            length == lowered@.len(),
            strip_first(lowered@, all) == strip_first(
                lowered@,
                all.subrange(k as int, all.len() as int),
            ),
        decreases suffixes@.len() - k,
    {
        let suffix = chars_of(suffixes[k]);
        let suffix_length = suffix.len();
        let floor = if suffix_length >= 2 {
            MIN_STEM_CHARS_LONG_SUFFIX
        } else {
            MIN_STEM_CHARS
        };
        proof {
            assert(all.subrange(k as int, all.len() as int).drop_first() =~= all.subrange(
                k + 1,
                all.len() as int,
            ));
            assert(all.subrange(k as int, all.len() as int)[0] == suffix@);
        }
        if length.saturating_sub(suffix_length) >= floor && has_suffix(lowered.as_slice(), suffix.as_slice()) {
            let mut stripped = lowered;
            stripped.truncate(length - suffix_length);
            assert(stripped@ =~= str_lowercase(token@).subrange(0, length - suffix_length));
            let out = if undouble {
                undouble_final(stripped)
            } else {
                stripped
            };
            return string_of(out.as_slice());
        }
        k = k + 1;
    }
    assert(all.subrange(k as int, all.len() as int).len() == 0);
    lowered_text
}

/// Reduce a token to a comparison key.
pub fn stem(token: &str) -> (key: String)
    ensures
        key@ == stem_of(token@),
{
    let chars = chars_of(token);
    if cyrillic_present(chars.as_slice()) {
        let list = ukrainian_suffix_list();
        stem_with(token, list.as_slice(), false)
    } else {
        let list = english_suffix_list();
        stem_with(token, list.as_slice(), true)
    }
}

/// Stem a whole phrase, word by word, for comparing phrase stems against transcript
/// stems.
pub fn stem_phrase(phrase: &str) -> (stems: Vec<String>)
    ensures
        string_views(stems@) == stems_of(words(phrase@)),
{
    let chars = chars_of(phrase);
    let tokens = split_whitespace(chars.as_slice());
    let mut stems: Vec<String> = Vec::new();
    let mut i: usize = 0;
    while i < tokens.len()
        invariant
            i <= tokens@.len(),
            stems@.len() == i,
            forall|k: int| 0 <= k < i ==> #[trigger] stems@[k]@ == stem_of(tokens@[k]@),
        decreases tokens@.len() - i,
    {
        stems.push(stem(tokens[i].as_str()));
        i = i + 1;
    }
    assert(string_views(stems@) =~= stems_of(string_views(tokens@)));
    stems
}

/// A word at or under the floor is only lowercased.
pub proof fn lemma_short_words_are_left_alone(token: Seq<char>)
    requires
        str_lowercase(token).len() <= MIN_STEM_CHARS,
    ensures
        stem_of(token) == str_lowercase(token),
{
}

/// A word longer than the floor never stems below it, and no stem is longer than the
/// lowercased word.
pub proof fn lemma_stems_keep_the_floor(token: Seq<char>)
    ensures
        str_lowercase(token).len() > MIN_STEM_CHARS ==> stem_of(token).len() >= MIN_STEM_CHARS,
        stem_of(token).len() <= str_lowercase(token).len(),
{
    lemma_stem_respects_floor(str_lowercase(token), ukrainian_suffixes(), false);
    lemma_stem_respects_floor(str_lowercase(token), english_suffixes(), true);
}

} // verus!
