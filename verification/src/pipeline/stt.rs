//! Which transcripts are believable, and how whisper's decoding loops are undone.
//!
//! Speech recognition itself runs outside the library. Whisper answers silence with
//! punctuation and stock phrases, and greedy decoding occasionally latches onto a phrase
//! and repeats it until it runs out of tokens; recognising both is text work, done here.

use vstd::prelude::*;

use crate::detect::normalize::{split_whitespace, string_views, words, words_fold};
use crate::detect::stem::str_views;
use crate::text::{
    alphabetic, alphanumeric, chars_of, contains_chars, is_alphabetic, is_alphanumeric,
    join_words, joined, lowercase, occurs_in, same_text, str_lowercase, string_of,
};

verus! {

/// Phrases whisper invents from silence and background noise, wherever they appear:
/// subtitle credits from its training data.
pub open spec fn hallucinations() -> Seq<Seq<char>> {
    seq![
        "субтитри створив"@, "субтитри від"@, "редактор субтитрів"@, "переклад субтитрів"@,
        "thank you for watching"@, "thanks for watching"@, "subtitles by"@, "amara.org"@,
        "продолжение следует"@, "субтитры сделал"@, "поделитесь этим видео"@,
    ]
}

/// Phrases that are hallucinations only when they are the entire transcript: "дякую"
/// is an ordinary thing to narrate, but standing alone it is whisper talking to itself.
pub open spec fn standalone_hallucinations() -> Seq<Seq<char>> {
    seq![
        "thank you"@, "thanks"@, "thank you very much"@, "you"@, "bye"@, "goodbye"@,
        "дякую"@, "спасибо"@, "спасибі"@, "продолжение следует"@, "субтитри"@, "субтитры"@,
    ]
}

fn hallucination_list() -> (list: Vec<&'static str>)
    ensures
        str_views(list@) == hallucinations(),
{
    let list = vec![
        "субтитри створив", "субтитри від", "редактор субтитрів", "переклад субтитрів",
        "thank you for watching", "thanks for watching", "subtitles by", "amara.org",
        "продолжение следует", "субтитры сделал", "поделитесь этим видео",
    ];
    assert(str_views(list@) =~= hallucinations());
    list
}

fn standalone_list() -> (list: Vec<&'static str>)
    ensures
        str_views(list@) == standalone_hallucinations(),
{
    let list = vec![
        "thank you", "thanks", "thank you very much", "you", "bye", "goodbye",
        "дякую", "спасибо", "спасибі", "продолжение следует", "субтитри", "субтитры",
    ];
    assert(str_views(list@) =~= standalone_hallucinations());
    list
}

/// How many characters of a text are alphabetic.
pub open spec fn letter_count(text: Seq<char>) -> nat
    decreases text.len(),
{
    if text.len() == 0 {
        0
    } else {
        letter_count(text.drop_last()) + if alphabetic(text.last()) {
            1nat
        } else {
            0nat
        }
    }
}

/// A text with every leading and trailing character that is not alphanumeric removed.
pub open spec fn trim_non_alphanumeric(text: Seq<char>) -> Seq<char>
    decreases text.len(),
{
    if text.len() > 0 && !alphanumeric(text[0]) {
        trim_non_alphanumeric(text.drop_first())
    } else if text.len() > 0 && !alphanumeric(text.last()) {
        trim_non_alphanumeric(text.drop_last())
    } else {
        text
    }
}

/// What a transcript is reduced to before it is compared with the standalone phrases:
/// lowercased, stripped of surrounding punctuation, white space collapsed.
pub open spec fn bare(text: Seq<char>) -> Seq<char> {
    joined(words(trim_non_alphanumeric(str_lowercase(text))))
}

/// Whether a transcript looks like one of whisper's stock hallucinations.
pub open spec fn hallucinated(text: Seq<char>) -> bool {
    ||| standalone_hallucinations().contains(bare(text))
    ||| exists|i: int|
        0 <= i < hallucinations().len() && occurs_in(str_lowercase(text), #[trigger] hallucinations()[i])
}

/// Collapse white space and drop the leading space whisper always emits.
pub fn clean(text: &str) -> (cleaned: String)
    ensures
        cleaned@ == joined(words(text@)),
{
    let chars = chars_of(text);
    let tokens = split_whitespace(chars.as_slice());
    join_words(tokens.as_slice())
}

/// Does the transcript contain actual words? Whisper answers silence with punctuation
/// surprisingly often, a bare "!!" or "...". Two letters is the cheapest reliable filter.
pub fn has_words(text: &str) -> (found: bool)
    ensures
        found == (letter_count(text@) >= 2),
{
    let chars = chars_of(text);
    let mut count: usize = 0;
    let mut i: usize = 0;
    while i < chars.len()
        invariant
            i <= chars@.len(),
            chars@ == text@,
            count == letter_count(chars@.take(i as int)),
            count <= i,
        decreases chars@.len() - i,
    {
        proof {
            assert(chars@.take(i + 1).drop_last() =~= chars@.take(i as int));
        }
        if is_alphabetic(chars[i]) {
            count = count + 1;
        }
        i = i + 1;
    }
    assert(chars@.take(chars@.len() as int) =~= chars@);
    count >= 2
}

/// The characters of a text between its first and last alphanumeric ones.
pub fn trim_to_alphanumeric(text: &[char]) -> (trimmed: Vec<char>)
    ensures
        trimmed@ == trim_non_alphanumeric(text@),
{
    let mut start: usize = 0;
    let mut end: usize = text.len();
    assert(text@.subrange(0, end as int) =~= text@);
    while start < end && !is_alphanumeric(text[start])
        invariant
            start <= end <= text@.len(),
            end == text@.len(),
            trim_non_alphanumeric(text@) == trim_non_alphanumeric(
                text@.subrange(start as int, end as int),
            ),
        decreases end - start,
    {
        assert(text@.subrange(start as int, end as int).drop_first() =~= text@.subrange(
            start + 1,
            end as int,
        ));
        start = start + 1;
    }
    while start < end && !is_alphanumeric(text[end - 1])
        invariant
            start <= end <= text@.len(),
            start == end || alphanumeric(text@[start as int]),
            trim_non_alphanumeric(text@) == trim_non_alphanumeric(
                text@.subrange(start as int, end as int),
            ),
        decreases end - start,
    {
        assert(text@.subrange(start as int, end as int).drop_last() =~= text@.subrange(
            start as int,
            end - 1,
        ));
        end = end - 1;
    }
    let mut out: Vec<char> = Vec::new();
    let mut i: usize = start;
    while i < end
        invariant
            start <= i <= end <= text@.len(),
            out@ == text@.subrange(start as int, i as int),
        decreases end - i,
    {
        out.push(text[i]);
        i = i + 1;
        assert(out@ =~= text@.subrange(start as int, i as int));
    }
    out
}

/// Does this look like one of whisper's stock hallucinations?
pub fn is_hallucination(text: &str) -> (found: bool)
    ensures
        found == hallucinated(text@),
{
    let lowered = lowercase(text);
    let lowered_chars = chars_of(lowered.as_str());
    let trimmed = trim_to_alphanumeric(lowered_chars.as_slice());
    let tokens = split_whitespace(trimmed.as_slice());
    let bare_text = join_words(tokens.as_slice());
    let standalone = standalone_list();
    let ghost alone = standalone_hallucinations();
    let mut i: usize = 0;
    while i < standalone.len()
        invariant
            i <= standalone@.len(),
            alone == str_views(standalone@),
            alone == standalone_hallucinations(),
            bare_text@ == bare(text@),
            forall|k: int| 0 <= k < i ==> alone[k] != bare_text@,
        decreases standalone@.len() - i,
    {
        if same_text(standalone[i], bare_text.as_str()) {
            assert(alone[i as int] == bare_text@);
            return true;
        }
        i = i + 1;
    }
    let phrases = hallucination_list();
    let ghost all = hallucinations();
    let mut j: usize = 0;
    while j < phrases.len()
        invariant
            j <= phrases@.len(),
            all == str_views(phrases@),
            all == hallucinations(),
            lowered_chars@ == str_lowercase(text@),
            !standalone_hallucinations().contains(bare(text@)),
            forall|k: int| 0 <= k < j ==> !occurs_in(str_lowercase(text@), #[trigger] all[k]),
        decreases phrases@.len() - j,
    {
        let phrase = chars_of(phrases[j]);
        if contains_chars(lowered_chars.as_slice(), phrase.as_slice()) {
            assert(occurs_in(str_lowercase(text@), all[j as int]));
            return true;
        }
        j = j + 1;
    }
    false
}


/// Whisper's stock hallucinations, one by one: a transcript is one exactly when,
/// lowercased, it contains a subtitle credit anywhere, or when all it says, stripped of
/// case, punctuation and spacing, is a bare politeness.
pub proof fn lemma_stock_hallucinations_are_exactly_these(text: Seq<char>)
    ensures
        hallucinated(text) <==> {
            ||| bare(text) == "thank you"@
            ||| bare(text) == "thanks"@
            ||| bare(text) == "thank you very much"@
            ||| bare(text) == "you"@
            ||| bare(text) == "bye"@
            ||| bare(text) == "goodbye"@
            ||| bare(text) == "дякую"@
            ||| bare(text) == "спасибо"@
            ||| bare(text) == "спасибі"@
            ||| bare(text) == "продолжение следует"@
            ||| bare(text) == "субтитри"@
            ||| bare(text) == "субтитры"@
            ||| occurs_in(str_lowercase(text), "субтитри створив"@)
            ||| occurs_in(str_lowercase(text), "субтитри від"@)
            ||| occurs_in(str_lowercase(text), "редактор субтитрів"@)
            ||| occurs_in(str_lowercase(text), "переклад субтитрів"@)
            ||| occurs_in(str_lowercase(text), "thank you for watching"@)
            ||| occurs_in(str_lowercase(text), "thanks for watching"@)
            ||| occurs_in(str_lowercase(text), "subtitles by"@)
            ||| occurs_in(str_lowercase(text), "amara.org"@)
            ||| occurs_in(str_lowercase(text), "продолжение следует"@)
            ||| occurs_in(str_lowercase(text), "субтитры сделал"@)
            ||| occurs_in(str_lowercase(text), "поделитесь этим видео"@)
        },
{
    let lowered = str_lowercase(text);
    let h = hallucinations();
    let a = standalone_hallucinations();
    assert(h[0] == "субтитри створив"@);
    assert(h[1] == "субтитри від"@);
    assert(h[2] == "редактор субтитрів"@);
    assert(h[3] == "переклад субтитрів"@);
    assert(h[4] == "thank you for watching"@);
    assert(h[5] == "thanks for watching"@);
    assert(h[6] == "subtitles by"@);
    assert(h[7] == "amara.org"@);
    assert(h[8] == "продолжение следует"@);
    assert(h[9] == "субтитры сделал"@);
    assert(h[10] == "поделитесь этим видео"@);
    assert(a[0] == "thank you"@);
    assert(a[1] == "thanks"@);
    assert(a[2] == "thank you very much"@);
    assert(a[3] == "you"@);
    assert(a[4] == "bye"@);
    assert(a[5] == "goodbye"@);
    assert(a[6] == "дякую"@);
    assert(a[7] == "спасибо"@);
    assert(a[8] == "спасибі"@);
    assert(a[9] == "продолжение следует"@);
    assert(a[10] == "субтитри"@);
    assert(a[11] == "субтитры"@);
    assert(h.len() == 11 && a.len() == 12);
    if exists|i: int| 0 <= i < h.len() && occurs_in(lowered, #[trigger] h[i]) {
        let i = choose|i: int| 0 <= i < h.len() && occurs_in(lowered, #[trigger] h[i]);
        assert(0 <= i < 11);
    }
    if a.contains(bare(text)) {
        let i = choose|i: int| 0 <= i < a.len() && a[i] == bare(text);
        assert(0 <= i < 12);
    }
}

/// How many consecutive repeats of the same block count as a decoding loop rather than
/// as something said. Three is a plausible flourish, "грім, грім, грім", so the bar is
/// four.
pub const REPETITION_LIMIT: usize = 4;

/// The longest phrase a loop is looked for at, in words.
pub const REPETITION_MAX_PERIOD: usize = 6;

/// A word's comparison key: lowercase, without the punctuation whisper sprinkles
/// between repeats ("бі-мечем," and "бі-мечем" are the same block).
pub open spec fn word_key(word: Seq<char>) -> Seq<char> {
    trim_non_alphanumeric(str_lowercase(word))
}

pub open spec fn keys_of(ws: Seq<Seq<char>>) -> Seq<Seq<char>> {
    ws.map_values(|w: Seq<char>| word_key(w))
}

/// Where a run of copies of `keys[start..start + period]`, continuing at `end`, stops.
pub open spec fn run_end(keys: Seq<Seq<char>>, start: int, period: int, end: int) -> int
    decreases keys.len() - end,
{
    if period > 0 && end >= 0 && end + period <= keys.len() && keys.subrange(end, end + period)
        == keys.subrange(start, start + period) {
        run_end(keys, start, period, end + period)
    } else {
        end
    }
}

/// The first loop of blocks of `period` words starting at or after `start`: where it
/// starts and where it ends.
pub open spec fn loop_from(keys: Seq<Seq<char>>, period: int, start: int) -> Option<(int, int)>
    decreases keys.len() - start,
{
    if period <= 0 || start < 0 || start + period * 4 > keys.len() {
        None
    } else if run_end(keys, start, period, start + period) >= start + period * 4 {
        Some((start, run_end(keys, start, period, start + period)))
    } else {
        loop_from(keys, period, start + 1)
    }
}

/// The first loop, shortest block first and then leftmost: its period, start and end.
pub open spec fn first_loop(keys: Seq<Seq<char>>, period: int) -> Option<(int, int, int)>
    decreases 7 - period,
{
    if period < 1 || period > 6 {
        None
    } else {
        match loop_from(keys, period, 0) {
            Some((start, end)) => Some((period, start, end)),
            None => first_loop(keys, period + 1),
        }
    }
}

pub open spec fn is_separator(c: char) -> bool {
    c == ',' || c == ';' || c == ':' || c == '-' || c == '\u{2014}'
}

/// A text without trailing separators: a separator at the end of a transcript never
/// means anything.
pub open spec fn trim_separators(text: Seq<char>) -> Seq<char>
    decreases text.len(),
{
    if text.len() > 0 && is_separator(text.last()) {
        trim_separators(text.drop_last())
    } else {
        text
    }
}

/// The words of a text with a loop cut out: the first block is kept, the repeats
/// after it are dropped.
pub open spec fn cut_loop(ws: Seq<Seq<char>>, period: int, start: int, end: int) -> Seq<char> {
    trim_separators(joined(ws.subrange(0, start + period) + ws.subrange(end, ws.len() as int)))
}

/// A transcript with whisper's decoding loops collapsed, one at a time, until none is
/// left: cutting a loop can expose a second one hidden behind it.
pub open spec fn collapsed(text: Seq<char>) -> Seq<char>
    decreases text.len(),
{
    let ws = words(text);
    match first_loop(keys_of(ws), 1) {
        None => text,
        Some((period, start, end)) => {
            proof {
                lemma_cut_loop_shrinks(text, period, start, end);
            }
            collapsed(cut_loop(ws, period, start, end))
        },
    }
}

/// The total length of some words.
pub open spec fn total(ws: Seq<Seq<char>>) -> nat
    decreases ws.len(),
{
    if ws.len() == 0 {
        0
    } else {
        total(ws.drop_last()) + ws.last().len()
    }
}

proof fn lemma_total_concat(a: Seq<Seq<char>>, b: Seq<Seq<char>>)
    ensures
        total(a + b) == total(a) + total(b),
    decreases b.len(),
{
    if b.len() > 0 {
        assert((a + b).drop_last() =~= a + b.drop_last());
        lemma_total_concat(a, b.drop_last());
    } else {
        assert(a + b =~= a);
    }
}

proof fn lemma_total_of_nonempty(ws: Seq<Seq<char>>)
    requires
        forall|i: int| 0 <= i < ws.len() ==> (#[trigger] ws[i]).len() > 0,
    ensures
        total(ws) >= ws.len(),
    decreases ws.len(),
{
    if ws.len() > 0 {
        lemma_total_of_nonempty(ws.drop_last());
    }
}

proof fn lemma_joined_len(ws: Seq<Seq<char>>)
    requires
        ws.len() > 0,
    ensures
        joined(ws).len() == total(ws) + ws.len() - 1,
    decreases ws.len(),
{
    if ws.len() > 1 {
        lemma_joined_len(ws.drop_last());
        assert(total(ws) == total(ws.drop_last()) + ws.last().len());
        assert(joined(ws) == joined(ws.drop_last()) + seq![' '] + ws.last());
    } else {
        assert(ws.drop_last().len() == 0);
        assert(total(ws) == total(ws.drop_last()) + ws.last().len());
        assert(joined(ws) == ws[0]);
    }
}

proof fn lemma_trim_separators_len(text: Seq<char>)
    ensures
        trim_separators(text).len() <= text.len(),
    decreases text.len(),
{
    if text.len() > 0 && is_separator(text.last()) {
        lemma_trim_separators_len(text.drop_last());
    }
}

proof fn lemma_words_fold_spread(text: Seq<char>)
    ensures
        forall|i: int| 0 <= i < words_fold(text).0.len() ==> (#[trigger] words_fold(text).0[i]).len() > 0,
        total(words_fold(text).0) + words_fold(text).0.len() + words_fold(text).1.len() <= text.len(),
        words_fold(text).1.len() > 0 ==> !crate::text::whitespace(text.last()),
    decreases text.len(),
{
    if text.len() > 0 {
        lemma_words_fold_spread(text.drop_last());
        let (done, current) = words_fold(text.drop_last());
        if crate::text::whitespace(text.last()) && current.len() > 0 {
            assert(done.push(current).drop_last() =~= done);
        }
    }
}

/// The words of a text are non-empty, and with one separator between each they fit in
/// the text.
proof fn lemma_words_spread(text: Seq<char>)
    ensures
        forall|i: int| 0 <= i < words(text).len() ==> (#[trigger] words(text)[i]).len() > 0,
        words(text).len() > 0 ==> total(words(text)) + words(text).len() - 1 <= text.len(),
{
    lemma_words_fold_spread(text);
    let (done, current) = words_fold(text);
    if current.len() > 0 {
        assert(done.push(current).drop_last() =~= done);
    }
}

proof fn lemma_run_end_bounds(keys: Seq<Seq<char>>, start: int, period: int, end: int)
    requires
        0 <= end <= keys.len(),
    ensures
        end <= run_end(keys, start, period, end) <= keys.len(),
    decreases keys.len() - end,
{
    if period > 0 && end + period <= keys.len() && keys.subrange(end, end + period)
        == keys.subrange(start, start + period) {
        lemma_run_end_bounds(keys, start, period, end + period);
    }
}

proof fn lemma_loop_from_bounds(keys: Seq<Seq<char>>, period: int, start: int)
    ensures
        loop_from(keys, period, start) matches Some((s, e)) ==> period > 0 && start <= s
            && s + period * 4 <= e <= keys.len(),
    decreases keys.len() - start,
{
    if !(period <= 0 || start < 0 || start + period * 4 > keys.len()) {
        lemma_run_end_bounds(keys, start, period, start + period);
        if run_end(keys, start, period, start + period) < start + period * 4 {
            lemma_loop_from_bounds(keys, period, start + 1);
        }
    }
}

proof fn lemma_first_loop_bounds(keys: Seq<Seq<char>>, period: int)
    ensures
        first_loop(keys, period) matches Some((p, s, e)) ==> 1 <= p <= 6 && 0 <= s && s + p * 4
            <= e <= keys.len(),
    decreases 7 - period,
{
    if 1 <= period <= 6 {
        lemma_loop_from_bounds(keys, period, 0);
        if loop_from(keys, period, 0) is None {
            lemma_first_loop_bounds(keys, period + 1);
        }
    }
}

/// Cutting a loop out of a transcript always leaves a shorter one: at least three
/// blocks of non-empty words go.
pub proof fn lemma_cut_loop_shrinks(text: Seq<char>, period: int, start: int, end: int)
    requires
        first_loop(keys_of(words(text)), 1) == Some((period, start, end)),
    ensures
        cut_loop(words(text), period, start, end).len() < text.len(),
{
    let ws = words(text);
    lemma_first_loop_bounds(keys_of(ws), 1);
    lemma_words_spread(text);
    let head = ws.subrange(0, start + period);
    let middle = ws.subrange(start + period, end);
    let tail = ws.subrange(end, ws.len() as int);
    assert(ws =~= head + middle + tail);
    lemma_total_concat(head + middle, tail);
    lemma_total_concat(head, middle);
    lemma_total_concat(head, tail);
    assert forall|i: int| 0 <= i < middle.len() implies (#[trigger] middle[i]).len() > 0 by {
        assert(middle[i] == ws[start + period + i]);
    }
    lemma_total_of_nonempty(middle);
    lemma_joined_len(head + tail);
    lemma_trim_separators_len(joined(head + tail));
}

fn key_of(word: &str) -> (key: String)
    ensures
        key@ == word_key(word@),
{
    let lowered = lowercase(word);
    let chars = chars_of(lowered.as_str());
    let trimmed = trim_to_alphanumeric(chars.as_slice());
    string_of(trimmed.as_slice())
}

fn blocks_equal(keys: &Vec<String>, a: usize, b: usize, period: usize) -> (same: bool)
    requires
        a + period <= keys@.len(),
        b + period <= keys@.len(),
    ensures
        same == (string_views(keys@).subrange(a as int, a + period) == string_views(keys@).subrange(
            b as int,
            b + period,
        )),
{
    let ghost views = string_views(keys@);
    let len = keys.len();
    let mut i: usize = 0;
    while i < period
        invariant
            i <= period,
            len == keys@.len(),
            a + period <= keys@.len(),
            b + period <= keys@.len(),
            views == string_views(keys@),
            views.subrange(a as int, a + i) == views.subrange(b as int, b + i),
        decreases period - i,
    {
        if !same_text(keys[a + i].as_str(), keys[b + i].as_str()) {
            assert(views.subrange(a as int, a + period)[i as int] != views.subrange(
                b as int,
                b + period,
            )[i as int]);
            return false;
        }
        assert(views.subrange(a as int, a + i + 1) =~= views.subrange(a as int, a + i).push(views[a + i]));
        assert(views.subrange(b as int, b + i + 1) =~= views.subrange(b as int, b + i).push(views[b + i]));
        i = i + 1;
    }
    true
}

fn trim_separators_of(text: &[char]) -> (trimmed: Vec<char>)
    ensures
        trimmed@ == trim_separators(text@),
{
    let mut end: usize = text.len();
    assert(text@.take(end as int) =~= text@);
    while end > 0 && (text[end - 1] == ',' || text[end - 1] == ';' || text[end - 1] == ':'
        || text[end - 1] == '-' || text[end - 1] == '\u{2014}')
        invariant
            end <= text@.len(),
            trim_separators(text@) == trim_separators(text@.take(end as int)),
        decreases end,
    {
        assert(text@.take(end as int).drop_last() =~= text@.take(end - 1));
        end = end - 1;
    }
    let mut out: Vec<char> = Vec::new();
    let mut i: usize = 0;
    while i < end
        invariant
            i <= end <= text@.len(),
            out@ == text@.take(i as int),
        decreases end - i,
    {
        out.push(text[i]);
        i = i + 1;
        assert(out@ =~= text@.take(i as int));
    }
    out
}

/// Undo whisper's repetition loop.
///
/// The loop is collapsed rather than rejected, because the repeated block is what was
/// actually said: "б'є мечем" thirty times over becomes "б'є мечем". The run is looked
/// for at every offset rather than anchored to the end, because whisper stops mid-word
/// when it runs out of tokens: "... після після п".
pub fn collapse_repetition(text: &str) -> (result: String)
    ensures
        result@ == collapsed(text@),
    decreases text@.len(),
{
    let chars = chars_of(text);
    let words_list = split_whitespace(chars.as_slice());
    let ghost ws = words(text@);
    let n = words_list.len();
    let mut keys: Vec<String> = Vec::new();
    let mut i: usize = 0;
    while i < n
        invariant
            i <= n == words_list@.len(),
            string_views(words_list@) == ws,
            keys@.len() == i,
            forall|k: int| 0 <= k < i ==> #[trigger] keys@[k]@ == word_key(ws[k]),
        decreases n - i,
    {
        keys.push(key_of(words_list[i].as_str()));
        i = i + 1;
    }
    let ghost kv = string_views(keys@);
    assert(kv =~= keys_of(ws));
    let mut period: usize = 1;
    while period <= REPETITION_MAX_PERIOD
        invariant
            1 <= period <= 7,
            n == words_list@.len(),
            string_views(words_list@) == ws,
            ws == words(text@),
            kv == string_views(keys@),
            kv == keys_of(ws),
            kv.len() == n,
            first_loop(kv, 1) == first_loop(kv, period as int),
        decreases 7 - period,
    {
        if n >= period * REPETITION_LIMIT {
            let last = n - period * REPETITION_LIMIT;
            let mut start: usize = 0;
            while start <= last
                invariant
                    1 <= period <= 6,
                    last + period * 4 == n,
                    start <= last + 1,
                    n == words_list@.len(),
                    string_views(words_list@) == ws,
                    ws == words(text@),
                    kv == string_views(keys@),
                    kv == keys_of(ws),
                    kv.len() == n,
                    first_loop(kv, 1) == first_loop(kv, period as int),
                    loop_from(kv, period as int, 0) == loop_from(kv, period as int, start as int),
                decreases last + 1 - start,
            {
                let mut end = start + period;
                while period <= n - end && blocks_equal(&keys, end, start, period)
                    invariant
                        start + period <= end <= n,
                        kv == string_views(keys@),
                        kv.len() == n,
                        1 <= period,
                        run_end(kv, start as int, period as int, start + period) == run_end(
                            kv,
                            start as int,
                            period as int,
                            end as int,
                        ),
                    decreases n - end,
                {
                    end = end + period;
                }
                if end >= start + period * REPETITION_LIMIT {
                    let ghost p = period as int;
                    let ghost s = start as int;
                    let ghost e = end as int;
                    assert(loop_from(kv, p, s) == Some((s, e)));
                    assert(first_loop(kv, p) == Some((p, s, e)));
                    let mut kept: Vec<String> = Vec::new();
                    let mut k: usize = 0;
                    while k < start + period
                        invariant
                            k <= start + period <= end <= n,
                            n == words_list@.len(),
                            string_views(kept@) == string_views(words_list@).subrange(0, k as int),
                        decreases start + period - k,
                    {
                        let ghost before = string_views(kept@);
                        kept.push(words_list[k].as_str().to_string());
                        assert(string_views(kept@) =~= before.push(words_list@[k as int]@));
                        k = k + 1;
                        assert(string_views(kept@) =~= string_views(words_list@).subrange(0, k as int));
                    }
                    let mut k: usize = end;
                    while k < n
                        invariant
                            start + period <= end <= k <= n,
                            n == words_list@.len(),
                            string_views(kept@) == string_views(words_list@).subrange(
                                0,
                                start + period,
                            ) + string_views(words_list@).subrange(end as int, k as int),
                        decreases n - k,
                    {
                        let ghost before = string_views(kept@);
                        kept.push(words_list[k].as_str().to_string());
                        assert(string_views(kept@) =~= before.push(words_list@[k as int]@));
                        k = k + 1;
                        assert(string_views(kept@) =~= string_views(words_list@).subrange(
                            0,
                            start + period,
                        ) + string_views(words_list@).subrange(end as int, k as int));
                    }
                    let joined_text = join_words(kept.as_slice());
                    let joined_chars = chars_of(joined_text.as_str());
                    let trimmed = trim_separators_of(joined_chars.as_slice());
                    let next = string_of(trimmed.as_slice());
                    proof {
                        assert(next@ == cut_loop(ws, p, s, e));
                        lemma_cut_loop_shrinks(text@, p, s, e);
                    }
                    return collapse_repetition(next.as_str());
                }
                start = start + 1;
            }
        }
        period = period + 1;
    }
    text.to_string()
}

/// Four copies in a row of the block of `period` keys that starts at `start`.
pub open spec fn four_copies(keys: Seq<Seq<char>>, period: int, start: int) -> bool {
    let block = keys.subrange(start, start + period);
    &&& 0 <= start
    &&& start + period * 4 <= keys.len()
    &&& keys.subrange(start + period, start + period * 2) == block
    &&& keys.subrange(start + period * 2, start + period * 3) == block
    &&& keys.subrange(start + period * 3, start + period * 4) == block
}

/// No block of one to six keys comes four times in a row anywhere.
pub open spec fn loop_free(keys: Seq<Seq<char>>) -> bool {
    forall|period: int, start: int|
        1 <= period <= 6 ==> !#[trigger] four_copies(keys, period, start)
}

proof fn lemma_four_copies_run(keys: Seq<Seq<char>>, period: int, start: int)
    requires
        period >= 1,
    ensures
        four_copies(keys, period, start) <==> (0 <= start && start + period * 4 <= keys.len()
            && run_end(keys, start, period, start + period) >= start + period * 4),
{
    if 0 <= start && start + period * 4 <= keys.len() {
        let b = keys.subrange(start, start + period);
        let e1 = start + period;
        let e2 = start + period * 2;
        let e3 = start + period * 3;
        let e4 = start + period * 4;
        lemma_run_end_bounds(keys, start, period, e4);
        if keys.subrange(e1, e2) == b {
            assert(run_end(keys, start, period, e1) == run_end(keys, start, period, e2));
            if keys.subrange(e2, e3) == b {
                assert(run_end(keys, start, period, e2) == run_end(keys, start, period, e3));
                if keys.subrange(e3, e4) == b {
                    assert(run_end(keys, start, period, e3) == run_end(keys, start, period, e4));
                } else {
                    assert(run_end(keys, start, period, e3) == e3);
                }
            } else {
                assert(run_end(keys, start, period, e2) == e2);
            }
        } else {
            assert(run_end(keys, start, period, e1) == e1);
        }
    }
}

proof fn lemma_loop_from_none(keys: Seq<Seq<char>>, period: int, from: int, start: int)
    requires
        period >= 1,
        0 <= from <= start,
    ensures
        loop_from(keys, period, from) is None ==> !four_copies(keys, period, start),
        four_copies(keys, period, start) ==> loop_from(keys, period, from) is Some,
    decreases keys.len() - from,
{
    lemma_four_copies_run(keys, period, start);
    if from + period * 4 <= keys.len() && from < start {
        if run_end(keys, from, period, from + period) < from + period * 4 {
            lemma_loop_from_none(keys, period, from + 1, start);
        }
    }
}

proof fn lemma_first_loop_none(keys: Seq<Seq<char>>, from: int, period: int, start: int)
    requires
        1 <= from <= period <= 6,
    ensures
        first_loop(keys, from) is None ==> !four_copies(keys, period, start),
        four_copies(keys, period, start) ==> first_loop(keys, from) is Some,
    decreases 7 - from,
{
    if start >= 0 {
        lemma_loop_from_none(keys, period, 0, start);
    }
    if start >= 0 && from < period && loop_from(keys, from, 0) is None {
        lemma_first_loop_none(keys, from + 1, period, start);
    }
}

/// A transcript has a decoding loop exactly when some block of one to six word keys
/// comes four times in a row.
pub proof fn lemma_loop_found_exactly(keys: Seq<Seq<char>>)
    ensures
        first_loop(keys, 1) is None <==> loop_free(keys),
{
    assert forall|period: int, start: int| 1 <= period <= 6 && first_loop(keys, 1) is None
        implies !#[trigger] four_copies(keys, period, start) by {
        lemma_first_loop_none(keys, 1, period, start);
    }
    if first_loop(keys, 1) is Some {
        lemma_first_loop_bounds(keys, 1);
        let (p, s, e) = first_loop(keys, 1)->0;
        lemma_first_loop_witness(keys, 1);
        assert(four_copies(keys, p, s));
    }
}

proof fn lemma_first_loop_witness(keys: Seq<Seq<char>>, period: int)
    ensures
        first_loop(keys, period) matches Some((p, s, e)) ==> four_copies(keys, p, s),
    decreases 7 - period,
{
    if 1 <= period <= 6 {
        lemma_loop_from_witness(keys, period, 0);
        if loop_from(keys, period, 0) is None {
            lemma_first_loop_witness(keys, period + 1);
        }
    }
}

proof fn lemma_loop_from_witness(keys: Seq<Seq<char>>, period: int, from: int)
    ensures
        loop_from(keys, period, from) matches Some((s, e)) ==> four_copies(keys, period, s),
    decreases keys.len() - from,
{
    if !(period <= 0 || from < 0 || from + period * 4 > keys.len()) {
        lemma_four_copies_run(keys, period, from);
        if run_end(keys, from, period, from + period) < from + period * 4 {
            lemma_loop_from_witness(keys, period, from + 1);
        }
    }
}

/// What `collapse_repetition` returns has no decoding loop left in it, a transcript
/// without one comes back unchanged, and so collapsing twice is collapsing once.
pub proof fn lemma_collapsed_is_loop_free(text: Seq<char>)
    ensures
        loop_free(keys_of(words(collapsed(text)))),
        loop_free(keys_of(words(text))) ==> collapsed(text) == text,
        collapsed(collapsed(text)) == collapsed(text),
    decreases text.len(),
{
    let ws = words(text);
    lemma_loop_found_exactly(keys_of(ws));
    match first_loop(keys_of(ws), 1) {
        None => {},
        Some((period, start, end)) => {
            lemma_cut_loop_shrinks(text, period, start, end);
            lemma_collapsed_is_loop_free(cut_loop(ws, period, start, end));
        },
    }
    let r = collapsed(text);
    lemma_loop_found_exactly(keys_of(words(r)));
}

} // verus!
