//! What the layered detector hands on: scored candidates with their reasons.
//!
//! The scoring layers themselves are floating-point work; the candidates they produce,
//! and the text-level decisions that shape them (which marker frames an utterance as
//! memory, which word is the action done to the object), are defined here.

use std::ops::Range;

use vstd::prelude::*;

use crate::detect::event::{EventDefinition, Phrase, Term, TermKind};
use crate::detect::normalize::{
    contains_word_run, first_usable, normalize_text, normalized_text, owned_range, string_views,
    words, Normalized,
};
use crate::detect::score::{float_lt, total_key, Score};
use crate::order::{
    lemma_text_total, lemma_text_transitive, rank, ranked, text_at_or_before, text_le, Ranked,
};
use crate::detect::stem::{stem_phrase, stems_of};
use crate::text::{
    chars_equal, chars_of, join_words, joined, push_text, same_text, starts_with, string_of,
};

verus! {

/// Which layer of the detector produced a match, strongest first.
#[derive(Debug, Clone, Copy, PartialEq, Eq, Structural)]
pub enum MatchLayer {
    Command,
    ExactPhrase,
    StemPhrase,
    Fuzzy,
    Semantic,
    Keyword,
}

/// Why a candidate was not accepted.
pub enum RejectionReason {
    BelowThreshold { score: Score, threshold: Score },
    NegativePhrase(String),
    NoActionWord,
    FramedAsMemoryOrHypothesis(String),
    Disabled,
}

impl RejectionReason {
    /// The debug panel's sentence for this reason, for every reason whose sentence
    /// holds no number. A confidence below the threshold is told with both numbers
    /// rounded to two places, which is floating-point formatting left to the caller.
    pub fn explain(&self) -> (text: Option<String>)
        ensures
            match self {
                RejectionReason::BelowThreshold { .. } => text is None,
                RejectionReason::NegativePhrase(phrase) => text matches Some(t) && t@
                    == "the narration contains the negative phrase '"@ + phrase@ + "'"@,
                RejectionReason::NoActionWord => text matches Some(t) && t@
                    == "the object was mentioned but nothing was done with it"@,
                RejectionReason::FramedAsMemoryOrHypothesis(marker) => text matches Some(t) && t@
                    == seq!['\''] + marker@ + "' frames this as memory or hypothesis, not action"@,
                RejectionReason::Disabled => text matches Some(t) && t@ == "the event is disabled"@,
            },
    {
        match self {
            RejectionReason::BelowThreshold { .. } => None,
            RejectionReason::NegativePhrase(phrase) => {
                let mut out: Vec<char> = Vec::new();
                push_text(&mut out, "the narration contains the negative phrase '");
                push_text(&mut out, phrase.as_str());
                push_text(&mut out, "'");
                Some(string_of(out.as_slice()))
            },
            RejectionReason::NoActionWord => Some(
                "the object was mentioned but nothing was done with it".to_string(),
            ),
            RejectionReason::FramedAsMemoryOrHypothesis(marker) => {
                let mut out: Vec<char> = vec!['\''];
                push_text(&mut out, marker.as_str());
                push_text(&mut out, "' frames this as memory or hypothesis, not action");
                Some(string_of(out.as_slice()))
            },
            RejectionReason::Disabled => Some("the event is disabled".to_string()),
        }
    }
}

/// One event the detector considered, with the reason for its score.
pub struct Candidate {
    pub event_id: String,
    pub confidence: Score,
    pub threshold: Score,
    pub layer: MatchLayer,
    /// The text that produced the match, used for duplicate suppression.
    pub matched_span: String,
    pub accepted: bool,
    pub rejection: Option<RejectionReason>,
    /// Whether an action word was found.
    pub action_word: Option<String>,
}

/// A transcript to run detection on.
pub struct DetectionInput<'a> {
    pub transcript: &'a str,
    /// False while the speaker is still talking, true for the settled transcript.
    pub is_final: bool,
    pub timestamp_ms: i64,
}

impl<'a> DetectionInput<'a> {
    pub fn final_transcript(transcript: &'a str, timestamp_ms: i64) -> (input: Self)
        ensures
            input.transcript == transcript,
            input.is_final,
            input.timestamp_ms == timestamp_ms,
    {
        DetectionInput { transcript, is_final: true, timestamp_ms }
    }

    pub fn partial(transcript: &'a str, timestamp_ms: i64) -> (input: Self)
        ensures
            input.transcript == transcript,
            !input.is_final,
            input.timestamp_ms == timestamp_ms,
    {
        DetectionInput { transcript, is_final: false, timestamp_ms }
    }
}

/// The result of running detection on one transcript.
pub struct Detection {
    pub transcript: String,
    pub normalized: String,
    pub is_final: bool,
    pub timestamp_ms: i64,
    /// Every candidate considered, accepted first, then by descending confidence.
    pub candidates: Vec<Candidate>,
    /// How long detection took, in microseconds.
    pub elapsed_us: u64,
}

/// The accepted candidates of a list, in order.
pub open spec fn accepted_of(candidates: Seq<Candidate>) -> Seq<Candidate>
    decreases candidates.len(),
{
    if candidates.len() == 0 {
        Seq::empty()
    } else if candidates.last().accepted {
        accepted_of(candidates.drop_last()).push(candidates.last())
    } else {
        accepted_of(candidates.drop_last())
    }
}

impl RejectionReason {
    pub fn duplicate(&self) -> (copy: RejectionReason)
        ensures
            copy == *self,
    {
        match self {
            RejectionReason::BelowThreshold { score, threshold } => RejectionReason::BelowThreshold {
                score: *score,
                threshold: *threshold,
            },
            RejectionReason::NegativePhrase(phrase) => RejectionReason::NegativePhrase(
                phrase.clone(),
            ),
            RejectionReason::NoActionWord => RejectionReason::NoActionWord,
            RejectionReason::FramedAsMemoryOrHypothesis(marker) => {
                RejectionReason::FramedAsMemoryOrHypothesis(marker.clone())
            },
            RejectionReason::Disabled => RejectionReason::Disabled,
        }
    }
}

impl Candidate {
    pub fn duplicate(&self) -> (copy: Candidate)
        ensures
            copy == *self,
    {
        let rejection = match &self.rejection {
            Some(reason) => Some(reason.duplicate()),
            None => None,
        };
        let action_word = match &self.action_word {
            Some(word) => Some(word.clone()),
            None => None,
        };
        Candidate {
            event_id: self.event_id.clone(),
            confidence: self.confidence,
            threshold: self.threshold,
            layer: self.layer,
            matched_span: self.matched_span.clone(),
            accepted: self.accepted,
            rejection,
            action_word,
        }
    }
}

impl Detection {
    /// The accepted candidates, in the order the detection lists them.
    pub fn accepted(&self) -> (accepted: Vec<Candidate>)
        ensures
            accepted@ == accepted_of(self.candidates@),
    {
        let mut accepted: Vec<Candidate> = Vec::new();
        let mut i: usize = 0;
        while i < self.candidates.len()
            invariant
                i <= self.candidates@.len(),
                accepted@ == accepted_of(self.candidates@.take(i as int)),
            decreases self.candidates@.len() - i,
        {
            proof {
                assert(self.candidates@.take(i + 1).drop_last() =~= self.candidates@.take(
                    i as int,
                ));
            }
            if self.candidates[i].accepted {
                accepted.push(self.candidates[i].duplicate());
            }
            i = i + 1;
        }
        assert(self.candidates@.take(self.candidates@.len() as int) =~= self.candidates@);
        accepted
    }

    /// The strongest accepted candidate, if any was accepted.
    pub fn best(&self) -> (best: Option<&Candidate>)
        ensures
            accepted_of(self.candidates@).len() == 0 ==> best is None,
            accepted_of(self.candidates@).len() > 0 ==> best == Some(
                &accepted_of(self.candidates@)[0],
            ),
    {
        let mut i: usize = 0;
        while i < self.candidates.len()
            invariant
                i <= self.candidates@.len(),
                accepted_of(self.candidates@.take(i as int)).len() == 0,
            decreases self.candidates@.len() - i,
        {
            proof {
                assert(self.candidates@.take(i + 1).drop_last() =~= self.candidates@.take(
                    i as int,
                ));
            }
            if self.candidates[i].accepted {
                proof {
                    lemma_filter_prefix_empty(self.candidates@, i as int);
                }
                return Some(&self.candidates[i]);
            }
            i = i + 1;
        }
        assert(self.candidates@.take(self.candidates@.len() as int) =~= self.candidates@);
        None
    }
}

/// When nothing before `i` is accepted and `i` is, the accepted list starts at `i`.
proof fn lemma_filter_prefix_empty(candidates: Seq<Candidate>, i: int)
    requires
        0 <= i < candidates.len(),
        accepted_of(candidates.take(i)).len() == 0,
        candidates[i].accepted,
    ensures
        accepted_of(candidates).len() > 0,
        accepted_of(candidates)[0] == candidates[i],
    decreases candidates.len(),
{
    if i == candidates.len() - 1 {
        assert(candidates.drop_last() =~= candidates.take(i));
    } else {
        assert(candidates.drop_last().take(i) =~= candidates.take(i));
        lemma_filter_prefix_empty(candidates.drop_last(), i);
    }
}

/// Words that frame narration as memory, hypothesis or question rather than something
/// happening now. "You remember the sound of wolves" should not summon wolves.
pub open spec fn irrealis_markers() -> Seq<Seq<char>> {
    seq![
        "remember"@, "remembered"@, "imagine"@, "imagined"@, "if"@, "would"@,
        "could"@, "might"@, "used to"@, "dream"@, "dreamed"@, "story"@,
        "legend"@, "rumour"@, "rumor"@, "heard about"@, "picture of"@, "painting of"@,
        "drawing of"@, "statue of"@, "пам'ята"@, "пригада"@, "уяв"@, "якби"@,
        "якщо"@, "мабуть"@, "легенда"@, "історія"@, "розповіда"@, "малюнок"@,
        "картина"@, "статуя"@, "згада"@,
    ]
}

fn irrealis_marker_list() -> (list: Vec<&'static str>)
    ensures
        crate::detect::stem::str_views(list@) == irrealis_markers(),
{
    let list = vec![
        "remember", "remembered", "imagine", "imagined", "if", "would",
        "could", "might", "used to", "dream", "dreamed", "story",
        "legend", "rumour", "rumor", "heard about", "picture of", "painting of",
        "drawing of", "statue of", "пам'ята", "пригада", "уяв", "якби",
        "якщо", "мабуть", "легенда", "історія", "розповіда", "малюнок",
        "картина", "статуя", "згада",
    ];
    assert(crate::detect::stem::str_views(list@) =~= irrealis_markers());
    list
}

/// Whether a marker frames this utterance: a multi-word marker must appear as a phrase;
/// a single-word marker is matched as a word prefix, so Ukrainian stems like "пам'ята"
/// catch their inflections.
pub open spec fn marker_applies(text: Seq<char>, tokens: Seq<Seq<char>>, marker: Seq<char>) -> bool {
    if marker.contains(' ') {
        contains_word_run(text, marker)
    } else {
        exists|i: int| 0 <= i < tokens.len() && starts_with(#[trigger] tokens[i], marker)
    }
}

/// The first marker of the list that applies.
pub open spec fn first_marker(text: Seq<char>, tokens: Seq<Seq<char>>, markers: Seq<Seq<char>>) -> Option<
    Seq<char>,
>
    decreases markers.len(),
{
    if markers.len() == 0 {
        None
    } else if marker_applies(text, tokens, markers[0]) {
        Some(markers[0])
    } else {
        first_marker(text, tokens, markers.drop_first())
    }
}

fn has_space(text: &[char]) -> (found: bool)
    ensures
        found == text@.contains(' '),
{
    let mut i: usize = 0;
    while i < text.len()
        invariant
            i <= text@.len(),
            forall|k: int| 0 <= k < i ==> text@[k] != ' ',
        decreases text@.len() - i,
    {
        if text[i] == ' ' {
            assert(text@[i as int] == ' ');
            return true;
        }
        i = i + 1;
    }
    false
}

fn has_prefix(text: &[char], prefix: &[char]) -> (found: bool)
    ensures
        found == starts_with(text@, prefix@),
{
    if prefix.len() > text.len() {
        return false;
    }
    let mut i: usize = 0;
    while i < prefix.len()
        invariant
            prefix@.len() <= text@.len(),
            i <= prefix@.len(),
            forall|k: int| 0 <= k < i ==> text@[k] == prefix@[k],
        decreases prefix@.len() - i,
    {
        if text[i] != prefix[i] {
            assert(text@.subrange(0, prefix@.len() as int)[i as int] != prefix@[i as int]);
            return false;
        }
        i = i + 1;
    }
    assert(text@.subrange(0, prefix@.len() as int) =~= prefix@);
    true
}

proof fn lemma_first_marker_found(text: Seq<char>, tokens: Seq<Seq<char>>, markers: Seq<Seq<char>>)
    ensures
        first_marker(text, tokens, markers) is Some <==> exists|i: int|
            0 <= i < markers.len() && marker_applies(text, tokens, #[trigger] markers[i]),
        first_marker(text, tokens, markers) matches Some(m) ==> markers.contains(m)
            && marker_applies(text, tokens, m),
    decreases markers.len(),
{
    if markers.len() > 0 {
        lemma_first_marker_found(text, tokens, markers.drop_first());
        if exists|i: int| 0 <= i < markers.len() && marker_applies(text, tokens, #[trigger] markers[i]) {
            let i = choose|i: int| 0 <= i < markers.len() && marker_applies(text, tokens, #[trigger] markers[i]);
            if i > 0 {
                assert(markers.drop_first()[i - 1] == markers[i]);
            }
        }
        if let Some(m) = first_marker(text, tokens, markers.drop_first()) {
            let j = choose|j: int| 0 <= j < markers.drop_first().len() && markers.drop_first()[j] == m;
            assert(markers[j + 1] == m);
        }
    }
}

/// The words that frame narration as memory, hypothesis or story, one by one: an
/// utterance is framed exactly when one of them applies to it (a multi-word marker as a
/// phrase, a single word as the start of a word), and what is reported is always one of
/// them that applies. "Imagine the dragon roars" is framed by "imagine".
pub proof fn lemma_irrealis_markers_are_exactly_these(text: Seq<char>, tokens: Seq<Seq<char>>)
    ensures
        first_marker(text, tokens, irrealis_markers()) is Some <==> {
            ||| marker_applies(text, tokens, "remember"@)
            ||| marker_applies(text, tokens, "remembered"@)
            ||| marker_applies(text, tokens, "imagine"@)
            ||| marker_applies(text, tokens, "imagined"@)
            ||| marker_applies(text, tokens, "if"@)
            ||| marker_applies(text, tokens, "would"@)
            ||| marker_applies(text, tokens, "could"@)
            ||| marker_applies(text, tokens, "might"@)
            ||| marker_applies(text, tokens, "used to"@)
            ||| marker_applies(text, tokens, "dream"@)
            ||| marker_applies(text, tokens, "dreamed"@)
            ||| marker_applies(text, tokens, "story"@)
            ||| marker_applies(text, tokens, "legend"@)
            ||| marker_applies(text, tokens, "rumour"@)
            ||| marker_applies(text, tokens, "rumor"@)
            ||| marker_applies(text, tokens, "heard about"@)
            ||| marker_applies(text, tokens, "picture of"@)
            ||| marker_applies(text, tokens, "painting of"@)
            ||| marker_applies(text, tokens, "drawing of"@)
            ||| marker_applies(text, tokens, "statue of"@)
            ||| marker_applies(text, tokens, "пам'ята"@)
            ||| marker_applies(text, tokens, "пригада"@)
            ||| marker_applies(text, tokens, "уяв"@)
            ||| marker_applies(text, tokens, "якби"@)
            ||| marker_applies(text, tokens, "якщо"@)
            ||| marker_applies(text, tokens, "мабуть"@)
            ||| marker_applies(text, tokens, "легенда"@)
            ||| marker_applies(text, tokens, "історія"@)
            ||| marker_applies(text, tokens, "розповіда"@)
            ||| marker_applies(text, tokens, "малюнок"@)
            ||| marker_applies(text, tokens, "картина"@)
            ||| marker_applies(text, tokens, "статуя"@)
            ||| marker_applies(text, tokens, "згада"@)
        },
        first_marker(text, tokens, irrealis_markers()) matches Some(m) ==> marker_applies(
            text,
            tokens,
            m,
        ) && {
            ||| m == "remember"@
            ||| m == "remembered"@
            ||| m == "imagine"@
            ||| m == "imagined"@
            ||| m == "if"@
            ||| m == "would"@
            ||| m == "could"@
            ||| m == "might"@
            ||| m == "used to"@
            ||| m == "dream"@
            ||| m == "dreamed"@
            ||| m == "story"@
            ||| m == "legend"@
            ||| m == "rumour"@
            ||| m == "rumor"@
            ||| m == "heard about"@
            ||| m == "picture of"@
            ||| m == "painting of"@
            ||| m == "drawing of"@
            ||| m == "statue of"@
            ||| m == "пам'ята"@
            ||| m == "пригада"@
            ||| m == "уяв"@
            ||| m == "якби"@
            ||| m == "якщо"@
            ||| m == "мабуть"@
            ||| m == "легенда"@
            ||| m == "історія"@
            ||| m == "розповіда"@
            ||| m == "малюнок"@
            ||| m == "картина"@
            ||| m == "статуя"@
            ||| m == "згада"@
        },
{
    let all = irrealis_markers();
    lemma_first_marker_found(text, tokens, all);
    assert(all[0] == "remember"@);
    assert(all[1] == "remembered"@);
    assert(all[2] == "imagine"@);
    assert(all[3] == "imagined"@);
    assert(all[4] == "if"@);
    assert(all[5] == "would"@);
    assert(all[6] == "could"@);
    assert(all[7] == "might"@);
    assert(all[8] == "used to"@);
    assert(all[9] == "dream"@);
    assert(all[10] == "dreamed"@);
    assert(all[11] == "story"@);
    assert(all[12] == "legend"@);
    assert(all[13] == "rumour"@);
    assert(all[14] == "rumor"@);
    assert(all[15] == "heard about"@);
    assert(all[16] == "picture of"@);
    assert(all[17] == "painting of"@);
    assert(all[18] == "drawing of"@);
    assert(all[19] == "statue of"@);
    assert(all[20] == "пам'ята"@);
    assert(all[21] == "пригада"@);
    assert(all[22] == "уяв"@);
    assert(all[23] == "якби"@);
    assert(all[24] == "якщо"@);
    assert(all[25] == "мабуть"@);
    assert(all[26] == "легенда"@);
    assert(all[27] == "історія"@);
    assert(all[28] == "розповіда"@);
    assert(all[29] == "малюнок"@);
    assert(all[30] == "картина"@);
    assert(all[31] == "статуя"@);
    assert(all[32] == "згада"@);
    assert(all.len() == 33);
    if exists|i: int| 0 <= i < all.len() && marker_applies(text, tokens, #[trigger] all[i]) {
        let i = choose|i: int| 0 <= i < all.len() && marker_applies(text, tokens, #[trigger] all[i]);
        assert(0 <= i < 33);
    }
    if let Some(m) = first_marker(text, tokens, all) {
        let j = choose|j: int| 0 <= j < all.len() && all[j] == m;
        assert(0 <= j < 33);
    }
}

/// Find the first marker that frames the utterance as something other than present
/// action.
pub fn irrealis_marker(normalized: &Normalized) -> (marker: Option<String>)
    ensures
        match marker {
            Some(m) => first_marker(
                normalized.text@,
                string_views(normalized.tokens@),
                irrealis_markers(),
            ) == Some(m@),
            None => first_marker(
                normalized.text@,
                string_views(normalized.tokens@),
                irrealis_markers(),
            ) is None,
        },
{
    let list = irrealis_marker_list();
    let ghost all = irrealis_markers();
    let ghost tokens = string_views(normalized.tokens@);
    let mut k: usize = 0;
    assert(all.subrange(0, all.len() as int) =~= all);
    while k < list.len()
        invariant
            k <= list@.len(),
            all == crate::detect::stem::str_views(list@),
            all == irrealis_markers(),
            tokens == string_views(normalized.tokens@),
            first_marker(normalized.text@, tokens, all) == first_marker(
                normalized.text@,
                tokens,
                all.subrange(k as int, all.len() as int),
            ),
        decreases list@.len() - k,
    {
        let marker = chars_of(list[k]);
        proof {
            assert(all.subrange(k as int, all.len() as int).drop_first() =~= all.subrange(
                k + 1,
                all.len() as int,
            ));
            assert(all.subrange(k as int, all.len() as int)[0] == marker@);
        }
        let applies = if has_space(marker.as_slice()) {
            normalized.contains_phrase(list[k])
        } else {
            let mut found = false;
            let mut i: usize = 0;
            while i < normalized.tokens.len()
                invariant
                    i <= normalized.tokens@.len(),
                    tokens == string_views(normalized.tokens@),
                    found == exists|j: int| 0 <= j < i && starts_with(#[trigger] tokens[j], marker@),
                decreases normalized.tokens@.len() - i,
            {
                let token = chars_of(normalized.tokens[i].as_str());
                if has_prefix(token.as_slice(), marker.as_slice()) {
                    assert(starts_with(tokens[i as int], marker@));
                    found = true;
                }
                i = i + 1;
            }
            found
        };
        assert(applies == marker_applies(normalized.text@, tokens, marker@));
        if applies {
            assert(first_marker(normalized.text@, tokens, all.subrange(k as int, all.len() as int))
                == Some(marker@));
            return Some(string_of(marker.as_slice()));
        }
        k = k + 1;
    }
    None
}

/// An event, with its phrases and terms prepared once so they are not re-normalized
/// for every transcript.
pub struct Prepared {
    pub definition: EventDefinition,
    pub exact_phrases: Vec<String>,
    pub command_phrases: Vec<String>,
    pub phrase_stems: Vec<Vec<String>>,
    pub keywords: Vec<Vec<String>>,
    pub actions: Vec<Vec<String>>,
    pub keyword_texts: Vec<String>,
    pub action_texts: Vec<String>,
    pub negatives: Vec<String>,
}

/// The normalized, non-empty texts of the phrases that are (or are not) commands.
pub open spec fn phrase_texts(phrases: Seq<Phrase>, command: bool) -> Seq<Seq<char>>
    decreases phrases.len(),
{
    if phrases.len() == 0 {
        Seq::empty()
    } else {
        let rest = phrase_texts(phrases.drop_last(), command);
        let p = phrases.last();
        if p.is_command == command && normalized_text(p.text@).len() > 0 {
            rest.push(normalized_text(p.text@))
        } else {
            rest
        }
    }
}

/// The non-empty stem sequences of the terms of one kind.
pub open spec fn term_stems(terms: Seq<Term>, kind: TermKind) -> Seq<Seq<Seq<char>>>
    decreases terms.len(),
{
    if terms.len() == 0 {
        Seq::empty()
    } else {
        let rest = term_stems(terms.drop_last(), kind);
        let t = terms.last();
        let stems = stems_of(words(normalized_text(t.text@)));
        if t.kind == kind && stems.len() > 0 {
            rest.push(stems)
        } else {
            rest
        }
    }
}

/// The normalized texts of the terms of one kind that have stems, in the order of
/// `term_stems`: entry `i` of each names the same listed term.
pub open spec fn term_texts(terms: Seq<Term>, kind: TermKind) -> Seq<Seq<char>>
    decreases terms.len(),
{
    if terms.len() == 0 {
        Seq::empty()
    } else {
        let rest = term_texts(terms.drop_last(), kind);
        let t = terms.last();
        if t.kind == kind && stems_of(words(normalized_text(t.text@))).len() > 0 {
            rest.push(normalized_text(t.text@))
        } else {
            rest
        }
    }
}

/// The normalized, non-empty texts of the negative terms.
pub open spec fn negative_texts(terms: Seq<Term>) -> Seq<Seq<char>>
    decreases terms.len(),
{
    if terms.len() == 0 {
        Seq::empty()
    } else {
        let rest = negative_texts(terms.drop_last());
        let t = terms.last();
        if t.kind == TermKind::Negative && normalized_text(t.text@).len() > 0 {
            rest.push(normalized_text(t.text@))
        } else {
            rest
        }
    }
}

pub open spec fn nested_views(lists: Seq<Vec<String>>) -> Seq<Seq<Seq<char>>> {
    lists.map_values(|l: Vec<String>| string_views(l@))
}

impl Prepared {
    /// This is the preparation of `definition`.
    pub open spec fn prepares(&self, definition: EventDefinition) -> bool {
        &&& self.definition == definition
        &&& string_views(self.exact_phrases@) == phrase_texts(definition.phrases@, false)
        &&& string_views(self.command_phrases@) == phrase_texts(definition.phrases@, true)
        &&& nested_views(self.phrase_stems@) == phrase_texts(definition.phrases@, false).map_values(
            |p: Seq<char>| stems_of(words(p)),
        )
        &&& nested_views(self.keywords@) == term_stems(definition.terms@, TermKind::Keyword)
        &&& nested_views(self.actions@) == term_stems(definition.terms@, TermKind::Action)
        &&& string_views(self.keyword_texts@) == term_texts(definition.terms@, TermKind::Keyword)
        &&& string_views(self.action_texts@) == term_texts(definition.terms@, TermKind::Action)
        &&& string_views(self.negatives@) == negative_texts(definition.terms@)
    }
}

fn prepared_phrases(phrases: &Vec<Phrase>, command: bool) -> (texts: Vec<String>)
    ensures
        string_views(texts@) == phrase_texts(phrases@, command),
{
    let mut texts: Vec<String> = Vec::new();
    let mut i: usize = 0;
    while i < phrases.len()
        invariant
            i <= phrases@.len(),
            string_views(texts@) == phrase_texts(phrases@.take(i as int), command),
        decreases phrases@.len() - i,
    {
        proof {
            assert(phrases@.take(i + 1).drop_last() =~= phrases@.take(i as int));
        }
        if phrases[i].is_command == command {
            let text = normalize_text(phrases[i].text.as_str());
            if text.as_str().unicode_len() > 0 {
                let ghost before = string_views(texts@);
                texts.push(text);
                assert(string_views(texts@) =~= before.push(texts@.last()@));
            }
        }
        i = i + 1;
    }
    assert(phrases@.take(phrases@.len() as int) =~= phrases@);
    texts
}

fn prepared_terms(terms: &Vec<Term>, kind: TermKind) -> (prepared: (Vec<Vec<String>>, Vec<String>))
    ensures
        nested_views(prepared.0@) == term_stems(terms@, kind),
        string_views(prepared.1@) == term_texts(terms@, kind),
{
    let mut stems: Vec<Vec<String>> = Vec::new();
    let mut texts: Vec<String> = Vec::new();
    let mut i: usize = 0;
    while i < terms.len()
        invariant
            i <= terms@.len(),
            nested_views(stems@) == term_stems(terms@.take(i as int), kind),
            string_views(texts@) == term_texts(terms@.take(i as int), kind),
        decreases terms@.len() - i,
    {
        proof {
            assert(terms@.take(i + 1).drop_last() =~= terms@.take(i as int));
        }
        if terms[i].kind == kind {
            let text = normalize_text(terms[i].text.as_str());
            let term = stem_phrase(text.as_str());
            if term.len() > 0 {
                let ghost before = nested_views(stems@);
                let ghost before_texts = string_views(texts@);
                stems.push(term);
                texts.push(text);
                assert(nested_views(stems@) =~= before.push(string_views(stems@.last()@)));
                assert(string_views(texts@) =~= before_texts.push(texts@.last()@));
            }
        }
        i = i + 1;
    }
    assert(terms@.take(terms@.len() as int) =~= terms@);
    (stems, texts)
}

fn prepared_negatives(terms: &Vec<Term>) -> (texts: Vec<String>)
    ensures
        string_views(texts@) == negative_texts(terms@),
{
    let mut texts: Vec<String> = Vec::new();
    let mut i: usize = 0;
    while i < terms.len()
        invariant
            i <= terms@.len(),
            string_views(texts@) == negative_texts(terms@.take(i as int)),
        decreases terms@.len() - i,
    {
        proof {
            assert(terms@.take(i + 1).drop_last() =~= terms@.take(i as int));
        }
        if terms[i].kind == TermKind::Negative {
            let text = normalize_text(terms[i].text.as_str());
            if text.as_str().unicode_len() > 0 {
                let ghost before = string_views(texts@);
                texts.push(text);
                assert(string_views(texts@) =~= before.push(texts@.last()@));
            }
        }
        i = i + 1;
    }
    assert(terms@.take(terms@.len() as int) =~= terms@);
    texts
}

/// Normalize and stem everything an event says about itself.
pub fn prepare(definition: EventDefinition) -> (prepared: Prepared)
    ensures
        prepared.prepares(definition),
{
    let exact_phrases = prepared_phrases(&definition.phrases, false);
    let command_phrases = prepared_phrases(&definition.phrases, true);
    let mut phrase_stems: Vec<Vec<String>> = Vec::new();
    let ghost exact = string_views(exact_phrases@);
    let mut i: usize = 0;
    while i < exact_phrases.len()
        invariant
            i <= exact_phrases@.len(),
            exact == string_views(exact_phrases@),
            phrase_stems@.len() == i,
            forall|k: int|
                0 <= k < i ==> #[trigger] string_views(phrase_stems@[k]@) == stems_of(
                    words(exact[k]),
                ),
        decreases exact_phrases@.len() - i,
    {
        phrase_stems.push(stem_phrase(exact_phrases[i].as_str()));
        i = i + 1;
    }
    assert(nested_views(phrase_stems@) =~= exact.map_values(|p: Seq<char>| stems_of(words(p))));
    let (keywords, keyword_texts) = prepared_terms(&definition.terms, TermKind::Keyword);
    let (actions, action_texts) = prepared_terms(&definition.terms, TermKind::Action);
    let negatives = prepared_negatives(&definition.terms);
    Prepared {
        definition,
        exact_phrases,
        command_phrases,
        phrase_stems,
        keywords,
        actions,
        keyword_texts,
        action_texts,
        negatives,
    }
}


/// The first phrase, from `from` on, that the normalized text contains on word boundaries.
pub open spec fn first_phrase(text: Seq<char>, phrases: Seq<Seq<char>>, from: int) -> Option<int>
    decreases phrases.len() - from,
{
    if from < 0 || from >= phrases.len() {
        None
    } else if contains_word_run(text, phrases[from]) {
        Some(from)
    } else {
        first_phrase(text, phrases, from + 1)
    }
}

/// The phrase `first_phrase` finds lies in the range it searched.
proof fn lemma_first_phrase_in_range(text: Seq<char>, phrases: Seq<Seq<char>>, from: int)
    ensures
        first_phrase(text, phrases, from) matches Some(i) ==> from <= i < phrases.len(),
    decreases phrases.len() - from,
{
    if 0 <= from < phrases.len() && !contains_word_run(text, phrases[from]) {
        lemma_first_phrase_in_range(text, phrases, from + 1);
    }
}

/// The first stem sequence, from `from` on, that occurs in `hay` clear of `exclude`.
pub open spec fn first_found(
    hay: Seq<Seq<char>>,
    lists: Seq<Seq<Seq<char>>>,
    exclude: Option<Range<usize>>,
    from: int,
) -> Option<int>
    decreases lists.len() - from,
{
    if from < 0 || from >= lists.len() {
        None
    } else if first_usable(hay, lists[from], exclude) is Some {
        Some(from)
    } else {
        first_found(hay, lists, exclude, from + 1)
    }
}

/// The first item, from `from` on, equal to `target`.
pub open spec fn first_equal<A>(items: Seq<A>, target: A, from: int) -> Option<int>
    decreases items.len() - from,
{
    if from < 0 || from >= items.len() {
        None
    } else if items[from] == target {
        Some(from)
    } else {
        first_equal(items, target, from + 1)
    }
}

/// Which action, if any, is done to the object.
///
/// `keyword` is the matched keyword's text and where it sits. An action has to be
/// found by some word other than the keyword itself. Only when no such action exists
/// may an action be the keyword, and then only an action term whose text is the
/// keyword term's own: the event declares one word to be both the thing and the doing
/// of it. Two different terms whose stems merely coincide do not count.
pub open spec fn chosen_action(
    hay: Seq<Seq<char>>,
    actions: Seq<Seq<Seq<char>>>,
    action_texts: Seq<Seq<char>>,
    keyword: Option<(Seq<char>, Range<usize>)>,
) -> Option<int> {
    let span = match keyword {
        Some((_, r)) => Some(r),
        None => None,
    };
    match first_found(hay, actions, span, 0) {
        Some(i) => Some(i),
        None => match keyword {
            Some((text, _)) => first_equal(action_texts, text, 0),
            None => None,
        },
    }
}

/// The keyword text and span that `action_word` is handed, as plain values.
pub open spec fn keyword_view(keywords: Seq<String>, keyword: Option<(usize, &Range<usize>)>) -> Option<
    (Seq<char>, Range<usize>),
> {
    match keyword {
        Some((k, r)) => Some((keywords[k as int]@, *r)),
        None => None,
    }
}

/// The first of `phrases` that the normalized text contains.
pub fn first_contained_phrase(normalized: &Normalized, phrases: &Vec<String>) -> (found: Option<
    usize,
>)
    ensures
        found matches Some(i) ==> first_phrase(normalized.text@, string_views(phrases@), 0) == Some(
            i as int,
        ),
        found is None ==> first_phrase(normalized.text@, string_views(phrases@), 0) is None,
{
    let ghost views = string_views(phrases@);
    let mut i: usize = 0;
    while i < phrases.len()
        invariant
            i <= phrases@.len(),
            views == string_views(phrases@),
            first_phrase(normalized.text@, views, 0) == first_phrase(
                normalized.text@,
                views,
                i as int,
            ),
        decreases phrases@.len() - i,
    {
        if normalized.contains_phrase(phrases[i].as_str()) {
            return Some(i);
        }
        i = i + 1;
    }
    None
}

/// The first of `lists` whose stems occur in the normalized text clear of `exclude`.
pub fn first_contained_stems(
    normalized: &Normalized,
    lists: &Vec<Vec<String>>,
    exclude: Option<&Range<usize>>,
) -> (found: Option<usize>)
    ensures
        found matches Some(i) ==> first_found(
            string_views(normalized.stems@),
            nested_views(lists@),
            owned_range(exclude),
            0,
        ) == Some(i as int),
        found is None ==> first_found(
            string_views(normalized.stems@),
            nested_views(lists@),
            owned_range(exclude),
            0,
        ) is None,
{
    let ghost hay = string_views(normalized.stems@);
    let ghost views = nested_views(lists@);
    let mut i: usize = 0;
    while i < lists.len()
        invariant
            i <= lists@.len(),
            hay == string_views(normalized.stems@),
            views == nested_views(lists@),
            first_found(hay, views, owned_range(exclude), 0) == first_found(
                hay,
                views,
                owned_range(exclude),
                i as int,
            ),
        decreases lists@.len() - i,
    {
        assert(views[i as int] == string_views(lists@[i as int]@));
        if normalized.find_stems_outside(lists[i].as_slice(), exclude).is_some() {
            return Some(i);
        }
        i = i + 1;
    }
    None
}

impl Ranked for Candidate {
    /// Accepted candidates first, then the most confident, in `f32::total_cmp` order,
    /// then by event id.
    open spec fn ranks_before(self, other: Self) -> bool {
        (self.accepted && !other.accepted) || (self.accepted == other.accepted && (total_key(
            self.confidence.bits,
        ) > total_key(other.confidence.bits) || (total_key(self.confidence.bits) == total_key(
            other.confidence.bits,
        ) && text_le(self.event_id@, other.event_id@))))
    }

    proof fn lemma_total(a: Self, b: Self) {
        lemma_text_total(a.event_id@, b.event_id@);
    }

    proof fn lemma_transitive(a: Self, b: Self, c: Self) {
        if a.accepted == b.accepted && b.accepted == c.accepted && total_key(a.confidence.bits)
            == total_key(b.confidence.bits) && total_key(b.confidence.bits) == total_key(
            c.confidence.bits,
        ) {
            lemma_text_transitive(a.event_id@, b.event_id@, c.event_id@);
        }
    }

    fn comes_before(&self, other: &Self) -> (before: bool) {
        if self.accepted != other.accepted {
            self.accepted
        } else if self.confidence.total_after(other.confidence) {
            true
        } else if other.confidence.total_after(self.confidence) {
            false
        } else {
            text_at_or_before(self.event_id.as_str(), other.event_id.as_str())
        }
    }
}

/// Put a detection's candidates in the order they are reported in: accepted ones
/// first, then the most confident, then by event id.
pub fn rank_candidates(candidates: Vec<Candidate>) -> (ranked_candidates: Vec<Candidate>)
    ensures
        ranked_candidates@ == ranked(candidates@),
{
    rank(candidates)
}

/// The positions, among the first `upto` events, of those the semantic layer vouches
/// for (by id) that the index did not propose, in event order.
pub open spec fn vouched(
    events: Seq<Prepared>,
    similar: Seq<Seq<char>>,
    proposed: Seq<usize>,
    upto: int,
) -> Seq<usize>
    decreases upto,
{
    if upto <= 0 {
        Seq::empty()
    } else {
        let rest = vouched(events, similar, proposed, upto - 1);
        let p = upto - 1;
        if similar.contains(events[p].definition.id@) && !proposed.contains(p as usize) {
            rest.push(p as usize)
        } else {
            rest
        }
    }
}

fn lists_text(list: &[String], text: &str) -> (found: bool)
    ensures
        found == string_views(list@).contains(text@),
{
    let mut i: usize = 0;
    while i < list.len()
        invariant
            i <= list@.len(),
            forall|k: int| 0 <= k < i ==> string_views(list@)[k] != text@,
        decreases list@.len() - i,
    {
        if same_text(list[i].as_str(), text) {
            assert(string_views(list@)[i as int] == text@);
            return true;
        }
        i = i + 1;
    }
    false
}

fn lists_position(list: &Vec<usize>, position: usize) -> (found: bool)
    ensures
        found == list@.contains(position),
{
    let mut i: usize = 0;
    while i < list.len()
        invariant
            i <= list@.len(),
            forall|k: int| 0 <= k < i ==> list@[k] != position,
        decreases list@.len() - i,
    {
        if list[i] == position {
            return true;
        }
        i = i + 1;
    }
    false
}

/// The index's proposals, followed by the events the semantic layer vouches for that
/// the index missed: a paraphrase that shares no word with an event still reaches it.
pub fn add_vouched(proposed: Vec<usize>, events: &[Prepared], similar: &[String]) -> (positions: Vec<
    usize,
>)
    ensures
        positions@ == proposed@ + vouched(
            events@,
            string_views(similar@),
            proposed@,
            events@.len() as int,
        ),
{
    let mut extras: Vec<usize> = Vec::new();
    let mut p: usize = 0;
    while p < events.len()
        invariant
            p <= events@.len(),
            extras@ == vouched(events@, string_views(similar@), proposed@, p as int),
        decreases events@.len() - p,
    {
        if lists_text(similar, events[p].definition.id.as_str()) && !lists_position(&proposed, p) {
            extras.push(p);
        }
        p = p + 1;
    }
    let mut positions = proposed;
    let ghost head = positions@;
    let mut k: usize = 0;
    while k < extras.len()
        invariant
            k <= extras@.len(),
            positions@ == head + extras@.take(k as int),
        decreases extras@.len() - k,
    {
        positions.push(extras[k]);
        k = k + 1;
        assert(positions@ =~= head + extras@.take(k as int));
    }
    assert(extras@.take(extras@.len() as int) =~= extras@);
    positions
}

/// Whether a layer's match leans on an action word: a keyword or a semantic match says
/// only that the object came up, so what was done with it decides.
pub open spec fn needs_action(layer: MatchLayer) -> bool {
    layer == MatchLayer::Keyword || layer == MatchLayer::Semantic
}

/// Whether a match on `layer` is rejected for want of an action word.
pub fn missing_action(layer: MatchLayer, action_found: bool, action_required: bool) -> (missing:
    bool)
    ensures
        missing == (needs_action(layer) && !action_found && action_required),
{
    (layer == MatchLayer::Keyword || layer == MatchLayer::Semantic) && !action_found
        && action_required
}

/// The reason a scored candidate is rejected, if any: a missing action word first; then,
/// for narration framed as memory or hypothesis, the marker when its penalty took the
/// score (`penalized`) under the threshold; then a final score (`settled`, after
/// clamping) under the threshold. Scores compare exactly as `f32` comparison does.
pub fn rejection_for(
    missing: bool,
    marker: Option<&str>,
    penalized: Score,
    settled: Score,
    threshold: Score,
) -> (rejection: Option<RejectionReason>)
    ensures
        missing ==> rejection matches Some(RejectionReason::NoActionWord),
        !missing && marker is Some && float_lt(penalized.bits, threshold.bits) ==> (rejection matches Some(
            RejectionReason::FramedAsMemoryOrHypothesis(t),
        ) && t@ == marker->0@),
        !missing && !(marker is Some && float_lt(penalized.bits, threshold.bits)) ==> (if float_lt(
            settled.bits,
            threshold.bits,
        ) {
            rejection matches Some(RejectionReason::BelowThreshold { score, threshold: t })
                && score == settled && t == threshold
        } else {
            rejection is None
        }),
{
    if missing {
        return Some(RejectionReason::NoActionWord);
    }
    if let Some(m) = marker {
        if penalized.lt(threshold) {
            return Some(RejectionReason::FramedAsMemoryOrHypothesis(m.to_string()));
        }
    }
    if settled.lt(threshold) {
        Some(RejectionReason::BelowThreshold { score: settled, threshold })
    } else {
        None
    }
}

/// What is decided about an event before any layer is scored.
pub enum Screen {
    /// The event is switched off.
    Disabled,
    /// A command phrase was spoken: the event fires outright on it.
    Command(String),
    /// A negative phrase vetoes the event, however strong the evidence.
    Vetoed(String),
    /// Nothing is decided yet; the layers are scored, knowing whether any action word
    /// was said.
    Open { any_action: bool },
}

impl Prepared {
    /// The checks made before scoring, in the order they win: a disabled event is
    /// rejected, a spoken command fires outright, and a negative phrase vetoes.
    pub fn screen(&self, normalized: &Normalized) -> (screen: Screen)
        ensures
            !self.definition.enabled ==> screen is Disabled,
            self.definition.enabled ==> match first_phrase(
                normalized.text@,
                string_views(self.command_phrases@),
                0,
            ) {
                Some(i) => screen matches Screen::Command(phrase) && phrase@ == self.command_phrases@[i]@,
                None => match first_phrase(normalized.text@, string_views(self.negatives@), 0) {
                    Some(i) => screen matches Screen::Vetoed(phrase) && phrase@ == self.negatives@[i]@,
                    None => screen == (Screen::Open {
                        any_action: first_found(
                            string_views(normalized.stems@),
                            nested_views(self.actions@),
                            None,
                            0,
                        ) is Some,
                    }),
                },
            },
    {
        if !self.definition.enabled {
            return Screen::Disabled;
        }
        if let Some(i) = self.command_match(normalized) {
            proof {
                lemma_first_phrase_in_range(normalized.text@, string_views(self.command_phrases@), 0);
            }
            return Screen::Command(self.command_phrases[i].clone());
        }
        if let Some(i) = self.negative_match(normalized) {
            proof {
                lemma_first_phrase_in_range(normalized.text@, string_views(self.negatives@), 0);
            }
            return Screen::Vetoed(self.negatives[i].clone());
        }
        Screen::Open { any_action: self.any_action(normalized) }
    }

    /// The first command phrase the narration contains.
    pub fn command_match(&self, normalized: &Normalized) -> (found: Option<usize>)
        ensures
            found matches Some(i) ==> first_phrase(
                normalized.text@,
                string_views(self.command_phrases@),
                0,
            ) == Some(i as int),
            found is None ==> first_phrase(
                normalized.text@,
                string_views(self.command_phrases@),
                0,
            ) is None,
    {
        first_contained_phrase(normalized, &self.command_phrases)
    }

    /// The first negative phrase the narration contains: it vetoes the event.
    pub fn negative_match(&self, normalized: &Normalized) -> (found: Option<usize>)
        ensures
            found matches Some(i) ==> first_phrase(normalized.text@, string_views(self.negatives@), 0)
                == Some(i as int),
            found is None ==> first_phrase(normalized.text@, string_views(self.negatives@), 0) is None,
    {
        first_contained_phrase(normalized, &self.negatives)
    }

    /// The first example phrase the narration contains verbatim.
    pub fn exact_match(&self, normalized: &Normalized) -> (found: Option<usize>)
        ensures
            found matches Some(i) ==> first_phrase(
                normalized.text@,
                string_views(self.exact_phrases@),
                0,
            ) == Some(i as int),
            found is None ==> first_phrase(normalized.text@, string_views(self.exact_phrases@), 0)
                is None,
    {
        first_contained_phrase(normalized, &self.exact_phrases)
    }

    /// The first example phrase whose stems occur in the narration, in any inflection.
    pub fn stem_match(&self, normalized: &Normalized) -> (found: Option<usize>)
        ensures
            found matches Some(i) ==> first_found(
                string_views(normalized.stems@),
                nested_views(self.phrase_stems@),
                None,
                0,
            ) == Some(i as int),
            found is None ==> first_found(
                string_views(normalized.stems@),
                nested_views(self.phrase_stems@),
                None,
                0,
            ) is None,
    {
        first_contained_stems(normalized, &self.phrase_stems, None)
    }

    /// Whether any action word is present at all.
    pub fn any_action(&self, normalized: &Normalized) -> (found: bool)
        ensures
            found == first_found(
                string_views(normalized.stems@),
                nested_views(self.actions@),
                None,
                0,
            ) is Some,
    {
        first_contained_stems(normalized, &self.actions, None).is_some()
    }

    /// The first keyword present, with where it sits in the stem sequence.
    pub fn keyword_match(&self, normalized: &Normalized) -> (found: Option<(usize, Range<usize>)>)
        ensures
            found matches Some((i, span)) ==> {
                &&& first_found(
                    string_views(normalized.stems@),
                    nested_views(self.keywords@),
                    None,
                    0,
                ) == Some(i as int)
                &&& i < self.keywords@.len()
                &&& first_usable(
                    string_views(normalized.stems@),
                    string_views(self.keywords@[i as int]@),
                    None,
                ) == Some(span.start as int)
                &&& span.end == span.start + self.keywords@[i as int]@.len()
            },
            found is None ==> first_found(
                string_views(normalized.stems@),
                nested_views(self.keywords@),
                None,
                0,
            ) is None,
    {
        match first_contained_stems(normalized, &self.keywords, None) {
            Some(i) => {
                proof {
                    lemma_first_found_bounds(
                        string_views(normalized.stems@),
                        nested_views(self.keywords@),
                        None,
                        0,
                    );
                }
                match normalized.find_stems(self.keywords[i].as_slice()) {
                    Some(span) => Some((i, span)),
                    None => None,
                }
            },
            None => None,
        }
    }

    /// The action done to the object, spelled as its stems joined by spaces.
    ///
    /// `keyword` is the matched keyword, by its position among the keywords and where
    /// it sits in the stem sequence, when the match came from one.
    pub fn action_word(&self, normalized: &Normalized, keyword: Option<(usize, &Range<usize>)>) -> (word:
        Option<String>)
        requires
            keyword matches Some((k, r)) ==> k < self.keyword_texts@.len() && r.start <= r.end
                <= normalized.stems@.len(),
            self.actions@.len() == self.action_texts@.len(),
        ensures
            match chosen_action(
                string_views(normalized.stems@),
                nested_views(self.actions@),
                string_views(self.action_texts@),
                keyword_view(self.keyword_texts@, keyword),
            ) {
                Some(i) => word is Some && 0 <= i < self.actions@.len() && word->0@ == joined(
                    string_views(self.actions@[i]@),
                ),
                None => word is None,
            },
    {
        let ghost hay = string_views(normalized.stems@);
        let ghost acts = nested_views(self.actions@);
        let span: Option<&Range<usize>> = match keyword {
            Some((_, r)) => Some(r),
            None => None,
        };
        proof {
            lemma_first_found_bounds(hay, acts, owned_range(span), 0);
        }
        if let Some(i) = first_contained_stems(normalized, &self.actions, span) {
            return Some(join_words(self.actions[i].as_slice()));
        }
        match keyword {
            Some((k, r)) => {
                let target = &self.keyword_texts[k];
                let ghost texts = string_views(self.action_texts@);
                assert(owned_range(span) == Some(*r));
                assert(keyword_view(self.keyword_texts@, keyword) == Some((target@, *r)));
                let mut i: usize = 0;
                while i < self.action_texts.len()
                    invariant
                        i <= self.action_texts@.len(),
                        self.actions@.len() == self.action_texts@.len(),
                        keyword_view(self.keyword_texts@, keyword) == Some((target@, *r)),
                        first_found(string_views(normalized.stems@), nested_views(self.actions@), Some(*r), 0) is None,
                        texts == string_views(self.action_texts@),
                        first_equal(texts, target@, 0) == first_equal(texts, target@, i as int),
                    decreases self.action_texts@.len() - i,
                {
                    if same_text(self.action_texts[i].as_str(), target.as_str()) {
                        assert(first_equal(texts, target@, i as int) == Some(i as int));
                        return Some(join_words(self.actions[i].as_slice()));
                    }
                    i = i + 1;
                }
                None
            },
            None => None,
        }
    }
}

proof fn lemma_first_found_bounds(
    hay: Seq<Seq<char>>,
    lists: Seq<Seq<Seq<char>>>,
    exclude: Option<Range<usize>>,
    from: int,
)
    ensures
        first_found(hay, lists, exclude, from) matches Some(i) ==> from <= i < lists.len()
            && first_usable(hay, lists[i], exclude) is Some,
    decreases lists.len() - from,
{
    if from >= 0 && from < lists.len() && !(first_usable(hay, lists[from], exclude) is Some) {
        lemma_first_found_bounds(hay, lists, exclude, from + 1);
    }
}


/// Whether `stem` is one of the stems of term `0..terms` or phrase `0..phrases` of an
/// event. Negative terms are never indexed: they veto, they do not find.
pub open spec fn indexed_upto(event: EventDefinition, terms: int, phrases: int, stem: Seq<char>) -> bool {
    ||| exists|i: int|
        0 <= i < terms && i < event.terms@.len() && event.terms@[i].kind != TermKind::Negative
            && #[trigger] stems_of(words(normalized_text(event.terms@[i].text@))).contains(stem)
    ||| exists|i: int|
        0 <= i < phrases && i < event.phrases@.len()
            && #[trigger] stems_of(words(normalized_text(event.phrases@[i].text@))).contains(stem)
}

/// Whether an event can be found by `stem`.
pub open spec fn indexed_by(event: EventDefinition, stem: Seq<char>) -> bool {
    indexed_upto(event, event.terms@.len() as int, event.phrases@.len() as int, stem)
}

/// Lookup from a word stem to the events that care about it, so a transcript only
/// scores the handful of events its words touch.
pub struct InvertedIndex {
    stems: Vec<String>,
    positions: Vec<Vec<usize>>,
}

impl InvertedIndex {
    /// Each stem listed once, with the positions of distinct events.
    pub closed spec fn wf(&self) -> bool {
        &&& self.stems@.len() == self.positions@.len()
        &&& forall|a: int, b: int|
            0 <= a < b < self.stems@.len() ==> #[trigger] self.stems@[a]@ != #[trigger] self.stems@[b]@
        &&& forall|a: int| 0 <= a < self.positions@.len() ==> #[trigger] self.positions@[a]@.no_duplicates()
    }

    /// Whether the event at `position` is listed under `stem`.
    pub closed spec fn lists(&self, stem: Seq<char>, position: int) -> bool {
        exists|k: int, j: int|
            0 <= k < self.stems@.len() && 0 <= j < self.positions@[k]@.len()
                && #[trigger] self.stems@[k]@ == stem && #[trigger] self.positions@[k]@[j]
                == position
    }

    fn empty() -> (index: Self)
        ensures
            index.wf(),
            forall|s: Seq<char>, p: int| !index.lists(s, p),
    {
        InvertedIndex { stems: Vec::new(), positions: Vec::new() }
    }

    fn slot_of(&self, stem: &str) -> (slot: Option<usize>)
        requires
            self.wf(),
        ensures
            slot matches Some(k) ==> k < self.stems@.len() && self.stems@[k as int]@ == stem@,
            slot is None ==> forall|k: int| 0 <= k < self.stems@.len() ==> self.stems@[k]@ != stem@,
    {
        let mut k: usize = 0;
        while k < self.stems.len()
            invariant
                k <= self.stems@.len(),
                forall|j: int| 0 <= j < k ==> self.stems@[j]@ != stem@,
            decreases self.stems@.len() - k,
        {
            if same_text(self.stems[k].as_str(), stem) {
                return Some(k);
            }
            k = k + 1;
        }
        None
    }

    fn add_stems(&mut self, stems: &Vec<String>, position: usize)
        requires
            old(self).wf(),
        ensures
            final(self).wf(),
            forall|s: Seq<char>, p: int|
                #[trigger] final(self).lists(s, p) <==> (old(self).lists(s, p) || (p == position
                    && string_views(stems@).contains(s))),
    {
        let ghost start = *self;
        let mut i: usize = 0;
        while i < stems.len()
            invariant
                i <= stems@.len(),
                self.wf(),
                forall|s: Seq<char>, p: int|
                    #[trigger] self.lists(s, p) <==> (start.lists(s, p) || (p == position
                        && string_views(stems@).take(i as int).contains(s))),
            decreases stems@.len() - i,
        {
            let ghost mid = *self;
            self.add(stems[i].as_str(), position);
            proof {
                let views = string_views(stems@);
                assert forall|s: Seq<char>, p: int|
                    #[trigger] self.lists(s, p) <==> (start.lists(s, p) || (p == position
                        && views.take(i + 1).contains(s))) by {
                    if views.take(i + 1).contains(s) {
                        let at = choose|at: int| 0 <= at < i + 1 && #[trigger] views.take(i + 1)[at] == s;
                        if at < i {
                            assert(views.take(i as int)[at] == s);
                        }
                    }
                    if views.take(i as int).contains(s) {
                        let at = choose|at: int| 0 <= at < i && #[trigger] views.take(i as int)[at] == s;
                        assert(views.take(i + 1)[at] == s);
                    }
                    assert(views.take(i + 1)[i as int] == stems@[i as int]@);
                }
            }
            i = i + 1;
        }
        assert(string_views(stems@).take(stems@.len() as int) =~= string_views(stems@));
    }

    /// Index every event by the stems of its phrases and its non-negative terms.
    pub fn build(events: &Vec<EventDefinition>) -> (index: Self)
        ensures
            index.wf(),
            forall|s: Seq<char>, p: int|
                #[trigger] index.lists(s, p) <==> (0 <= p < events@.len() && indexed_by(
                    events@[p],
                    s,
                )),
    {
        let mut index = InvertedIndex::empty();
        let mut position: usize = 0;
        while position < events.len()
            invariant
                position <= events@.len(),
                index.wf(),
                forall|s: Seq<char>, p: int|
                    #[trigger] index.lists(s, p) <==> (0 <= p < position && indexed_by(
                        events@[p],
                        s,
                    )),
            decreases events@.len() - position,
        {
            let event = &events[position];
            let ghost e = events@[position as int];
            let mut j: usize = 0;
            while j < event.terms.len()
                invariant
                    j <= e.terms@.len(),
                    *event == e,
                    position < events@.len(),
                    e == events@[position as int],
                    index.wf(),
                    forall|s: Seq<char>, p: int|
                        #[trigger] index.lists(s, p) <==> ((0 <= p < position && indexed_by(
                            events@[p],
                            s,
                        )) || (p == position && indexed_upto(e, j as int, 0, s))),
                decreases e.terms@.len() - j,
            {
                let ghost before = index;
                if event.terms[j].kind != TermKind::Negative {
                    let stems = stem_phrase(normalize_text(event.terms[j].text.as_str()).as_str());
                    index.add_stems(&stems, position);
                }
                proof {
                    assert forall|s: Seq<char>, p: int|
                        #[trigger] index.lists(s, p) <==> ((0 <= p < position && indexed_by(
                            events@[p],
                            s,
                        )) || (p == position && indexed_upto(e, j + 1, 0, s))) by {
                        let t = e.terms@[j as int];
                        let st = stems_of(words(normalized_text(t.text@)));
                        if indexed_upto(e, j + 1, 0, s) && !indexed_upto(e, j as int, 0, s) {
                            assert(t.kind != TermKind::Negative && st.contains(s));
                        }
                        if t.kind != TermKind::Negative && st.contains(s) {
                            assert(indexed_upto(e, j + 1, 0, s));
                        }
                    }
                }
                j = j + 1;
            }
            let mut j: usize = 0;
            while j < event.phrases.len()
                invariant
                    j <= e.phrases@.len(),
                    *event == e,
                    position < events@.len(),
                    e == events@[position as int],
                    index.wf(),
                    forall|s: Seq<char>, p: int|
                        #[trigger] index.lists(s, p) <==> ((0 <= p < position && indexed_by(
                            events@[p],
                            s,
                        )) || (p == position && indexed_upto(
                            e,
                            e.terms@.len() as int,
                            j as int,
                            s,
                        ))),
                decreases e.phrases@.len() - j,
            {
                let stems = stem_phrase(normalize_text(event.phrases[j].text.as_str()).as_str());
                index.add_stems(&stems, position);
                proof {
                    assert forall|s: Seq<char>, p: int|
                        #[trigger] index.lists(s, p) <==> ((0 <= p < position && indexed_by(
                            events@[p],
                            s,
                        )) || (p == position && indexed_upto(
                            e,
                            e.terms@.len() as int,
                            j + 1,
                            s,
                        ))) by {
                        let ph = e.phrases@[j as int];
                        let st = stems_of(words(normalized_text(ph.text@)));
                        if st.contains(s) {
                            assert(indexed_upto(e, e.terms@.len() as int, j + 1, s));
                        }
                    }
                }
                j = j + 1;
            }
            position = position + 1;
        }
        index
    }

    /// The events whose stems the transcript touches, each listed once.
    pub fn candidates(&self, normalized: &Normalized) -> (found: Vec<usize>)
        requires
            self.wf(),
        ensures
            found@.no_duplicates(),
            forall|p: usize|
                #[trigger] found@.contains(p) <==> exists|i: int|
                    0 <= i < normalized.stems@.len() && #[trigger] self.lists(
                        normalized.stems@[i]@,
                        p as int,
                    ),
    {
        let mut found: Vec<usize> = Vec::new();
        let mut i: usize = 0;
        while i < normalized.stems.len()
            invariant
                i <= normalized.stems@.len(),
                self.wf(),
                found@.no_duplicates(),
                forall|p: usize|
                    #[trigger] found@.contains(p) <==> exists|k: int|
                        0 <= k < i && #[trigger] self.lists(normalized.stems@[k]@, p as int),
            decreases normalized.stems@.len() - i,
        {
            let ghost before = found@;
            let ghost stem = normalized.stems@[i as int]@;
            if let Some(slot) = self.slot_of(normalized.stems[i].as_str()) {
                let list = &self.positions[slot];
                let mut j: usize = 0;
                while j < list.len()
                    invariant
                        j <= list@.len(),
                        *list == self.positions@[slot as int],
                        slot < self.stems@.len(),
                        found@.no_duplicates(),
                        forall|p: usize|
                            #[trigger] found@.contains(p) <==> (before.contains(p) || exists|at: int|
                                0 <= at < j && list@[at] == p),
                    decreases list@.len() - j,
                {
                    let candidate = list[j];
                    let mut seen = false;
                    let mut k: usize = 0;
                    while k < found.len()
                        invariant
                            k <= found@.len(),
                            seen == exists|m: int| 0 <= m < k && found@[m] == candidate,
                        decreases found@.len() - k,
                    {
                        if found[k] == candidate {
                            seen = true;
                        }
                        k = k + 1;
                    }
                    let ghost mid = found@;
                    if !seen {
                        found.push(candidate);
                    }
                    proof {
                        assert forall|p: usize|
                            #[trigger] found@.contains(p) <==> (before.contains(p) || exists|at: int|
                                0 <= at < j + 1 && list@[at] == p) by {
                            if p == candidate {
                                if !seen {
                                    assert(found@[found@.len() - 1] == candidate);
                                }
                                assert(list@[j as int] == p);
                            }
                            if exists|at: int| 0 <= at < j + 1 && list@[at] == p {
                                let at = choose|at: int| 0 <= at < j + 1 && list@[at] == p;
                                if at < j {
                                    assert(mid.contains(p));
                                    let m = choose|m: int| 0 <= m < mid.len() && mid[m] == p;
                                    assert(found@[m] == p);
                                }
                            }
                            if found@.contains(p) {
                                let m = choose|m: int| 0 <= m < found@.len() && found@[m] == p;
                                if seen || m < mid.len() {
                                    assert(mid[m] == p);
                                    assert(mid.contains(p));
                                }
                            }
                            if before.contains(p) {
                                assert(mid.contains(p));
                                let m = choose|m: int| 0 <= m < mid.len() && mid[m] == p;
                                assert(found@[m] == p);
                            }
                        }
                    }
                    j = j + 1;
                }
                proof {
                    assert forall|p: usize|
                        #[trigger] found@.contains(p) <==> exists|k: int|
                            0 <= k < i + 1 && #[trigger] self.lists(normalized.stems@[k]@, p as int) by {
                        if self.lists(stem, p as int) {
                            let (w, at) = choose|w: int, at: int|
                                0 <= w < self.stems@.len() && 0 <= at < self.positions@[w]@.len()
                                    && #[trigger] self.stems@[w]@ == stem
                                    && #[trigger] self.positions@[w]@[at] == p as int;
                            assert(w == slot as int);
                            assert(list@[at] == p);
                        }
                        if exists|at: int| 0 <= at < list@.len() && list@[at] == p {
                            let at = choose|at: int| 0 <= at < list@.len() && list@[at] == p;
                            assert(self.stems@[slot as int]@ == stem && self.positions@[slot as int]@[at] == p as int);
                            assert(self.lists(normalized.stems@[i as int]@, p as int));
                        }
                        if exists|k: int| 0 <= k < i + 1 && #[trigger] self.lists(normalized.stems@[k]@, p as int) {
                            let k = choose|k: int| 0 <= k < i + 1 && #[trigger] self.lists(normalized.stems@[k]@, p as int);
                            if k < i {
                                assert(before.contains(p));
                            }
                        }
                        if before.contains(p) {
                            let k = choose|k: int| 0 <= k < i && #[trigger] self.lists(normalized.stems@[k]@, p as int);
                            assert(0 <= k < i + 1 && self.lists(normalized.stems@[k]@, p as int));
                        }
                    }
                }
            } else {
                proof {
                    assert forall|p: usize|
                        #[trigger] found@.contains(p) <==> exists|k: int|
                            0 <= k < i + 1 && #[trigger] self.lists(normalized.stems@[k]@, p as int) by {
                        if exists|k: int| 0 <= k < i + 1 && #[trigger] self.lists(normalized.stems@[k]@, p as int) {
                            let k = choose|k: int| 0 <= k < i + 1 && #[trigger] self.lists(normalized.stems@[k]@, p as int);
                            if k == i {
                                let (w, at) = choose|w: int, at: int|
                                    0 <= w < self.stems@.len() && 0 <= at < self.positions@[w]@.len()
                                        && #[trigger] self.stems@[w]@ == stem
                                        && #[trigger] self.positions@[w]@[at] == p as int;
                                assert(false);
                            }
                        }
                        if before.contains(p) {
                            let k = choose|k: int| 0 <= k < i && #[trigger] self.lists(normalized.stems@[k]@, p as int);
                            assert(0 <= k < i + 1 && self.lists(normalized.stems@[k]@, p as int));
                        }
                    }
                }
            }
            i = i + 1;
        }
        found
    }

    fn add(&mut self, stem: &str, position: usize)
        requires
            old(self).wf(),
        ensures
            final(self).wf(),
            forall|s: Seq<char>, p: int|
                #[trigger] final(self).lists(s, p) <==> (old(self).lists(s, p) || (s == stem@ && p
                    == position)),
    {
        let ghost old_index = *self;
        match self.slot_of(stem) {
            Some(k) => {
                let mut list = self.positions[k].clone();
                let ghost before = list@;
                assert(before == self.positions@[k as int]@);
                let mut present = false;
                let mut j: usize = 0;
                while j < list.len()
                    invariant
                        j <= list@.len(),
                        list@ == before,
                        present == exists|i: int| 0 <= i < j && list@[i] == position,
                    decreases list@.len() - j,
                {
                    if list[j] == position {
                        present = true;
                    }
                    j = j + 1;
                }
                if !present {
                    list.push(position);
                    self.positions.set(k, list);
                    assert forall|s: Seq<char>, p: int|
                        #[trigger] self.lists(s, p) <==> (old_index.lists(s, p) || (s == stem@ && p
                            == position)) by {
                        if old_index.lists(s, p) {
                            let (w, at) = choose|w: int, at: int|
                                0 <= w < old_index.stems@.len() && 0 <= at
                                    < old_index.positions@[w]@.len() && #[trigger] old_index.stems@[w]@
                                    == s && #[trigger] old_index.positions@[w]@[at] == p;
                            assert(self.stems@[w]@ == s && self.positions@[w]@[at] == p);
                        }
                        if s == stem@ && p == position {
                            assert(self.stems@[k as int]@ == s && self.positions@[k as int]@[before.len() as int] == p);
                        }
                        if self.lists(s, p) {
                            let (w, at) = choose|w: int, at: int|
                                0 <= w < self.stems@.len() && 0 <= at < self.positions@[w]@.len()
                                    && #[trigger] self.stems@[w]@ == s
                                    && #[trigger] self.positions@[w]@[at] == p;
                            if w != k as int || at < before.len() {
                                assert(old_index.stems@[w]@ == s && old_index.positions@[w]@[at] == p);
                            }
                        }
                    }
                    assert forall|a: int| 0 <= a < self.positions@.len() implies #[trigger] self.positions@[a]@.no_duplicates() by {
                        assert(old_index.positions@[a]@.no_duplicates());
                    }
                } else {
                    proof {
                        let at = choose|i: int| 0 <= i < before.len() && before[i] == position;
                        assert(self.stems@[k as int]@ == stem@ && self.positions@[k as int]@[at] == position);
                        assert(self.lists(stem@, position as int));
                        assert(*self == old_index);
                    }
                }
            },
            None => {
                self.stems.push(stem.to_string());
                self.positions.push(vec![position]);
                let ghost n = old_index.stems@.len() as int;
                assert forall|s: Seq<char>, p: int|
                    #[trigger] self.lists(s, p) <==> (old_index.lists(s, p) || (s == stem@ && p == position)) by {
                    if old_index.lists(s, p) {
                        let (w, at) = choose|w: int, at: int|
                            0 <= w < old_index.stems@.len() && 0 <= at
                                < old_index.positions@[w]@.len() && #[trigger] old_index.stems@[w]@
                                == s && #[trigger] old_index.positions@[w]@[at] == p;
                        assert(self.stems@[w]@ == s && self.positions@[w]@[at] == p);
                    }
                    if s == stem@ && p == position {
                        assert(self.stems@[n]@ == s && self.positions@[n]@[0] == p);
                    }
                    if self.lists(s, p) {
                        let (w, at) = choose|w: int, at: int|
                            0 <= w < self.stems@.len() && 0 <= at < self.positions@[w]@.len()
                                && #[trigger] self.stems@[w]@ == s
                                && #[trigger] self.positions@[w]@[at] == p;
                        if w < n {
                            assert(old_index.stems@[w]@ == s && old_index.positions@[w]@[at] == p);
                        }
                    }
                }
                assert forall|a: int| 0 <= a < self.positions@.len() implies #[trigger] self.positions@[a]@.no_duplicates() by {
                    if a < n {
                        assert(old_index.positions@[a]@.no_duplicates());
                    }
                }
            },
        }
    }
}

} // verus!
