//! What an event is.

use vstd::prelude::*;

use crate::detect::score::Score;
use crate::text::{lowercase, same_text, str_lowercase};

verus! {

/// Language tag for a phrase or term. `Any` matches regardless of the spoken language.
#[derive(Debug, Clone, Copy, PartialEq, Eq, Structural)]
pub enum Lang {
    En,
    Uk,
    Any,
}

/// The tag text of a language.
pub open spec fn lang_tag(lang: Lang) -> Seq<char> {
    match lang {
        Lang::En => seq!['e', 'n'],
        Lang::Uk => seq!['u', 'k'],
        Lang::Any => seq!['a', 'n', 'y'],
    }
}

impl Lang {
    pub fn as_str(self) -> (tag: &'static str)
        ensures
            tag@ == lang_tag(self),
    {
        proof {
            reveal_strlit("en");
            reveal_strlit("uk");
            reveal_strlit("any");
        }
        match self {
            Lang::En => "en",
            Lang::Uk => "uk",
            Lang::Any => "any",
        }
    }
}

/// The language a tag names: "en" and "uk" in any case, anything else is `Any`.
pub open spec fn lang_named(lowered: Seq<char>) -> Lang {
    if lowered == lang_tag(Lang::En) {
        Lang::En
    } else if lowered == lang_tag(Lang::Uk) {
        Lang::Uk
    } else {
        Lang::Any
    }
}

impl Lang {
    pub fn parse(value: &str) -> (lang: Lang)
        ensures
            lang == lang_named(str_lowercase(value@)),
    {
        proof {
            reveal_strlit("en");
            reveal_strlit("uk");
        }
        assert("en"@ =~= lang_tag(Lang::En));
        assert("uk"@ =~= lang_tag(Lang::Uk));
        let lowered = lowercase(value);
        if same_text(lowered.as_str(), "en") {
            Lang::En
        } else if same_text(lowered.as_str(), "uk") {
            Lang::Uk
        } else {
            Lang::Any
        }
    }
}

/// Every language tag reads back as the language it was written for.
pub proof fn lemma_language_tags_round_trip(lang: Lang)
    ensures
        (forall|i: int|
            0 <= i < lang_tag(lang).len() ==> crate::text::is_plain_lower_ascii(
                #[trigger] lang_tag(lang)[i],
            )),
        lang_named(lang_tag(lang)) == lang,
{
}

/// An example of how an event might be narrated.
pub struct Phrase {
    pub lang: Lang,
    pub text: String,
    /// Commands are spoken deliberately ("sound thunder") and take priority over
    /// automatic detection.
    pub is_command: bool,
}

impl Phrase {
    pub fn example(lang: Lang, text: &str) -> (phrase: Self)
        ensures
            phrase.lang == lang,
            phrase.text@ == text@,
            !phrase.is_command,
    {
        Phrase { lang, text: text.to_string(), is_command: false }
    }

    pub fn command(text: &str) -> (phrase: Self)
        ensures
            phrase.lang == Lang::Any,
            phrase.text@ == text@,
            phrase.is_command,
    {
        Phrase { lang: Lang::Any, text: text.to_string(), is_command: true }
    }

    pub fn duplicate(&self) -> (copy: Self)
        ensures
            copy == *self,
    {
        Phrase { lang: self.lang, text: self.text.clone(), is_command: self.is_command }
    }
}

/// What a term does for an event.
#[derive(Debug, Clone, Copy, PartialEq, Eq, Structural)]
pub enum TermKind {
    /// Anchors the event in the retrieval index. Usually the object: door, sword, wolf.
    Keyword,
    /// The action that has to be happening.
    Action,
    /// If this appears, the event is suppressed outright.
    Negative,
}

pub struct Term {
    pub kind: TermKind,
    pub lang: Lang,
    pub text: String,
}

impl Term {
    pub fn keyword(text: &str) -> (term: Self)
        ensures
            term.kind == TermKind::Keyword,
            term.lang == Lang::Any,
            term.text@ == text@,
    {
        Term { kind: TermKind::Keyword, lang: Lang::Any, text: text.to_string() }
    }

    pub fn action(text: &str) -> (term: Self)
        ensures
            term.kind == TermKind::Action,
            term.lang == Lang::Any,
            term.text@ == text@,
    {
        Term { kind: TermKind::Action, lang: Lang::Any, text: text.to_string() }
    }

    pub fn negative(text: &str) -> (term: Self)
        ensures
            term.kind == TermKind::Negative,
            term.lang == Lang::Any,
            term.text@ == text@,
    {
        Term { kind: TermKind::Negative, lang: Lang::Any, text: text.to_string() }
    }

    pub fn duplicate(&self) -> (copy: Self)
        ensures
            copy == *self,
    {
        Term { kind: self.kind, lang: self.lang, text: self.text.clone() }
    }

    /// Many terms of one kind at once, in the order given.
    pub fn keywords(texts: &[&str]) -> (terms: Vec<Term>)
        ensures
            terms_of_kind(terms@, texts@, TermKind::Keyword),
    {
        Self::many(texts, TermKind::Keyword)
    }

    pub fn actions(texts: &[&str]) -> (terms: Vec<Term>)
        ensures
            terms_of_kind(terms@, texts@, TermKind::Action),
    {
        Self::many(texts, TermKind::Action)
    }

    pub fn negatives(texts: &[&str]) -> (terms: Vec<Term>)
        ensures
            terms_of_kind(terms@, texts@, TermKind::Negative),
    {
        Self::many(texts, TermKind::Negative)
    }

    fn many(texts: &[&str], kind: TermKind) -> (terms: Vec<Term>)
        ensures
            terms_of_kind(terms@, texts@, kind),
    {
        let mut terms: Vec<Term> = Vec::new();
        let mut i: usize = 0;
        while i < texts.len()
            invariant
                i <= texts@.len(),
                terms@.len() == i,
                forall|k: int|
                    0 <= k < i ==> (#[trigger] terms@[k]).kind == kind && terms@[k].lang == Lang::Any
                        && terms@[k].text@ == texts@[k]@,
            decreases texts@.len() - i,
        {
            terms.push(Term { kind, lang: Lang::Any, text: texts[i].to_string() });
            i = i + 1;
        }
        terms
    }
}

/// `terms` are one term of `kind`, in any language, per text, in order.
pub open spec fn terms_of_kind(terms: Seq<Term>, texts: Seq<&str>, kind: TermKind) -> bool {
    &&& terms.len() == texts.len()
    &&& forall|k: int|
        0 <= k < terms.len() ==> (#[trigger] terms[k]).kind == kind && terms[k].lang == Lang::Any
            && terms[k].text@ == texts[k]@
}

/// Several term lists, concatenated in order.
pub open spec fn concatenated(groups: Seq<Vec<Term>>) -> Seq<Term>
    decreases groups.len(),
{
    if groups.len() == 0 {
        Seq::empty()
    } else {
        concatenated(groups.drop_last()) + groups.last()@
    }
}

/// Collect several term lists into one.
pub fn terms(groups: Vec<Vec<Term>>) -> (all: Vec<Term>)
    ensures
        all@ == concatenated(groups@),
{
    let mut all: Vec<Term> = Vec::new();
    let mut groups = groups;
    let ghost given = groups@;
    let mut i: usize = 0;
    let n = groups.len();
    assert(given.take(0) =~= Seq::<Vec<Term>>::empty());
    while i < n
        invariant
            n == given.len(),
            groups@.len() == n,
            i <= n,
            forall|k: int| i <= k < n ==> groups@[k] == given[k],
            all@ == concatenated(given.take(i as int)),
        decreases n - i,
    {
        let mut group: Vec<Term> = Vec::new();
        groups.set_and_swap(i, &mut group);
        let ghost before = all@;
        all.append(&mut group);
        assert(given.take(i + 1).drop_last() =~= given.take(i as int));
        i = i + 1;
    }
    assert(given.take(n as int) =~= given);
    all
}

/// How an event behaves when it fires.
#[derive(Debug, Clone, Copy, PartialEq, Eq, Structural)]
pub enum EventKind {
    OneShot,
    AmbienceStart,
    AmbienceStop,
}

/// A detectable event.
pub struct EventDefinition {
    /// Semantic identifier, e.g. `OPEN_DOOR`.
    pub id: String,
    pub display_name: String,
    pub category: String,
    pub kind: EventKind,
    pub phrases: Vec<Phrase>,
    pub terms: Vec<Term>,
    /// Score a candidate must reach to fire. Higher is stricter.
    pub confidence_threshold: Score,
    pub cooldown_ms: u32,
    /// Chance of actually firing once everything else passes.
    pub probability: Score,
    /// When true, a keyword match without an action word cannot fire the event.
    pub require_action_word: bool,
    pub enabled: bool,
}

/// Bit pattern of `0.82f32`, the default confidence threshold.
pub const DEFAULT_THRESHOLD_BITS: u32 = 0x3F51_EB85;

/// Default cooldown of a new event.
pub const DEFAULT_COOLDOWN_MS: u32 = 3_000;

impl EventDefinition {
    /// A minimal event: strict by default, with no phrases or terms yet.
    pub fn new(id: &str, display_name: &str) -> (event: Self)
        ensures
            event.id@ == id@,
            event.display_name@ == display_name@,
            event.category@.len() == 0,
            event.kind == EventKind::OneShot,
            event.phrases@.len() == 0,
            event.terms@.len() == 0,
            event.confidence_threshold == (Score { bits: DEFAULT_THRESHOLD_BITS }),
            event.cooldown_ms == DEFAULT_COOLDOWN_MS,
            event.probability == Score::one(),
            event.require_action_word,
            event.enabled,
    {
        EventDefinition {
            id: id.to_string(),
            display_name: display_name.to_string(),
            category: String::new(),
            kind: EventKind::OneShot,
            phrases: Vec::new(),
            terms: Vec::new(),
            confidence_threshold: Score { bits: DEFAULT_THRESHOLD_BITS },
            cooldown_ms: DEFAULT_COOLDOWN_MS,
            probability: Score::certain(),
            require_action_word: true,
            enabled: true,
        }
    }

    pub fn with_phrases(self, phrases: Vec<Phrase>) -> (event: Self)
        ensures
            event == (EventDefinition { phrases, ..self }),
    {
        EventDefinition { phrases, ..self }
    }

    pub fn with_terms(self, terms: Vec<Term>) -> (event: Self)
        ensures
            event == (EventDefinition { terms, ..self }),
    {
        EventDefinition { terms, ..self }
    }

    pub fn with_threshold(self, threshold: Score) -> (event: Self)
        ensures
            event == (EventDefinition { confidence_threshold: threshold, ..self }),
    {
        EventDefinition { confidence_threshold: threshold, ..self }
    }

    pub fn with_cooldown(self, cooldown_ms: u32) -> (event: Self)
        ensures
            event == (EventDefinition { cooldown_ms, ..self }),
    {
        EventDefinition { cooldown_ms, ..self }
    }

    pub fn requiring_action(self, require: bool) -> (event: Self)
        ensures
            event == (EventDefinition { require_action_word: require, ..self }),
    {
        EventDefinition { require_action_word: require, ..self }
    }

    /// The terms of one kind, in order.
    pub fn terms_of(&self, kind: TermKind) -> (found: Vec<Term>)
        ensures
            found@ == self.terms@.filter(|t: Term| t.kind == kind),
    {
        let mut found: Vec<Term> = Vec::new();
        let mut i: usize = 0;
        while i < self.terms.len()
            invariant
                i <= self.terms@.len(),
                found@ == self.terms@.take(i as int).filter(|t: Term| t.kind == kind),
            decreases self.terms@.len() - i,
        {
            proof {
                reveal(Seq::filter);
                assert(self.terms@.take(i + 1).drop_last() =~= self.terms@.take(i as int));
            }
            if self.terms[i].kind == kind {
                found.push(self.terms[i].duplicate());
            }
            i = i + 1;
        }
        assert(self.terms@.take(self.terms@.len() as int) =~= self.terms@);
        found
    }

    /// The example phrases: every phrase that is not a command, in order.
    pub fn examples(&self) -> (found: Vec<Phrase>)
        ensures
            found@ == self.phrases@.filter(|p: Phrase| p.is_command == false),
    {
        self.phrases_where(false)
    }

    /// The spoken commands, in order.
    pub fn commands(&self) -> (found: Vec<Phrase>)
        ensures
            found@ == self.phrases@.filter(|p: Phrase| p.is_command == true),
    {
        self.phrases_where(true)
    }

    fn phrases_where(&self, command: bool) -> (found: Vec<Phrase>)
        ensures
            found@ == self.phrases@.filter(|p: Phrase| p.is_command == command),
    {
        let mut found: Vec<Phrase> = Vec::new();
        let mut i: usize = 0;
        while i < self.phrases.len()
            invariant
                i <= self.phrases@.len(),
                found@ == self.phrases@.take(i as int).filter(|p: Phrase| p.is_command == command),
            decreases self.phrases@.len() - i,
        {
            proof {
                reveal(Seq::filter);
                assert(self.phrases@.take(i + 1).drop_last() =~= self.phrases@.take(i as int));
            }
            if self.phrases[i].is_command == command {
                found.push(self.phrases[i].duplicate());
            }
            i = i + 1;
        }
        assert(self.phrases@.take(self.phrases@.len() as int) =~= self.phrases@);
        found
    }
}

} // verus!
