//! Deciding whether an accepted candidate actually fires.
//!
//! Detection says "this narration describes a sword swing". This module says whether to
//! play it now: the same sentence is re-transcribed as it is spoken, the same word
//! appears twice in one breath, and the same event must not fire three times in ten
//! seconds. Time is passed in, never read.

use std::collections::VecDeque;

use vstd::prelude::*;

use crate::detect::engine::{Candidate, Detection};
use crate::detect::score::{float_ge, float_lt, Score, ONE_BITS};
use crate::text::{push_text, same_text, signed_decimal, signed_decimal_text, string_of};

verus! {

/// How long a triggering phrase is remembered for duplicate suppression.
pub const SPAN_MEMORY_MS: i64 = 8_000;

/// Timestamps are milliseconds; this bound (2^62 - 2^32, some hundred and forty million
/// years either side of the epoch) keeps every difference of two of them, that
/// difference taken from a cooldown, and every delay added to one, inside an `i64`.
pub const TIMESTAMP_LIMIT: i64 = 4_611_686_014_132_420_608;

/// How many recent triggers to keep, so a long session cannot grow memory.
pub const SPAN_MEMORY_LIMIT: usize = 64;

/// A sound to play.
pub struct Trigger {
    pub event_id: String,
    pub confidence: Score,
    pub at_ms: i64,
    /// Milliseconds to wait before playing, for chained events.
    pub delay_ms: u32,
    pub transcript: String,
}

/// Why an accepted candidate did not fire.
pub enum SuppressionReason {
    /// The event fired recently and is still cooling down.
    Cooldown { remaining_ms: i64 },
    /// The same phrase already fired this event.
    DuplicateSpan { span: String },
    /// The probability roll went against it.
    Probability { probability: Score },
}

impl SuppressionReason {
    /// The debug panel's sentence for this reason, for every reason whose sentence
    /// holds no fraction. A lost probability roll is told as a rounded percentage,
    /// which is floating-point formatting left to the caller.
    pub fn explain(&self) -> (text: Option<String>)
        ensures
            match self {
                SuppressionReason::Cooldown { remaining_ms } => text matches Some(t) && t@
                    == "still cooling down for another "@ + signed_decimal(*remaining_ms as int)
                    + " ms"@,
                SuppressionReason::DuplicateSpan { span } => text matches Some(t) && t@
                    == seq!['\''] + span@ + "' already triggered this event"@,
                SuppressionReason::Probability { .. } => text is None,
            },
    {
        match self {
            SuppressionReason::Cooldown { remaining_ms } => {
                let mut out: Vec<char> = Vec::new();
                push_text(&mut out, "still cooling down for another ");
                push_text(&mut out, signed_decimal_text(*remaining_ms).as_str());
                push_text(&mut out, " ms");
                Some(string_of(out.as_slice()))
            },
            SuppressionReason::DuplicateSpan { span } => {
                let mut out: Vec<char> = vec!['\''];
                push_text(&mut out, span.as_str());
                push_text(&mut out, "' already triggered this event");
                Some(string_of(out.as_slice()))
            },
            SuppressionReason::Probability { .. } => None,
        }
    }
}

pub struct Suppressed {
    pub event_id: String,
    pub confidence: Score,
    pub reason: SuppressionReason,
}

pub struct Decision {
    pub triggers: Vec<Trigger>,
    pub suppressed: Vec<Suppressed>,
}

/// Per-event rules the trigger engine needs.
pub struct TriggerRules {
    pub event_id: String,
    pub cooldown_ms: u32,
    pub probability: Score,
    /// Events to fire after this one, and how long to wait.
    pub followers: Vec<(String, u32)>,
}

/// Anything that can produce a number in `0.0..1.0` (as the bit pattern of an `f32`).
/// Injected so probability is deterministic in tests: what a roll gives next, and what
/// it becomes after giving it, are functions of the roll.
pub trait Roll: Sized {
    /// What the next draw gives.
    spec fn upcoming(&self) -> Score;

    /// The roll once it has given its next draw.
    spec fn after_draw(&self) -> Self;

    fn next(&mut self) -> (roll: Score)
        ensures
            roll == old(self).upcoming(),
            *final(self) == old(self).after_draw(),
    ;
}

/// Always rolls `0.0`: every event whose probability is above zero fires.
pub struct AlwaysRoll;

impl Roll for AlwaysRoll {
    open spec fn upcoming(&self) -> Score {
        Score::zero()
    }

    open spec fn after_draw(&self) -> Self {
        AlwaysRoll
    }

    fn next(&mut self) -> (roll: Score) {
        Score { bits: 0 }
    }
}

struct RecentSpan {
    event_id: String,
    span: String,
    at_ms: i64,
}

/// Turns detections into playback decisions.
pub struct TriggerEngine {
    last_fired: Vec<(String, i64)>,
    recent_spans: VecDeque<RecentSpan>,
}

// ---------------------------------------------------------------------------------------
// The model.
// ---------------------------------------------------------------------------------------
pub struct SpanView {
    pub event_id: Seq<char>,
    pub span: Seq<char>,
    pub at_ms: int,
}

pub struct EngineView {
    /// When each event last fired (or is scheduled to), one entry per event.
    pub last_fired: Seq<(Seq<char>, int)>,
    /// Recently fired (event, phrase) pairs, oldest first.
    pub recent: Seq<SpanView>,
}

pub struct RuleView {
    pub event_id: Seq<char>,
    pub cooldown_ms: int,
    pub probability: Score,
    pub followers: Seq<(Seq<char>, int)>,
}

pub struct CandidateView {
    pub event_id: Seq<char>,
    pub confidence: Score,
    pub span: Seq<char>,
    pub accepted: bool,
}

pub struct TriggerView {
    pub event_id: Seq<char>,
    pub confidence: Score,
    pub at_ms: int,
    pub delay_ms: int,
    pub transcript: Seq<char>,
}

pub enum ReasonView {
    Cooldown(int),
    DuplicateSpan(Seq<char>),
    Probability(Score),
}

pub struct SuppressedView {
    pub event_id: Seq<char>,
    pub confidence: Score,
    pub reason: ReasonView,
}

/// What a decision has produced so far, and the engine state it leaves behind.
pub struct Outcome {
    pub engine: EngineView,
    pub triggers: Seq<TriggerView>,
    pub suppressed: Seq<SuppressedView>,
}

impl View for TriggerRules {
    type V = RuleView;

    open spec fn view(&self) -> RuleView {
        RuleView {
            event_id: self.event_id@,
            cooldown_ms: self.cooldown_ms as int,
            probability: self.probability,
            followers: self.followers@.map_values(|f: (String, u32)| (f.0@, f.1 as int)),
        }
    }
}

impl View for Trigger {
    type V = TriggerView;

    open spec fn view(&self) -> TriggerView {
        TriggerView {
            event_id: self.event_id@,
            confidence: self.confidence,
            at_ms: self.at_ms as int,
            delay_ms: self.delay_ms as int,
            transcript: self.transcript@,
        }
    }
}

impl View for Suppressed {
    type V = SuppressedView;

    open spec fn view(&self) -> SuppressedView {
        SuppressedView {
            event_id: self.event_id@,
            confidence: self.confidence,
            reason: match self.reason {
                SuppressionReason::Cooldown { remaining_ms } => ReasonView::Cooldown(
                    remaining_ms as int,
                ),
                SuppressionReason::DuplicateSpan { span } => ReasonView::DuplicateSpan(span@),
                SuppressionReason::Probability { probability } => ReasonView::Probability(
                    probability,
                ),
            },
        }
    }
}

impl View for TriggerEngine {
    type V = EngineView;

    closed spec fn view(&self) -> EngineView {
        EngineView {
            last_fired: self.last_fired@.map_values(|e: (String, i64)| (e.0@, e.1 as int)),
            recent: self.recent_spans@.map_values(
                |r: RecentSpan| SpanView { event_id: r.event_id@, span: r.span@, at_ms: r.at_ms as int },
            ),
        }
    }
}

pub open spec fn candidate_view(c: Candidate) -> CandidateView {
    CandidateView {
        event_id: c.event_id@,
        confidence: c.confidence,
        span: c.matched_span@,
        accepted: c.accepted,
    }
}

pub open spec fn rules_view(rules: Seq<TriggerRules>) -> Seq<RuleView> {
    rules.map_values(|r: TriggerRules| r@)
}

/// The engine's own invariant: at most one timestamp per event, and a bounded memory.
pub open spec fn engine_wf(e: EngineView) -> bool {
    &&& e.recent.len() <= SPAN_MEMORY_LIMIT
    &&& forall|i: int, j: int|
        0 <= i < j < e.last_fired.len() ==> e.last_fired[i].0 != e.last_fired[j].0
    &&& forall|i: int| 0 <= i < e.last_fired.len() ==> time_ok(#[trigger] e.last_fired[i].1)
    &&& forall|i: int| 0 <= i < e.recent.len() ==> time_ok(#[trigger] e.recent[i].at_ms)
}

/// A timestamp inside the supported range.
pub open spec fn time_ok(t: int) -> bool {
    -TIMESTAMP_LIMIT <= t <= TIMESTAMP_LIMIT
}

/// A detection time from which any chained event can still be scheduled in range.
pub open spec fn now_ok(now: int) -> bool {
    -TIMESTAMP_LIMIT <= now <= TIMESTAMP_LIMIT - u32::MAX
}

/// Index of the first rule for an event.
pub open spec fn first_rule_from(rules: Seq<RuleView>, id: Seq<char>, i: int) -> Option<int>
    decreases rules.len() - i,
{
    if i < 0 || i >= rules.len() {
        None
    } else if rules[i].event_id == id {
        Some(i)
    } else {
        first_rule_from(rules, id, i + 1)
    }
}

pub open spec fn first_rule(rules: Seq<RuleView>, id: Seq<char>) -> Option<int> {
    first_rule_from(rules, id, 0)
}

/// Index of an event's entry in the last-fired list.
pub open spec fn fired_entry_from(fired: Seq<(Seq<char>, int)>, id: Seq<char>, i: int) -> Option<
    int,
>
    decreases fired.len() - i,
{
    if i < 0 || i >= fired.len() {
        None
    } else if fired[i].0 == id {
        Some(i)
    } else {
        fired_entry_from(fired, id, i + 1)
    }
}

pub open spec fn fired_entry(fired: Seq<(Seq<char>, int)>, id: Seq<char>) -> Option<int> {
    fired_entry_from(fired, id, 0)
}

/// How much of an event's cooldown is left at `now`; zero when it is not cooling down.
pub open spec fn cooldown_left(
    fired: Seq<(Seq<char>, int)>,
    id: Seq<char>,
    cooldown_ms: int,
    now: int,
) -> int {
    match fired_entry(fired, id) {
        Some(k) => {
            let remaining = cooldown_ms - (now - fired[k].1);
            if remaining > 0 {
                remaining
            } else {
                0
            }
        },
        None => 0,
    }
}

/// Record that an event fired (or will fire) at `at`.
pub open spec fn marked(fired: Seq<(Seq<char>, int)>, id: Seq<char>, at: int) -> Seq<
    (Seq<char>, int),
> {
    match fired_entry(fired, id) {
        Some(k) => fired.update(k, (fired[k].0, at)),
        None => fired.push((id, at)),
    }
}

/// Has this event already fired on this phrase, as far as memory reaches?
pub open spec fn remembers(recent: Seq<SpanView>, id: Seq<char>, span: Seq<char>) -> bool {
    exists|k: int| 0 <= k < recent.len() && #[trigger] recent[k].event_id == id && recent[k].span
        == span
}

/// Spans older than the memory window are forgotten, oldest first, stopping at the
/// first one still inside the window.
pub open spec fn forget_old(recent: Seq<SpanView>, now: int) -> Seq<SpanView>
    decreases recent.len(),
{
    if recent.len() > 0 && now - recent[0].at_ms > SPAN_MEMORY_MS {
        forget_old(recent.drop_first(), now)
    } else {
        recent
    }
}

/// Remember a span, keeping only the most recent `SPAN_MEMORY_LIMIT`.
pub open spec fn remember_span(recent: Seq<SpanView>, span: SpanView) -> Seq<SpanView> {
    let all = recent.push(span);
    if all.len() > SPAN_MEMORY_LIMIT {
        all.subrange(all.len() - SPAN_MEMORY_LIMIT, all.len() as int)
    } else {
        all
    }
}

/// The chained events of a fired rule, in order.
pub open spec fn after_followers(
    o: Outcome,
    followers: Seq<(Seq<char>, int)>,
    rules: Seq<RuleView>,
    now: int,
    confidence: Score,
    transcript: Seq<char>,
) -> Outcome
    decreases followers.len(),
{
    if followers.len() == 0 {
        o
    } else {
        let before = after_followers(o, followers.drop_last(), rules, now, confidence, transcript);
        let (id, delay) = followers.last();
        let cooling = match first_rule(rules, id) {
            Some(k) => cooldown_left(before.engine.last_fired, id, rules[k].cooldown_ms, now),
            None => 0,
        };
        if cooling > 0 {
            Outcome {
                suppressed: before.suppressed.push(
                    SuppressedView { event_id: id, confidence, reason: ReasonView::Cooldown(cooling) },
                ),
                ..before
            }
        } else {
            Outcome {
                engine: EngineView {
                    last_fired: marked(before.engine.last_fired, id, now + delay),
                    recent: before.engine.recent,
                },
                triggers: before.triggers.push(
                    TriggerView { event_id: id, confidence, at_ms: now, delay_ms: delay, transcript },
                ),
                suppressed: before.suppressed,
            }
        }
    }
}

/// Whether the roll offered to a candidate goes against a rule's probability. The roll
/// is only drawn when the probability is below one.
pub open spec fn roll_loses(probability: Score, roll: Score) -> bool {
    float_lt(probability.bits, ONE_BITS) && float_ge(roll.bits, probability.bits)
}

/// One candidate of a detection, given the roll it is offered.
pub open spec fn after_candidate(
    o: Outcome,
    c: CandidateView,
    roll: Score,
    rules: Seq<RuleView>,
    now: int,
    transcript: Seq<char>,
) -> Outcome {
    if !c.accepted {
        o
    } else {
        match first_rule(rules, c.event_id) {
            None => o,
            Some(k) => {
                let rule = rules[k];
                let remaining = cooldown_left(o.engine.last_fired, c.event_id, rule.cooldown_ms, now);
                if remaining > 0 {
                    Outcome {
                        suppressed: o.suppressed.push(
                            SuppressedView {
                                event_id: c.event_id,
                                confidence: c.confidence,
                                reason: ReasonView::Cooldown(remaining),
                            },
                        ),
                        ..o
                    }
                } else if remembers(o.engine.recent, c.event_id, c.span) {
                    Outcome {
                        suppressed: o.suppressed.push(
                            SuppressedView {
                                event_id: c.event_id,
                                confidence: c.confidence,
                                reason: ReasonView::DuplicateSpan(c.span),
                            },
                        ),
                        ..o
                    }
                } else if roll_loses(rule.probability, roll) {
                    Outcome {
                        suppressed: o.suppressed.push(
                            SuppressedView {
                                event_id: c.event_id,
                                confidence: c.confidence,
                                reason: ReasonView::Probability(rule.probability),
                            },
                        ),
                        ..o
                    }
                } else {
                    let fired = Outcome {
                        engine: EngineView {
                            last_fired: marked(o.engine.last_fired, c.event_id, now),
                            recent: remember_span(
                                o.engine.recent,
                                SpanView { event_id: c.event_id, span: c.span, at_ms: now },
                            ),
                        },
                        triggers: o.triggers.push(
                            TriggerView {
                                event_id: c.event_id,
                                confidence: c.confidence,
                                at_ms: now,
                                delay_ms: 0,
                                transcript,
                            },
                        ),
                        suppressed: o.suppressed,
                    };
                    after_followers(fired, rule.followers, rules, now, c.confidence, transcript)
                }
            },
        }
    }
}

/// All candidates, in order, each with the roll offered to it.
pub open spec fn after_candidates(
    start: Outcome,
    candidates: Seq<CandidateView>,
    rolls: Seq<Score>,
    rules: Seq<RuleView>,
    now: int,
    transcript: Seq<char>,
) -> Outcome
    decreases candidates.len(),
{
    if candidates.len() == 0 {
        start
    } else {
        after_candidate(
            after_candidates(
                start,
                candidates.drop_last(),
                rolls.drop_last(),
                rules,
                now,
                transcript,
            ),
            candidates.last(),
            rolls.last(),
            rules,
            now,
            transcript,
        )
    }
}

/// A whole decision: old spans are forgotten, then every candidate is considered in
/// order. `rolls[i]` is what the roll gives the `i`th candidate if one is drawn for it.
pub open spec fn decide_model(
    engine: EngineView,
    candidates: Seq<CandidateView>,
    rolls: Seq<Score>,
    rules: Seq<RuleView>,
    now: int,
    transcript: Seq<char>,
) -> Outcome {
    let start = Outcome {
        engine: EngineView { last_fired: engine.last_fired, recent: forget_old(engine.recent, now) },
        triggers: Seq::empty(),
        suppressed: Seq::empty(),
    };
    after_candidates(start, candidates, rolls, rules, now, transcript)
}

/// Whether considering `c` draws a roll: it is accepted, has a rule, is past its
/// cooldown, has not fired on this phrase already, and its rule's probability is below
/// one.
pub open spec fn drew(o: Outcome, c: CandidateView, rules: Seq<RuleView>, now: int) -> bool {
    &&& c.accepted
    &&& first_rule(rules, c.event_id) matches Some(k) && {
        let rule = rules[k];
        &&& cooldown_left(o.engine.last_fired, c.event_id, rule.cooldown_ms, now) <= 0
        &&& !remembers(o.engine.recent, c.event_id, c.span)
        &&& float_lt(rule.probability.bits, ONE_BITS)
    }
}

/// All candidates, in order, drawing from `roll` exactly where a roll is drawn; what
/// the decision comes to and what the roll is left as.
pub open spec fn roll_steps<R: Roll>(
    start: Outcome,
    candidates: Seq<CandidateView>,
    roll: R,
    rules: Seq<RuleView>,
    now: int,
    transcript: Seq<char>,
) -> (Outcome, R)
    decreases candidates.len(),
{
    if candidates.len() == 0 {
        (start, roll)
    } else {
        let (o, r) = roll_steps(start, candidates.drop_last(), roll, rules, now, transcript);
        let c = candidates.last();
        if drew(o, c, rules, now) {
            (after_candidate(o, c, r.upcoming(), rules, now, transcript), r.after_draw())
        } else {
            (after_candidate(o, c, Score::zero(), rules, now, transcript), r)
        }
    }
}

/// What deciding `detection` against `rules` produces from `engine` with `roll`, and the
/// roll it leaves.
pub open spec fn decision_with<R: Roll>(
    engine: EngineView,
    detection: Detection,
    rules: Seq<TriggerRules>,
    roll: R,
) -> (Outcome, R) {
    let now = detection.timestamp_ms as int;
    let start = Outcome {
        engine: EngineView { last_fired: engine.last_fired, recent: forget_old(engine.recent, now) },
        triggers: Seq::empty(),
        suppressed: Seq::empty(),
    };
    roll_steps(
        start,
        candidates_view(detection.candidates@),
        roll,
        rules_view(rules),
        now,
        detection.transcript@,
    )
}

pub open spec fn triggers_view(triggers: Seq<Trigger>) -> Seq<TriggerView> {
    triggers.map_values(|t: Trigger| t@)
}

pub open spec fn suppressed_view(suppressed: Seq<Suppressed>) -> Seq<SuppressedView> {
    suppressed.map_values(|s: Suppressed| s@)
}

pub open spec fn candidates_view(candidates: Seq<Candidate>) -> Seq<CandidateView> {
    candidates.map_values(|c: Candidate| candidate_view(c))
}

/// What deciding `detection` against `rules` produces from `engine`, for the rolls
/// `rolls` offered to its candidates.
pub open spec fn decision_for(
    engine: EngineView,
    detection: Detection,
    rules: Seq<TriggerRules>,
    rolls: Seq<Score>,
) -> Outcome {
    decide_model(
        engine,
        candidates_view(detection.candidates@),
        rolls,
        rules_view(rules),
        detection.timestamp_ms as int,
        detection.transcript@,
    )
}

proof fn lemma_fired_entry_from(fired: Seq<(Seq<char>, int)>, id: Seq<char>, i: int)
    requires
        0 <= i,
    ensures
        fired_entry_from(fired, id, i) matches Some(k) ==> i <= k < fired.len() && fired[k].0
            == id && forall|j: int| i <= j < k ==> fired[j].0 != id,
        fired_entry_from(fired, id, i) is None ==> forall|j: int|
            i <= j < fired.len() ==> fired[j].0 != id,
    decreases fired.len() - i,
{
    if i < fired.len() && fired[i].0 != id {
        lemma_fired_entry_from(fired, id, i + 1);
    }
}

proof fn lemma_first_rule_from(rules: Seq<RuleView>, id: Seq<char>, i: int)
    requires
        0 <= i,
    ensures
        first_rule_from(rules, id, i) matches Some(k) ==> i <= k < rules.len()
            && rules[k].event_id == id && forall|j: int| i <= j < k ==> rules[j].event_id != id,
        first_rule_from(rules, id, i) is None ==> forall|j: int|
            i <= j < rules.len() ==> rules[j].event_id != id,
    decreases rules.len() - i,
{
    if i < rules.len() && rules[i].event_id != id {
        lemma_first_rule_from(rules, id, i + 1);
    }
}

/// Marking keeps one entry per event.
proof fn lemma_marked_wf(fired: Seq<(Seq<char>, int)>, id: Seq<char>, at: int)
    requires
        forall|i: int, j: int| 0 <= i < j < fired.len() ==> fired[i].0 != fired[j].0,
        forall|i: int| 0 <= i < fired.len() ==> time_ok(#[trigger] fired[i].1),
        time_ok(at),
    ensures
        forall|i: int|
            0 <= i < marked(fired, id, at).len() ==> time_ok(#[trigger] marked(fired, id, at)[i].1),
        forall|i: int, j: int|
            0 <= i < j < marked(fired, id, at).len() ==> marked(fired, id, at)[i].0 != marked(
                fired,
                id,
                at,
            )[j].0,
        fired_entry(marked(fired, id, at), id) matches Some(k) && marked(fired, id, at)[k].1
            == at,
{
    lemma_fired_entry_from(fired, id, 0);
    let m = marked(fired, id, at);
    lemma_fired_entry_from(m, id, 0);
    match fired_entry(fired, id) {
        Some(k) => {
            assert(m[k].0 == id);
            match fired_entry(m, id) {
                Some(k2) => {
                    if k2 < k {
                        assert(m[k2].0 == fired[k2].0);
                    }
                },
                None => {},
            }
        },
        None => {
            assert(m[fired.len() as int].0 == id);
            match fired_entry(m, id) {
                Some(k2) => {
                    if k2 < fired.len() {
                        assert(m[k2].0 == fired[k2].0);
                    }
                },
                None => {},
            }
        },
    }
}

fn first_rule_index(rules: &[TriggerRules], id: &str) -> (found: Option<usize>)
    ensures
        match found {
            Some(k) => first_rule(rules_view(rules@), id@) == Some(k as int),
            None => first_rule(rules_view(rules@), id@) is None,
        },
{
    let ghost rv = rules_view(rules@);
    let mut i: usize = 0;
    while i < rules.len()
        invariant
            rv == rules_view(rules@),
            i <= rules@.len(),
            first_rule(rv, id@) == first_rule_from(rv, id@, i as int),
        decreases rules@.len() - i,
    {
        if same_text(rules[i].event_id.as_str(), id) {
            return Some(i);
        }
        i = i + 1;
    }
    None
}

impl TriggerRules {
    pub fn new(event_id: &str, cooldown_ms: u32) -> (rules: Self)
        ensures
            rules@ == (RuleView {
                event_id: event_id@,
                cooldown_ms: cooldown_ms as int,
                probability: Score::one(),
                followers: Seq::empty(),
            }),
    {
        let rules = TriggerRules {
            event_id: event_id.to_string(),
            cooldown_ms,
            probability: Score::certain(),
            followers: Vec::new(),
        };
        assert(rules@.followers =~= Seq::empty());
        rules
    }

    pub fn with_probability(self, probability: Score) -> (rules: Self)
        ensures
            rules@ == (RuleView { probability, ..self@ }),
    {
        TriggerRules { probability, ..self }
    }

    pub fn with_follower(self, event_id: &str, delay_ms: u32) -> (rules: Self)
        ensures
            rules@ == (RuleView {
                followers: self@.followers.push((event_id@, delay_ms as int)),
                ..self@
            }),
    {
        let mut rules = self;
        rules.followers.push((event_id.to_string(), delay_ms));
        assert(rules@.followers =~= self@.followers.push((event_id@, delay_ms as int)));
        rules
    }
}

impl TriggerEngine {
    pub closed spec fn wf(&self) -> bool {
        engine_wf(self@)
    }

    /// The phrase memory stays bounded however long a session runs: every engine the
    /// library hands out, and every one `decide` leaves behind, remembers at most
    /// `SPAN_MEMORY_LIMIT` phrases, and records each event's firing time once.
    pub proof fn lemma_memory_stays_bounded(&self)
        requires
            self.wf(),
        ensures
            self@.recent.len() <= SPAN_MEMORY_LIMIT,
            forall|i: int, j: int|
                0 <= i < j < self@.last_fired.len() ==> self@.last_fired[i].0 != self@.last_fired[j].0,
    {
    }

    pub fn new() -> (engine: Self)
        ensures
            engine.wf(),
            engine@.last_fired.len() == 0,
            engine@.recent.len() == 0,
    {
        let engine = TriggerEngine { last_fired: Vec::new(), recent_spans: VecDeque::new() };
        assert(engine@.last_fired =~= Seq::empty());
        assert(engine@.recent =~= Seq::empty());
        engine
    }

    /// Forget everything. Used when a session starts.
    pub fn reset(&mut self)
        ensures
            final(self).wf(),
            final(self)@.last_fired.len() == 0,
            final(self)@.recent.len() == 0,
    {
        self.last_fired.clear();
        self.recent_spans.clear();
        assert(self@.last_fired =~= Seq::empty());
        assert(self@.recent =~= Seq::empty());
    }

    /// How many (event, phrase) pairs are currently remembered.
    pub fn remembered_spans(&self) -> (count: usize)
        ensures
            count == self@.recent.len(),
    {
        self.recent_spans.len()
    }

    /// How many events have a recorded firing time.
    pub fn tracked_events(&self) -> (count: usize)
        ensures
            count == self@.last_fired.len(),
    {
        self.last_fired.len()
    }

    fn fired_index(&self, event_id: &str) -> (found: Option<usize>)
        ensures
            match found {
                Some(k) => fired_entry(self@.last_fired, event_id@) == Some(k as int) && k
                    < self@.last_fired.len() && self@.last_fired[k as int].0 == event_id@,
                None => fired_entry(self@.last_fired, event_id@) is None,
            },
    {
        let ghost lf = self@.last_fired;
        proof {
            lemma_fired_entry_from(lf, event_id@, 0);
        }
        let mut i: usize = 0;
        while i < self.last_fired.len()
            invariant
                lf == self@.last_fired,
                i <= self.last_fired@.len(),
                fired_entry(lf, event_id@) == fired_entry_from(lf, event_id@, i as int),
                fired_entry(lf, event_id@) matches Some(k) ==> k < lf.len() && lf[k].0 == event_id@,
            decreases self.last_fired@.len() - i,
        {
            if same_text(self.last_fired[i].0.as_str(), event_id) {
                return Some(i);
            }
            i = i + 1;
        }
        None
    }

    fn cooldown_remaining(&self, event_id: &str, cooldown_ms: u32, now: i64) -> (remaining: i64)
        requires
            engine_wf(self@),
            time_ok(now as int),
        ensures
            remaining == cooldown_left(self@.last_fired, event_id@, cooldown_ms as int, now as int),
    {
        match self.fired_index(event_id) {
            Some(k) => {
                let at = self.last_fired[k].1;
                assert(self@.last_fired[k as int].1 == at as int);
                assert(time_ok(self@.last_fired[k as int].1));
                let remaining = (cooldown_ms as i64) - (now - at);
                if remaining > 0 {
                    remaining
                } else {
                    0
                }
            },
            None => 0,
        }
    }

    fn mark_fired(&mut self, event_id: &str, at_ms: i64)
        requires
            engine_wf(old(self)@),
            time_ok(at_ms as int),
        ensures
            final(self)@.last_fired == marked(old(self)@.last_fired, event_id@, at_ms as int),
            final(self)@.recent == old(self)@.recent,
            engine_wf(final(self)@),
    {
        proof {
            lemma_marked_wf(self@.last_fired, event_id@, at_ms as int);
        }
        match self.fired_index(event_id) {
            Some(k) => {
                let key = self.last_fired[k].0.clone();
                self.last_fired.set(k, (key, at_ms));
            },
            None => {
                self.last_fired.push((event_id.to_string(), at_ms));
            },
        }
        assert(self@.last_fired =~= marked(old(self)@.last_fired, event_id@, at_ms as int));
        assert(self@.recent =~= old(self)@.recent);
    }

    fn remembers_span(&self, event_id: &str, span: &str) -> (found: bool)
        ensures
            found == remembers(self@.recent, event_id@, span@),
    {
        let ghost rv = self@.recent;
        let mut i: usize = 0;
        while i < self.recent_spans.len()
            invariant
                rv == self@.recent,
                i <= rv.len(),
                forall|k: int|
                    0 <= k < i ==> !(#[trigger] rv[k].event_id == event_id@ && rv[k].span == span@),
            decreases rv.len() - i,
        {
            let recent = &self.recent_spans[i];
            if same_text(recent.event_id.as_str(), event_id) && same_text(recent.span.as_str(), span) {
                assert(rv[i as int].event_id == event_id@ && rv[i as int].span == span@);
                return true;
            }
            i = i + 1;
        }
        false
    }

    fn forget_old_spans(&mut self, now: i64)
        requires
            engine_wf(old(self)@),
            time_ok(now as int),
        ensures
            final(self)@.recent == forget_old(old(self)@.recent, now as int),
            final(self)@.last_fired == old(self)@.last_fired,
            engine_wf(final(self)@),
    {
        loop
            invariant
                forget_old(self@.recent, now as int) == forget_old(old(self)@.recent, now as int),
                self@.last_fired == old(self)@.last_fired,
                engine_wf(self@),
                time_ok(now as int),
            ensures
                self@.recent == forget_old(old(self)@.recent, now as int),
                self@.last_fired == old(self)@.last_fired,
                engine_wf(self@),
            decreases self@.recent.len(),
        {
            if self.recent_spans.len() == 0 {
                break;
            }
            let at = self.recent_spans[0].at_ms;
            assert(time_ok(self@.recent[0].at_ms));
            if now - at > SPAN_MEMORY_MS {
                let ghost before = self@.recent;
                let _ = self.recent_spans.pop_front();
                assert(self@.recent =~= before.drop_first());
                assert(self@.last_fired =~= old(self)@.last_fired);
            } else {
                break;
            }
        }
    }

    fn remember(&mut self, candidate: &Candidate, now: i64)
        requires
            engine_wf(old(self)@),
            time_ok(now as int),
        ensures
            final(self)@ == (EngineView {
                last_fired: marked(old(self)@.last_fired, candidate.event_id@, now as int),
                recent: remember_span(
                    old(self)@.recent,
                    SpanView { event_id: candidate.event_id@, span: candidate.matched_span@, at_ms: now as int },
                ),
            }),
            engine_wf(final(self)@),
    {
        self.mark_fired(candidate.event_id.as_str(), now);
        let ghost marked_fired = self@.last_fired;
        let ghost before = self@.recent;
        self.recent_spans.push_back(
            RecentSpan {
                event_id: candidate.event_id.clone(),
                span: candidate.matched_span.clone(),
                at_ms: now,
            },
        );
        let ghost all = before.push(
            SpanView { event_id: candidate.event_id@, span: candidate.matched_span@, at_ms: now as int },
        );
        assert(self@.recent =~= all);
        assert(self@.last_fired =~= marked_fired);
        while self.recent_spans.len() > SPAN_MEMORY_LIMIT
            invariant
                self@.last_fired == marked_fired,
                all.len() <= before.len() + 1,
                before.len() <= SPAN_MEMORY_LIMIT,
                self@.recent.len() <= all.len(),
                self@.recent.len() >= SPAN_MEMORY_LIMIT || self@.recent.len() == all.len(),
                self@.recent == all.subrange(all.len() - self@.recent.len(), all.len() as int),
            decreases self@.recent.len(),
        {
            let ghost current = self@.recent;
            let _ = self.recent_spans.pop_front();
            assert(self@.recent =~= current.drop_first());
            assert(self@.recent =~= all.subrange(all.len() - self@.recent.len(), all.len() as int));
            assert(self@.last_fired =~= marked_fired);
        }
        assert(self@.recent =~= remember_span(
            before,
            SpanView { event_id: candidate.event_id@, span: candidate.matched_span@, at_ms: now as int },
        ));
    }
}

impl TriggerEngine {
    /// The current state of a decision in progress.
    pub closed spec fn outcome(&self, triggers: Seq<Trigger>, suppressed: Seq<Suppressed>) -> Outcome {
        Outcome {
            engine: self@,
            triggers: triggers_view(triggers),
            suppressed: suppressed_view(suppressed),
        }
    }

    fn fire_followers(
        &mut self,
        rule: &TriggerRules,
        rules: &[TriggerRules],
        now: i64,
        confidence: Score,
        transcript: &String,
        triggers: &mut Vec<Trigger>,
        suppressed: &mut Vec<Suppressed>,
    )
        requires
            engine_wf(old(self)@),
            now_ok(now as int),
        ensures
            engine_wf(final(self)@),
            final(self).outcome(final(triggers)@, final(suppressed)@) == after_followers(
                old(self).outcome(old(triggers)@, old(suppressed)@),
                rule@.followers,
                rules_view(rules@),
                now as int,
                confidence,
                transcript@,
            ),
    {
        let ghost start = self.outcome(triggers@, suppressed@);
        let ghost fv = rule@.followers;
        let ghost rv = rules_view(rules@);
        let mut j: usize = 0;
        assert(fv.take(0) =~= Seq::<(Seq<char>, int)>::empty());
        while j < rule.followers.len()
            invariant
                fv == rule@.followers,
                rv == rules_view(rules@),
                j <= fv.len(),
                engine_wf(self@),
                now_ok(now as int),
                self.outcome(triggers@, suppressed@) == after_followers(
                    start,
                    fv.take(j as int),
                    rv,
                    now as int,
                    confidence,
                    transcript@,
                ),
            decreases fv.len() - j,
        {
            let follower_id = &rule.followers[j].0;
            let delay_ms = rule.followers[j].1;
            proof {
                assert(fv.take(j + 1).drop_last() =~= fv.take(j as int));
                assert(fv.take(j + 1).last() == (follower_id@, delay_ms as int));
            }
            let cooling = match first_rule_index(rules, follower_id.as_str()) {
                Some(f) => {
                    proof {
                        lemma_first_rule_from(rv, follower_id@, 0);
                    }
                    self.cooldown_remaining(rules[f].event_id.as_str(), rules[f].cooldown_ms, now)
                },
                None => 0,
            };
            let ghost tv = triggers@;
            let ghost sv = suppressed@;
            if cooling > 0 {
                suppressed.push(
                    Suppressed {
                        event_id: follower_id.clone(),
                        confidence,
                        reason: SuppressionReason::Cooldown { remaining_ms: cooling },
                    },
                );
                assert(suppressed_view(suppressed@) =~= suppressed_view(sv).push(suppressed@.last()@));
            } else {
                self.mark_fired(follower_id.as_str(), now + delay_ms as i64);
                triggers.push(
                    Trigger {
                        event_id: follower_id.clone(),
                        confidence,
                        at_ms: now,
                        delay_ms,
                        transcript: transcript.clone(),
                    },
                );
                assert(triggers_view(triggers@) =~= triggers_view(tv).push(triggers@.last()@));
            }
            j = j + 1;
        }
        assert(fv.take(fv.len() as int) =~= fv);
    }

    /// Consider one candidate; returns the roll it was offered (zero when none was
    /// drawn).
    fn consider<R: Roll>(
        &mut self,
        candidate: &Candidate,
        rules: &[TriggerRules],
        now: i64,
        transcript: &String,
        roll: &mut R,
        triggers: &mut Vec<Trigger>,
        suppressed: &mut Vec<Suppressed>,
    ) -> (offered: Ghost<Score>)
        requires
            engine_wf(old(self)@),
            now_ok(now as int),
        ensures
            engine_wf(final(self)@),
            final(self).outcome(final(triggers)@, final(suppressed)@) == after_candidate(
                old(self).outcome(old(triggers)@, old(suppressed)@),
                candidate_view(*candidate),
                offered@,
                rules_view(rules@),
                now as int,
                transcript@,
            ),
            if drew(
                old(self).outcome(old(triggers)@, old(suppressed)@),
                candidate_view(*candidate),
                rules_view(rules@),
                now as int,
            ) {
                offered@ == old(roll).upcoming() && *final(roll) == old(roll).after_draw()
            } else {
                offered@ == Score::zero() && *final(roll) == *old(roll)
            },
    {
        let ghost offered = Score { bits: 0 };
        let ghost rv = rules_view(rules@);
        let ghost tv = triggers@;
        let ghost sv = suppressed@;
        if !candidate.accepted {
            return Ghost(offered);
        }
        let k = match first_rule_index(rules, candidate.event_id.as_str()) {
            Some(k) => k,
            None => {
                return Ghost(offered);
            },
        };
        proof {
            lemma_first_rule_from(rv, candidate.event_id@, 0);
        }
        let rule = &rules[k];
        let remaining = self.cooldown_remaining(candidate.event_id.as_str(), rule.cooldown_ms, now);
        if remaining > 0 {
            suppressed.push(
                Suppressed {
                    event_id: candidate.event_id.clone(),
                    confidence: candidate.confidence,
                    reason: SuppressionReason::Cooldown { remaining_ms: remaining },
                },
            );
            assert(suppressed_view(suppressed@) =~= suppressed_view(sv).push(suppressed@.last()@));
            return Ghost(offered);
        }
        if self.remembers_span(candidate.event_id.as_str(), candidate.matched_span.as_str()) {
            suppressed.push(
                Suppressed {
                    event_id: candidate.event_id.clone(),
                    confidence: candidate.confidence,
                    reason: SuppressionReason::DuplicateSpan { span: candidate.matched_span.clone() },
                },
            );
            assert(suppressed_view(suppressed@) =~= suppressed_view(sv).push(suppressed@.last()@));
            return Ghost(offered);
        }
        let mut lost = false;
        if rule.probability.lt(Score::certain()) {
            let drawn = roll.next();
            proof {
                offered = drawn;
            }
            lost = drawn.ge(rule.probability);
        }
        if lost {
            suppressed.push(
                Suppressed {
                    event_id: candidate.event_id.clone(),
                    confidence: candidate.confidence,
                    reason: SuppressionReason::Probability { probability: rule.probability },
                },
            );
            assert(suppressed_view(suppressed@) =~= suppressed_view(sv).push(suppressed@.last()@));
            return Ghost(offered);
        }
        self.remember(candidate, now);
        triggers.push(
            Trigger {
                event_id: candidate.event_id.clone(),
                confidence: candidate.confidence,
                at_ms: now,
                delay_ms: 0,
                transcript: transcript.clone(),
            },
        );
        assert(triggers_view(triggers@) =~= triggers_view(tv).push(triggers@.last()@));
        self.fire_followers(rule, rules, now, candidate.confidence, transcript, triggers, suppressed);
        Ghost(offered)
    }

    /// Turn a detection into playback decisions. Accepted candidates are considered in
    /// order; each is suppressed by its cooldown, by an already-fired phrase or by its
    /// probability roll, or fires together with its chained events.
    pub fn decide<R: Roll>(&mut self, detection: &Detection, rules: &[TriggerRules], roll: &mut R) -> (decision: Decision)
        requires
            old(self).wf(),
            now_ok(detection.timestamp_ms as int),
        ensures
            final(self).wf(),
            // The decision is pinned by the rolls actually drawn (the clause below). Being
            // a run of the model, it is also `decision_for` some sequence of offered rolls,
            // which is how the laws stated over `decide_model` reach it.
            exists|rolls: Seq<Score>|
                #[trigger] decision_for(old(self)@, *detection, rules@, rolls) == (Outcome {
                    engine: final(self)@,
                    triggers: triggers_view(decision.triggers@),
                    suppressed: suppressed_view(decision.suppressed@),
                }),
            decision_with(old(self)@, *detection, rules@, *old(roll)) == (
                Outcome {
                    engine: final(self)@,
                    triggers: triggers_view(decision.triggers@),
                    suppressed: suppressed_view(decision.suppressed@),
                },
                *final(roll),
            ),
    {
        let now = detection.timestamp_ms;
        self.forget_old_spans(now);
        let mut triggers: Vec<Trigger> = Vec::new();
        let mut suppressed: Vec<Suppressed> = Vec::new();
        let ghost start = self.outcome(triggers@, suppressed@);
        let ghost cands = candidates_view(detection.candidates@);
        let ghost rv = rules_view(rules@);
        let ghost mut rolls: Seq<Score> = Seq::empty();
        proof {
            assert(triggers_view(triggers@) =~= Seq::<TriggerView>::empty());
            assert(suppressed_view(suppressed@) =~= Seq::<SuppressedView>::empty());
            assert(cands.take(0) =~= Seq::<CandidateView>::empty());
        }
        let mut i: usize = 0;
        while i < detection.candidates.len()
            invariant
                cands == candidates_view(detection.candidates@),
                rv == rules_view(rules@),
                i <= cands.len(),
                rolls.len() == i,
                engine_wf(self@),
                now == detection.timestamp_ms,
                now_ok(now as int),
                start.engine == (EngineView {
                    last_fired: old(self)@.last_fired,
                    recent: forget_old(old(self)@.recent, now as int),
                }),
                start.triggers.len() == 0,
                start.suppressed.len() == 0,
                self.outcome(triggers@, suppressed@) == after_candidates(
                    start,
                    cands.take(i as int),
                    rolls,
                    rv,
                    now as int,
                    detection.transcript@,
                ),
                (self.outcome(triggers@, suppressed@), *roll) == roll_steps(
                    start,
                    cands.take(i as int),
                    *old(roll),
                    rv,
                    now as int,
                    detection.transcript@,
                ),
            decreases cands.len() - i,
        {
            let offered = self.consider(
                &detection.candidates[i],
                rules,
                now,
                &detection.transcript,
                roll,
                &mut triggers,
                &mut suppressed,
            );
            proof {
                assert(cands.take(i + 1).drop_last() =~= cands.take(i as int));
                assert(rolls.push(offered@).drop_last() =~= rolls);
                rolls = rolls.push(offered@);
            }
            i = i + 1;
        }
        proof {
            assert(cands.take(cands.len() as int) =~= cands);
            assert(start =~= Outcome {
                engine: EngineView {
                    last_fired: old(self)@.last_fired,
                    recent: forget_old(old(self)@.recent, now as int),
                },
                triggers: Seq::empty(),
                suppressed: Seq::empty(),
            });
            assert(decision_for(old(self)@, *detection, rules@, rolls) == self.outcome(
                triggers@,
                suppressed@,
            ));
        }
        Decision { triggers, suppressed }
    }
}

// ---------------------------------------------------------------------------------------
// Laws.
// ---------------------------------------------------------------------------------------
/// Chained events only ever touch the firing times, never the phrase memory.
proof fn lemma_followers_keep_spans(
    o: Outcome,
    followers: Seq<(Seq<char>, int)>,
    rules: Seq<RuleView>,
    now: int,
    confidence: Score,
    transcript: Seq<char>,
)
    ensures
        after_followers(o, followers, rules, now, confidence, transcript).engine.recent
            == o.engine.recent,
        after_followers(o, followers, rules, now, confidence, transcript).triggers.len()
            >= o.triggers.len(),
    decreases followers.len(),
{
    if followers.len() > 0 {
        lemma_followers_keep_spans(o, followers.drop_last(), rules, now, confidence, transcript);
    }
}

/// Forgetting old spans never forgets one that is still inside the window when it is
/// the most recent one.
proof fn lemma_forget_keeps_recent_last(recent: Seq<SpanView>, now: int)
    requires
        recent.len() > 0,
        now - recent.last().at_ms <= SPAN_MEMORY_MS,
    ensures
        forget_old(recent, now).len() > 0,
        forget_old(recent, now).last() == recent.last(),
    decreases recent.len(),
{
    if now - recent[0].at_ms > SPAN_MEMORY_MS {
        assert(recent.len() > 1);
        assert(recent.drop_first().last() == recent.last());
        lemma_forget_keeps_recent_last(recent.drop_first(), now);
    }
}

/// Marking another event leaves this event's entry where it was.
proof fn lemma_marked_other(fired: Seq<(Seq<char>, int)>, other: Seq<char>, at: int, id: Seq<char>)
    requires
        other != id,
    ensures
        fired_entry(marked(fired, other, at), id) == fired_entry(fired, id),
        fired_entry(fired, id) matches Some(k) ==> marked(fired, other, at)[k] == fired[k],
{
    let m = marked(fired, other, at);
    lemma_fired_entry_from(fired, other, 0);
    lemma_fired_entry_from(fired, id, 0);
    lemma_fired_entry_from(m, id, 0);
    assert(forall|j: int| 0 <= j < fired.len() ==> m[j].0 == fired[j].0);
    match fired_entry(fired, id) {
        Some(k) => {
            match fired_entry(m, id) {
                Some(k2) => {
                    if k2 < k {
                        assert(m[k2].0 == fired[k2].0);
                    }
                },
                None => {
                    assert(m[k].0 == id);
                },
            }
        },
        None => {
            match fired_entry(m, id) {
                Some(k2) => {
                    if k2 < fired.len() {
                        assert(m[k2].0 == fired[k2].0);
                    }
                },
                None => {},
            }
        },
    }
}

/// An event's firing time, once at or after `since`, stays there while chained events
/// are scheduled at `now >= since`.
proof fn lemma_followers_keep_fired_after(
    o: Outcome,
    followers: Seq<(Seq<char>, int)>,
    rules: Seq<RuleView>,
    now: int,
    confidence: Score,
    transcript: Seq<char>,
    id: Seq<char>,
    since: int,
)
    requires
        now >= since,
        forall|f: int| 0 <= f < followers.len() ==> #[trigger] followers[f].1 >= 0,
        fired_entry(o.engine.last_fired, id) matches Some(k) && o.engine.last_fired[k].1 >= since,
    ensures
        fired_entry(
            after_followers(o, followers, rules, now, confidence, transcript).engine.last_fired,
            id,
        ) matches Some(k) && after_followers(
            o,
            followers,
            rules,
            now,
            confidence,
            transcript,
        ).engine.last_fired[k].1 >= since,
    decreases followers.len(),
{
    if followers.len() > 0 {
        lemma_followers_keep_fired_after(
            o,
            followers.drop_last(),
            rules,
            now,
            confidence,
            transcript,
            id,
            since,
        );
        let before = after_followers(o, followers.drop_last(), rules, now, confidence, transcript);
        let (fid, delay) = followers.last();
        assert(followers.last().1 >= 0);
        if fid == id {
            lemma_fired_entry_from(before.engine.last_fired, id, 0);
            lemma_fired_entry_from(marked(before.engine.last_fired, id, now + delay), id, 0);
            let m = marked(before.engine.last_fired, id, now + delay);
            let k = fired_entry(before.engine.last_fired, id)->0;
            assert(m[k].0 == id);
            match fired_entry(m, id) {
                Some(k2) => {
                    if k2 < k {
                        assert(m[k2].0 == before.engine.last_fired[k2].0);
                    }
                },
                None => {},
            }
        } else {
            lemma_marked_other(before.engine.last_fired, fid, now + delay, id);
        }
    }
}

/// A detection with a single candidate fires it (as the first trigger) exactly when
/// nothing held it back; this extracts what that leaves behind.
proof fn lemma_single_fired(
    engine: EngineView,
    c: CandidateView,
    roll: Score,
    rules: Seq<RuleView>,
    now: int,
    transcript: Seq<char>,
)
    requires
        decide_model(engine, seq![c], seq![roll], rules, now, transcript).triggers.len() > 0,
    ensures
        c.accepted,
        first_rule(rules, c.event_id) is Some,
        ({
            let out = decide_model(engine, seq![c], seq![roll], rules, now, transcript);
            let k = first_rule(rules, c.event_id)->0;
            &&& out.engine.recent.len() > 0
            &&& out.engine.recent.last() == (SpanView {
                event_id: c.event_id,
                span: c.span,
                at_ms: now,
            })
            &&& (forall|f: int|
                0 <= f < rules[k].followers.len() ==> #[trigger] rules[k].followers[f].1 >= 0) ==> (
            fired_entry(out.engine.last_fired, c.event_id) matches Some(e)
                && out.engine.last_fired[e].1 >= now)
        }),
{
    let start = Outcome {
        engine: EngineView { last_fired: engine.last_fired, recent: forget_old(engine.recent, now) },
        triggers: Seq::empty(),
        suppressed: Seq::empty(),
    };
    let cands = seq![c];
    assert(cands.drop_last() =~= Seq::<CandidateView>::empty());
    assert(seq![roll].drop_last() =~= Seq::<Score>::empty());
    assert(after_candidates(start, cands.drop_last(), seq![roll].drop_last(), rules, now, transcript)
        == start);
    let out = decide_model(engine, cands, seq![roll], rules, now, transcript);
    assert(out == after_candidate(start, c, roll, rules, now, transcript));
    let k = first_rule(rules, c.event_id)->0;
    let rule = rules[k];
    let fired = Outcome {
        engine: EngineView {
            last_fired: marked(start.engine.last_fired, c.event_id, now),
            recent: remember_span(
                start.engine.recent,
                SpanView { event_id: c.event_id, span: c.span, at_ms: now },
            ),
        },
        triggers: start.triggers.push(
            TriggerView {
                event_id: c.event_id,
                confidence: c.confidence,
                at_ms: now,
                delay_ms: 0,
                transcript,
            },
        ),
        suppressed: start.suppressed,
    };
    lemma_followers_keep_spans(fired, rule.followers, rules, now, c.confidence, transcript);
    let all = start.engine.recent.push(SpanView { event_id: c.event_id, span: c.span, at_ms: now });
    assert(remember_span(start.engine.recent, SpanView { event_id: c.event_id, span: c.span, at_ms: now }).last()
        == all.last());
    lemma_fired_entry_from(start.engine.last_fired, c.event_id, 0);
    lemma_fired_entry_from(fired.engine.last_fired, c.event_id, 0);
    let m = fired.engine.last_fired;
    match fired_entry(start.engine.last_fired, c.event_id) {
        Some(e) => {
            assert(m[e].0 == c.event_id);
            match fired_entry(m, c.event_id) {
                Some(e2) => {
                    if e2 < e {
                        assert(m[e2].0 == start.engine.last_fired[e2].0);
                    }
                },
                None => {},
            }
        },
        None => {
            assert(m[start.engine.last_fired.len() as int].0 == c.event_id);
            match fired_entry(m, c.event_id) {
                Some(e2) => {
                    if e2 < start.engine.last_fired.len() {
                        assert(m[e2].0 == start.engine.last_fired[e2].0);
                    }
                },
                None => {},
            }
        },
    }
    if forall|f: int| 0 <= f < rule.followers.len() ==> #[trigger] rule.followers[f].1 >= 0 {
        lemma_followers_keep_fired_after(
            fired,
            rule.followers,
            rules,
            now,
            c.confidence,
            transcript,
            c.event_id,
            now,
        );
    }
}

/// The same phrase never fires the same event twice within the phrase memory: once a
/// detection fires a candidate, a later detection (up to `SPAN_MEMORY_MS` later) whose
/// candidate has the same event and the same matched phrase is suppressed, whatever
/// the rolls and whatever the cooldown, and nothing fires.
pub proof fn lemma_a_fired_phrase_never_fires_twice(
    engine: EngineView,
    first: CandidateView,
    second: CandidateView,
    first_roll: Score,
    second_roll: Score,
    rules: Seq<RuleView>,
    first_now: int,
    second_now: int,
    first_transcript: Seq<char>,
    second_transcript: Seq<char>,
)
    requires
        second.accepted,
        second.event_id == first.event_id,
        second.span == first.span,
        first_now <= second_now <= first_now + SPAN_MEMORY_MS,
        decide_model(engine, seq![first], seq![first_roll], rules, first_now, first_transcript).triggers.len()
            > 0,
    ensures
        ({
            let after_first = decide_model(
                engine,
                seq![first],
                seq![first_roll],
                rules,
                first_now,
                first_transcript,
            );
            let after_second = decide_model(
                after_first.engine,
                seq![second],
                seq![second_roll],
                rules,
                second_now,
                second_transcript,
            );
            after_second.triggers.len() == 0 && after_second.suppressed.len() == 1
        }),
{
    lemma_single_fired(engine, first, first_roll, rules, first_now, first_transcript);
    let after_first = decide_model(engine, seq![first], seq![first_roll], rules, first_now, first_transcript);
    let recent = after_first.engine.recent;
    lemma_forget_keeps_recent_last(recent, second_now);
    let kept = forget_old(recent, second_now);
    let start = Outcome {
        engine: EngineView { last_fired: after_first.engine.last_fired, recent: kept },
        triggers: Seq::empty(),
        suppressed: Seq::empty(),
    };
    assert(seq![second].drop_last() =~= Seq::<CandidateView>::empty());
    assert(seq![second_roll].drop_last() =~= Seq::<Score>::empty());
    assert(remembers(kept, second.event_id, second.span)) by {
        assert(kept[kept.len() - 1].event_id == second.event_id);
    }
    assert(after_candidates(start, seq![second].drop_last(), seq![second_roll].drop_last(), rules, second_now, second_transcript) == start);
    let after_second = decide_model(after_first.engine, seq![second], seq![second_roll], rules, second_now, second_transcript);
    assert(after_second == after_candidate(start, second, second_roll, rules, second_now, second_transcript));
}

/// An event that fired is held back by its cooldown: a later detection of the same
/// event, before `cooldown_ms` has passed, fires nothing and is suppressed for the
/// cooldown.
pub proof fn lemma_cooldown_holds_an_event_back(
    engine: EngineView,
    first: CandidateView,
    second: CandidateView,
    first_roll: Score,
    second_roll: Score,
    rules: Seq<RuleView>,
    first_now: int,
    second_now: int,
    first_transcript: Seq<char>,
    second_transcript: Seq<char>,
)
    requires
        forall|r: int, f: int|
            0 <= r < rules.len() && 0 <= f < rules[r].followers.len()
                ==> #[trigger] rules[r].followers[f].1 >= 0,
        second.accepted,
        second.event_id == first.event_id,
        decide_model(engine, seq![first], seq![first_roll], rules, first_now, first_transcript).triggers.len()
            > 0,
        first_now <= second_now < first_now + rules[first_rule(rules, first.event_id)->0].cooldown_ms,
    ensures
        ({
            let after_first = decide_model(
                engine,
                seq![first],
                seq![first_roll],
                rules,
                first_now,
                first_transcript,
            );
            let after_second = decide_model(
                after_first.engine,
                seq![second],
                seq![second_roll],
                rules,
                second_now,
                second_transcript,
            );
            &&& after_second.triggers.len() == 0
            &&& after_second.suppressed.len() == 1
            &&& after_second.suppressed[0].reason is Cooldown
        }),
{
    lemma_single_fired(engine, first, first_roll, rules, first_now, first_transcript);
    lemma_first_rule_from(rules, first.event_id, 0);
    let k = first_rule(rules, first.event_id)->0;
    assert(forall|f: int|
        0 <= f < rules[k].followers.len() ==> #[trigger] rules[k].followers[f].1 >= 0);
    let after_first = decide_model(engine, seq![first], seq![first_roll], rules, first_now, first_transcript);
    assert(seq![second].drop_last() =~= Seq::<CandidateView>::empty());
    assert(seq![second_roll].drop_last() =~= Seq::<Score>::empty());
    let e = fired_entry(after_first.engine.last_fired, first.event_id)->0;
    assert(after_first.engine.last_fired[e].1 >= first_now);
    let start = Outcome {
        engine: EngineView {
            last_fired: after_first.engine.last_fired,
            recent: forget_old(after_first.engine.recent, second_now),
        },
        triggers: Seq::empty(),
        suppressed: Seq::empty(),
    };
    assert(after_candidates(start, seq![second].drop_last(), seq![second_roll].drop_last(), rules, second_now, second_transcript) == start);
    let after_second = decide_model(after_first.engine, seq![second], seq![second_roll], rules, second_now, second_transcript);
    assert(after_second == after_candidate(start, second, second_roll, rules, second_now, second_transcript));
    assert(cooldown_left(start.engine.last_fired, second.event_id, rules[k].cooldown_ms, second_now) > 0);
}

/// Without an accepted candidate that has rules, a decision fires nothing and
/// suppresses nothing.
pub proof fn lemma_no_ruled_acceptance_no_decision(
    engine: EngineView,
    candidates: Seq<CandidateView>,
    rolls: Seq<Score>,
    rules: Seq<RuleView>,
    now: int,
    transcript: Seq<char>,
)
    requires
        forall|i: int|
            0 <= i < candidates.len() ==> !(#[trigger] candidates[i]).accepted || first_rule(
                rules,
                candidates[i].event_id,
            ) is None,
    ensures
        decide_model(engine, candidates, rolls, rules, now, transcript).triggers.len() == 0,
        decide_model(engine, candidates, rolls, rules, now, transcript).suppressed.len() == 0,
    decreases candidates.len(),
{
    let start = Outcome {
        engine: EngineView { last_fired: engine.last_fired, recent: forget_old(engine.recent, now) },
        triggers: Seq::empty(),
        suppressed: Seq::empty(),
    };
    lemma_nothing_happens(start, candidates, rolls, rules, now, transcript);
}

proof fn lemma_nothing_happens(
    start: Outcome,
    candidates: Seq<CandidateView>,
    rolls: Seq<Score>,
    rules: Seq<RuleView>,
    now: int,
    transcript: Seq<char>,
)
    requires
        forall|i: int|
            0 <= i < candidates.len() ==> !(#[trigger] candidates[i]).accepted || first_rule(
                rules,
                candidates[i].event_id,
            ) is None,
    ensures
        after_candidates(start, candidates, rolls, rules, now, transcript) == start,
    decreases candidates.len(),
{
    if candidates.len() > 0 {
        assert(!candidates[candidates.len() - 1].accepted || first_rule(
            rules,
            candidates[candidates.len() - 1].event_id,
        ) is None);
        lemma_nothing_happens(start, candidates.drop_last(), rolls.drop_last(), rules, now, transcript);
    }
}

/// Marking an event records the time given for it.
proof fn lemma_marked_records(fired: Seq<(Seq<char>, int)>, id: Seq<char>, at: int)
    ensures
        fired_entry(marked(fired, id, at), id) matches Some(k) && marked(fired, id, at)[k].1 == at,
{
    let m = marked(fired, id, at);
    lemma_fired_entry_from(fired, id, 0);
    lemma_fired_entry_from(m, id, 0);
    match fired_entry(fired, id) {
        Some(k) => {
            assert(m[k].0 == id);
            if let Some(k2) = fired_entry(m, id) {
                if k2 < k {
                    assert(m[k2] == fired[k2]);
                }
            }
        },
        None => {
            assert(m[fired.len() as int].0 == id);
            if let Some(k2) = fired_entry(m, id) {
                if k2 < fired.len() {
                    assert(m[k2] == fired[k2]);
                }
            }
        },
    }
}

/// A chained event cools down from when it plays, not from when it was scheduled: once
/// a follower with delay `d` fires at `now`, its cooldown `c` has `c - (t - (now + d))`
/// left at any time `t`, and none once that is spent.
pub proof fn lemma_a_follower_cools_down_from_when_it_plays(
    o: Outcome,
    followers: Seq<(Seq<char>, int)>,
    rules: Seq<RuleView>,
    now: int,
    confidence: Score,
    transcript: Seq<char>,
    cooldown_ms: int,
    t: int,
)
    requires
        followers.len() > 0,
        after_followers(o, followers, rules, now, confidence, transcript).triggers.len()
            > after_followers(o, followers.drop_last(), rules, now, confidence, transcript).triggers.len(),
    ensures
        ({
            let (id, delay) = followers.last();
            let after = after_followers(o, followers, rules, now, confidence, transcript);
            let left = cooldown_ms - (t - (now + delay));
            &&& cooldown_left(after.engine.last_fired, id, cooldown_ms, t) == if left > 0 {
                left
            } else {
                0
            }
            &&& after.triggers.last().event_id == id
            &&& after.triggers.last().delay_ms == delay
            &&& after.triggers.last().at_ms == now
        }),
{
    let (id, delay) = followers.last();
    let before = after_followers(o, followers.drop_last(), rules, now, confidence, transcript);
    lemma_marked_records(before.engine.last_fired, id, now + delay);
}

/// Every trigger in `o` is stamped with the detection's time and transcript.
pub open spec fn stamped(o: Outcome, now: int, transcript: Seq<char>) -> bool {
    forall|i: int|
        0 <= i < o.triggers.len() ==> (#[trigger] o.triggers[i]).at_ms == now
            && o.triggers[i].transcript == transcript
}

proof fn lemma_followers_stay_stamped(
    o: Outcome,
    followers: Seq<(Seq<char>, int)>,
    rules: Seq<RuleView>,
    now: int,
    confidence: Score,
    transcript: Seq<char>,
)
    requires
        stamped(o, now, transcript),
    ensures
        stamped(after_followers(o, followers, rules, now, confidence, transcript), now, transcript),
    decreases followers.len(),
{
    if followers.len() > 0 {
        lemma_followers_stay_stamped(o, followers.drop_last(), rules, now, confidence, transcript);
        let before = after_followers(o, followers.drop_last(), rules, now, confidence, transcript);
        let after = after_followers(o, followers, rules, now, confidence, transcript);
        assert forall|i: int| 0 <= i < after.triggers.len() implies (#[trigger] after.triggers[i]).at_ms
            == now && after.triggers[i].transcript == transcript by {
            if i < before.triggers.len() {
                assert(after.triggers[i] == before.triggers[i]);
            }
        }
    }
}

proof fn lemma_candidates_stay_stamped(
    start: Outcome,
    candidates: Seq<CandidateView>,
    rolls: Seq<Score>,
    rules: Seq<RuleView>,
    now: int,
    transcript: Seq<char>,
)
    requires
        stamped(start, now, transcript),
    ensures
        stamped(after_candidates(start, candidates, rolls, rules, now, transcript), now, transcript),
    decreases candidates.len(),
{
    if candidates.len() > 0 {
        lemma_candidates_stay_stamped(start, candidates.drop_last(), rolls.drop_last(), rules, now, transcript);
        let o = after_candidates(start, candidates.drop_last(), rolls.drop_last(), rules, now, transcript);
        let c = candidates.last();
        let roll = rolls.last();
        if c.accepted {
            if let Some(k) = first_rule(rules, c.event_id) {
                let rule = rules[k];
                if cooldown_left(o.engine.last_fired, c.event_id, rule.cooldown_ms, now) <= 0
                    && !remembers(o.engine.recent, c.event_id, c.span) && !roll_loses(rule.probability, roll) {
                    let fired = Outcome {
                        engine: EngineView {
                            last_fired: marked(o.engine.last_fired, c.event_id, now),
                            recent: remember_span(
                                o.engine.recent,
                                SpanView { event_id: c.event_id, span: c.span, at_ms: now },
                            ),
                        },
                        triggers: o.triggers.push(
                            TriggerView {
                                event_id: c.event_id,
                                confidence: c.confidence,
                                at_ms: now,
                                delay_ms: 0,
                                transcript,
                            },
                        ),
                        suppressed: o.suppressed,
                    };
                    assert forall|i: int| 0 <= i < fired.triggers.len() implies (#[trigger] fired.triggers[i]).at_ms
                        == now && fired.triggers[i].transcript == transcript by {
                        if i < o.triggers.len() {
                            assert(fired.triggers[i] == o.triggers[i]);
                        }
                    }
                    lemma_followers_stay_stamped(fired, rule.followers, rules, now, c.confidence, transcript);
                }
            }
        }
    }
}

/// Every trigger a decision fires, chained ones included, carries the detection's
/// timestamp and transcript, whatever the rolls.
pub proof fn lemma_triggers_carry_their_detection(
    engine: EngineView,
    candidates: Seq<CandidateView>,
    rolls: Seq<Score>,
    rules: Seq<RuleView>,
    now: int,
    transcript: Seq<char>,
)
    ensures
        stamped(decide_model(engine, candidates, rolls, rules, now, transcript), now, transcript),
{
    let start = Outcome {
        engine: EngineView { last_fired: engine.last_fired, recent: forget_old(engine.recent, now) },
        triggers: Seq::empty(),
        suppressed: Seq::empty(),
    };
    lemma_candidates_stay_stamped(start, candidates, rolls, rules, now, transcript);
}

/// A reset engine decides exactly as a new one: two engines that both remember nothing
/// (one just made, one just reset) give the same decision on the same detection, rules
/// and roll, and leave the roll alike.
pub proof fn lemma_reset_decides_as_new<R: Roll>(
    reset: EngineView,
    fresh: EngineView,
    detection: Detection,
    rules: Seq<TriggerRules>,
    roll: R,
)
    requires
        reset.last_fired.len() == 0,
        reset.recent.len() == 0,
        fresh.last_fired.len() == 0,
        fresh.recent.len() == 0,
    ensures
        decision_with(reset, detection, rules, roll) == decision_with(fresh, detection, rules, roll),
{
    assert(reset.last_fired =~= fresh.last_fired);
    assert(reset.recent =~= fresh.recent);
    assert(reset == fresh);
}

} // verus!
