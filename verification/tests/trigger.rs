use dndsound::detect::engine::{Candidate, Detection, MatchLayer};
use dndsound::detect::score::Score;
use dndsound::detect::trigger::{
    AlwaysRoll, Roll, SuppressionReason, TriggerEngine, TriggerRules, SPAN_MEMORY_LIMIT,
    SPAN_MEMORY_MS,
};

fn score(value: f32) -> Score {
    Score { bits: value.to_bits() }
}

fn candidate(event_id: &str, span: &str) -> Candidate {
    Candidate {
        event_id: event_id.to_string(),
        confidence: score(0.9),
        threshold: score(0.82),
        layer: MatchLayer::ExactPhrase,
        matched_span: span.to_string(),
        accepted: true,
        rejection: None,
        action_word: None,
    }
}

fn detection(at_ms: i64, candidates: Vec<Candidate>) -> Detection {
    Detection {
        transcript: "the knight swings his sword".to_string(),
        normalized: "the knight swings his sword".to_string(),
        is_final: true,
        timestamp_ms: at_ms,
        candidates,
        elapsed_us: 0,
    }
}

/// A roll that returns a fixed sequence, so probability tests are deterministic.
struct ScriptedRoll(std::vec::IntoIter<f32>);

impl Roll for ScriptedRoll {
    fn upcoming(&self) -> Score {
        score(self.0.clone().next().unwrap_or(0.0))
    }

    fn after_draw(&self) -> Self {
        let mut rest = self.0.clone();
        rest.next();
        ScriptedRoll(rest)
    }

    fn next(&mut self) -> Score {
        score(self.0.next().unwrap_or(0.0))
    }
}

#[test]
fn an_accepted_candidate_fires() {
    let mut engine = TriggerEngine::new();
    let rules = vec![TriggerRules::new("SWORD_SWING", 1_500)];

    let decision = engine.decide(
        &detection(0, vec![candidate("SWORD_SWING", "swings his sword")]),
        &rules,
        &mut AlwaysRoll,
    );

    assert_eq!(decision.triggers.len(), 1);
    assert_eq!(decision.triggers[0].event_id, "SWORD_SWING");
    assert!(decision.suppressed.is_empty());
}

#[test]
fn the_same_event_is_suppressed_during_its_cooldown() {
    let mut engine = TriggerEngine::new();
    let rules = vec![TriggerRules::new("SWORD_SWING", 1_500)];

    engine.decide(
        &detection(0, vec![candidate("SWORD_SWING", "swings his sword")]),
        &rules,
        &mut AlwaysRoll,
    );

    let decision = engine.decide(
        &detection(500, vec![candidate("SWORD_SWING", "slashes at you")]),
        &rules,
        &mut AlwaysRoll,
    );

    assert!(decision.triggers.is_empty());
    assert!(matches!(
        decision.suppressed[0].reason,
        SuppressionReason::Cooldown { remaining_ms } if remaining_ms == 1_000
    ));
}

#[test]
fn the_event_fires_again_once_the_cooldown_expires() {
    let mut engine = TriggerEngine::new();
    let rules = vec![TriggerRules::new("SWORD_SWING", 1_500)];

    engine.decide(
        &detection(0, vec![candidate("SWORD_SWING", "swings his sword")]),
        &rules,
        &mut AlwaysRoll,
    );
    let decision = engine.decide(
        &detection(1_600, vec![candidate("SWORD_SWING", "slashes at you")]),
        &rules,
        &mut AlwaysRoll,
    );

    assert_eq!(decision.triggers.len(), 1);
}

#[test]
fn the_same_phrase_never_fires_twice_even_after_the_cooldown() {
    let mut engine = TriggerEngine::new();
    let rules = vec![TriggerRules::new("SWORD_SWING", 100)];

    engine.decide(
        &detection(0, vec![candidate("SWORD_SWING", "swings his sword")]),
        &rules,
        &mut AlwaysRoll,
    );
    let decision = engine.decide(
        &detection(2_000, vec![candidate("SWORD_SWING", "swings his sword")]),
        &rules,
        &mut AlwaysRoll,
    );

    assert!(decision.triggers.is_empty());
    assert!(matches!(
        decision.suppressed[0].reason,
        SuppressionReason::DuplicateSpan { .. }
    ));
}

#[test]
fn a_partial_transcript_firing_stops_the_final_one_firing_again() {
    let mut engine = TriggerEngine::new();
    let rules = vec![TriggerRules::new("OPEN_DOOR", 2_500)];

    let mut partial = detection(0, vec![candidate("OPEN_DOOR", "opens the door")]);
    partial.is_final = false;
    assert_eq!(
        engine
            .decide(&partial, &rules, &mut AlwaysRoll)
            .triggers
            .len(),
        1
    );

    let final_transcript = detection(400, vec![candidate("OPEN_DOOR", "opens the door")]);
    assert!(engine
        .decide(&final_transcript, &rules, &mut AlwaysRoll)
        .triggers
        .is_empty());
}

#[test]
fn a_forgotten_phrase_can_fire_again_much_later() {
    let mut engine = TriggerEngine::new();
    let rules = vec![TriggerRules::new("OPEN_DOOR", 1_000)];

    engine.decide(
        &detection(0, vec![candidate("OPEN_DOOR", "opens the door")]),
        &rules,
        &mut AlwaysRoll,
    );

    let decision = engine.decide(
        &detection(
            SPAN_MEMORY_MS + 1_000,
            vec![candidate("OPEN_DOOR", "opens the door")],
        ),
        &rules,
        &mut AlwaysRoll,
    );

    assert_eq!(decision.triggers.len(), 1);
}

#[test]
fn probability_suppresses_some_triggers_and_says_so() {
    let mut engine = TriggerEngine::new();
    let rules = vec![TriggerRules::new("THUNDER", 0).with_probability(score(0.5))];

    let mut roll = ScriptedRoll(vec![0.9].into_iter());
    let decision = engine.decide(
        &detection(0, vec![candidate("THUNDER", "thunder rolls")]),
        &rules,
        &mut roll,
    );

    assert!(decision.triggers.is_empty());
    assert!(matches!(
        decision.suppressed[0].reason,
        SuppressionReason::Probability { .. }
    ));

    let mut roll = ScriptedRoll(vec![0.1].into_iter());
    let decision = engine.decide(
        &detection(1_000, vec![candidate("THUNDER", "thunder crashes")]),
        &rules,
        &mut roll,
    );
    assert_eq!(decision.triggers.len(), 1);
}

#[test]
fn chained_events_fire_with_their_delay() {
    let mut engine = TriggerEngine::new();
    let rules = vec![
        TriggerRules::new("DRAW_SWORD", 1_000).with_follower("SWORD_SWING", 450),
        TriggerRules::new("SWORD_SWING", 1_000),
    ];

    let decision = engine.decide(
        &detection(0, vec![candidate("DRAW_SWORD", "draws his sword")]),
        &rules,
        &mut AlwaysRoll,
    );

    assert_eq!(decision.triggers.len(), 2);
    assert_eq!(decision.triggers[0].event_id, "DRAW_SWORD");
    assert_eq!(decision.triggers[0].delay_ms, 0);
    assert_eq!(decision.triggers[1].event_id, "SWORD_SWING");
    assert_eq!(decision.triggers[1].delay_ms, 450);
}

#[test]
fn a_chained_event_still_respects_its_own_cooldown() {
    let mut engine = TriggerEngine::new();
    let rules = vec![
        TriggerRules::new("DRAW_SWORD", 0).with_follower("SWORD_SWING", 450),
        TriggerRules::new("SWORD_SWING", 5_000),
    ];

    engine.decide(
        &detection(0, vec![candidate("SWORD_SWING", "swings his sword")]),
        &rules,
        &mut AlwaysRoll,
    );

    let decision = engine.decide(
        &detection(500, vec![candidate("DRAW_SWORD", "draws his sword")]),
        &rules,
        &mut AlwaysRoll,
    );

    assert_eq!(decision.triggers.len(), 1, "only the parent should fire");
    assert_eq!(decision.triggers[0].event_id, "DRAW_SWORD");
    assert!(decision
        .suppressed
        .iter()
        .any(|s| s.event_id == "SWORD_SWING"));
}

#[test]
fn candidates_without_rules_are_ignored_rather_than_firing_blind() {
    let mut engine = TriggerEngine::new();
    let decision = engine.decide(
        &detection(0, vec![candidate("UNKNOWN_EVENT", "whatever")]),
        &[],
        &mut AlwaysRoll,
    );

    assert!(decision.triggers.is_empty());
    assert!(decision.suppressed.is_empty());
}

#[test]
fn rejected_candidates_never_reach_the_trigger_engine() {
    let mut engine = TriggerEngine::new();
    let mut rejected = candidate("SWORD_SWING", "sword");
    rejected.accepted = false;

    let decision = engine.decide(
        &detection(0, vec![rejected]),
        &[TriggerRules::new("SWORD_SWING", 0)],
        &mut AlwaysRoll,
    );

    assert!(decision.triggers.is_empty());
}

#[test]
fn span_memory_stays_bounded_across_a_long_session() {
    let mut engine = TriggerEngine::new();
    let rules = vec![TriggerRules::new("OPEN_DOOR", 0)];

    for i in 0..1_000 {
        let at = i as i64 * 100;
        engine.decide(
            &detection(at, vec![candidate("OPEN_DOOR", &format!("phrase {i}"))]),
            &rules,
            &mut AlwaysRoll,
        );
    }

    assert!(
        engine.remembered_spans() <= SPAN_MEMORY_LIMIT,
        "span memory grew to {}",
        engine.remembered_spans()
    );
    assert_eq!(engine.tracked_events(), 1);
}

#[test]
fn resetting_clears_the_history() {
    let mut engine = TriggerEngine::new();
    let rules = vec![TriggerRules::new("OPEN_DOOR", 10_000)];

    engine.decide(
        &detection(0, vec![candidate("OPEN_DOOR", "opens the door")]),
        &rules,
        &mut AlwaysRoll,
    );
    engine.reset();

    let decision = engine.decide(
        &detection(100, vec![candidate("OPEN_DOOR", "opens the door")]),
        &rules,
        &mut AlwaysRoll,
    );
    assert_eq!(decision.triggers.len(), 1, "a reset session starts clean");
}

#[test]
fn every_suppression_without_a_fraction_explains_itself_in_words() {
    assert_eq!(
        SuppressionReason::Cooldown { remaining_ms: 800 }.explain(),
        Some("still cooling down for another 800 ms".to_string())
    );
    assert_eq!(
        SuppressionReason::Cooldown { remaining_ms: -5 }.explain(),
        Some("still cooling down for another -5 ms".to_string())
    );
    assert_eq!(
        SuppressionReason::DuplicateSpan { span: "swings his sword".to_string() }.explain(),
        Some("'swings his sword' already triggered this event".to_string())
    );
    assert_eq!(
        SuppressionReason::Probability { probability: score(0.5) }.explain(),
        None
    );
}

#[test]
fn every_trigger_carries_its_detection_time_and_transcript() {
    let mut engine = TriggerEngine::new();
    let rules = vec![
        TriggerRules::new("DRAW_SWORD", 0).with_follower("SWORD_SWING", 450),
        TriggerRules::new("SWORD_SWING", 0),
    ];
    let decision = engine.decide(
        &detection(2_500, vec![candidate("DRAW_SWORD", "draws his sword")]),
        &rules,
        &mut AlwaysRoll,
    );
    assert_eq!(decision.triggers.len(), 2);
    for trigger in &decision.triggers {
        assert_eq!(trigger.at_ms, 2_500);
        assert_eq!(trigger.transcript, "the knight swings his sword");
    }
    assert_eq!(decision.triggers[1].delay_ms, 450);
}
