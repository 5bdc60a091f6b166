use dndsound::detect::engine::{
    irrealis_marker, prepare, Candidate, Detection, InvertedIndex, MatchLayer, Prepared,
    add_vouched, missing_action, rank_candidates, rejection_for, RejectionReason, Screen,
};
use dndsound::detect::event::{terms, EventDefinition, Lang, Phrase, Term, TermKind};
use dndsound::detect::fuzzy::{budget_for, distance_within};
use dndsound::detect::normalize::{normalize, normalize_text};
use dndsound::detect::score::Score;
use dndsound::detect::stem::{stem, stem_phrase};

// --- event ---------------------------------------------------------------------------

#[test]
fn language_tags_round_trip() {
    for lang in [Lang::En, Lang::Uk, Lang::Any] {
        assert_eq!(Lang::parse(lang.as_str()), lang);
    }
    assert_eq!(Lang::parse("EN"), Lang::En);
    assert_eq!(Lang::parse("klingon"), Lang::Any);
}

#[test]
fn a_new_event_is_strict_by_default() {
    let event = EventDefinition::new("OPEN_DOOR", "Open Door");

    // A missed sound beats a wrong one.
    assert!(f32::from_bits(event.confidence_threshold.bits) >= 0.8);
    assert!(event.require_action_word);
    assert!(event.enabled);
    assert_eq!(f32::from_bits(event.probability.bits), 1.0);
}

#[test]
fn terms_and_phrases_are_filterable_by_role() {
    let event = EventDefinition::new("SWORD_SWING", "Sword Swing")
        .with_terms(vec![
            Term::keyword("sword"),
            Term::action("swings"),
            Term::negative("lying on"),
        ])
        .with_phrases(vec![
            Phrase::example(Lang::En, "swings his sword"),
            Phrase::command("sound sword"),
        ]);

    assert_eq!(event.terms_of(TermKind::Keyword).len(), 1);
    assert_eq!(event.terms_of(TermKind::Action).len(), 1);
    assert_eq!(event.terms_of(TermKind::Negative).len(), 1);
    assert_eq!(event.examples().len(), 1);
    assert_eq!(event.commands().len(), 1);
}

#[test]
fn term_groups_concatenate_in_order() {
    let all = terms(vec![
        Term::keywords(&["door", "gate"]),
        Term::actions(&["opens"]),
        Term::negatives(&["painting of"]),
    ]);
    let texts: Vec<&str> = all.iter().map(|t| t.text.as_str()).collect();
    assert_eq!(texts, vec!["door", "gate", "opens", "painting of"]);
    assert_eq!(all[2].kind, TermKind::Action);
    assert_eq!(all[3].kind, TermKind::Negative);
}

// --- fuzzy ---------------------------------------------------------------------------

#[test]
fn identical_strings_are_zero_distance_and_full_similarity() {
    assert_eq!(distance_within("sword", "sword", 2), Some(0));
}

#[test]
fn one_typo_is_within_budget_for_a_medium_word() {
    assert_eq!(distance_within("sword", "swore", 2), Some(1));
}

#[test]
fn wildly_different_strings_score_zero_and_exit_early() {
    assert_eq!(distance_within("door", "thunderstorm", 2), None);
}

#[test]
fn distance_is_symmetric() {
    assert_eq!(
        distance_within("opens", "opened", 3),
        distance_within("opened", "opens", 3)
    );
}

#[test]
fn distance_counts_insertions_deletions_and_substitutions() {
    assert_eq!(distance_within("kitten", "sitting", 5), Some(3));
    assert_eq!(distance_within("kitten", "sitting", 2), None);
    assert_eq!(distance_within("", "abc", 3), Some(3));
    assert_eq!(distance_within("двері", "дверi", 1), Some(1));
}

#[test]
fn the_typo_budget_grows_with_the_word() {
    assert_eq!(budget_for(3), 0);
    assert_eq!(budget_for(4), 1);
    assert_eq!(budget_for(7), 2);
}

// --- normalize -----------------------------------------------------------------------

#[test]
fn case_and_punctuation_are_removed() {
    let normalized = normalize("You SLOWLY push open the old, wooden door!");
    assert_eq!(normalized.text, "you slowly push open the old wooden door");
    assert_eq!(normalized.tokens.len(), 8);
}

#[test]
fn ukrainian_text_keeps_its_letters() {
    let normalized = normalize("Ви повільно відчиняєте старі двері.");
    assert_eq!(normalized.text, "ви повільно відчиняєте старі двері");
}

#[test]
fn every_apostrophe_variant_becomes_the_same_character() {
    let variants = [
        "дерев'яні",
        "дерев\u{2019}яні",
        "дерев\u{02BC}яні",
        "дерев\u{00B4}яні",
    ];
    let normalized: Vec<String> = variants.iter().map(|v| normalize_text(v)).collect();

    assert!(
        normalized.windows(2).all(|w| w[0] == w[1]),
        "apostrophe variants should normalize identically: {normalized:?}"
    );
    assert_eq!(normalized[0], "дерев'яні");
}

#[test]
fn decomposed_characters_are_composed_first() {
    let decomposed = "и\u{0306}ти";
    let composed = "йти";
    assert_eq!(normalize_text(decomposed), normalize_text(composed));
}

#[test]
fn empty_and_punctuation_only_input_normalizes_to_nothing() {
    assert!(normalize("").is_empty());
    assert!(normalize("!!! ... ???").is_empty());
    assert_eq!(normalize("   ").text, "");
}

#[test]
fn digits_are_kept() {
    assert_eq!(normalize_text("You take 3 damage"), "you take 3 damage");
}

#[test]
fn phrase_matching_respects_word_boundaries() {
    let normalized = normalize("He draws his sword.");

    assert!(normalized.contains_phrase("draws his sword"));
    assert!(normalized.contains_phrase("sword"));

    assert!(!normalized.contains_phrase("or"));
    assert!(!normalized.contains_phrase("word"));
    assert!(
        !normalized.contains_phrase("draws sword"),
        "must be contiguous"
    );
}

#[test]
fn phrase_matching_handles_edges() {
    let normalized = normalize("open the door");
    assert!(normalized.contains_phrase("open"));
    assert!(normalized.contains_phrase("door"));
    assert!(normalized.contains_phrase("open the door"));
    assert!(!normalized.contains_phrase(""));
    assert!(!normalized.contains_phrase("open the door slowly"));
}

#[test]
fn stem_sequences_match_across_inflection() {
    let normalized = normalize("Він відчинив двері");
    let stems: Vec<String> = ["відчиняти", "двері"].iter().map(|w| stem(w)).collect();

    assert!(
        normalized.contains_stems(&stems),
        "stems {:?} should appear in {:?}",
        stems,
        normalized.stems
    );
}

#[test]
fn stems_are_found_where_they_sit_and_around_an_excluded_span() {
    let normalized = normalize("the bell rings and the bell tolls");
    let bell = vec![stem("bell")];
    assert_eq!(normalized.find_stems(&bell), Some(1..2));
    assert_eq!(normalized.find_stems_outside(&bell, Some(&(1..2))), Some(5..6));
    assert_eq!(normalized.find_stems_outside(&bell, Some(&(0..7))), None);
    assert_eq!(normalized.stem_position(&stem("bell")), Some(1));
    assert_eq!(normalized.stem_position("dragon"), None);
}

// --- stem ----------------------------------------------------------------------------

fn all_same(words: &[&str]) -> bool {
    let stems: Vec<String> = words.iter().map(|w| stem(w)).collect();
    let same = stems.windows(2).all(|w| w[0] == w[1]);
    if !same {
        println!("{words:?} -> {stems:?}");
    }
    same
}

#[test]
fn ukrainian_verb_forms_of_opening_collapse_together() {
    assert!(all_same(&[
        "відчиняти",
        "відчиняє",
        "відчиняєте",
        "відчиняють",
        "відчинив",
        "відчинили",
    ]));
}

#[test]
fn ukrainian_noun_cases_of_door_collapse_together() {
    assert!(all_same(&["двері", "дверей", "дверима", "дверях", "дверьми"]));
}

#[test]
fn ukrainian_short_noun_cases_collapse_too() {
    assert!(all_same(&["меч", "меча", "мечу", "мечі"]));
}

#[test]
fn english_verb_forms_collapse_together() {
    assert!(all_same(&["opens", "opened", "opening"]));
    assert!(all_same(&["swing", "swings", "swinging"]));
    assert!(all_same(&["attack", "attacks", "attacked", "attacking"]));
}

#[test]
fn english_plurals_collapse_to_the_singular() {
    assert_eq!(stem("doors"), stem("door"));
    assert_eq!(stem("swords"), stem("sword"));
    assert_eq!(stem("arrows"), stem("arrow"));
}

#[test]
fn irregular_plurals_are_a_known_limitation() {
    assert_ne!(stem("wolves"), stem("wolf"));
    assert_eq!(stem("wolves"), stem("wolves"));
}

#[test]
fn doubled_consonants_are_undoubled() {
    assert_eq!(stem("running"), stem("runs"));
}

#[test]
fn short_words_are_left_alone() {
    for word in ["the", "is", "a", "він", "не", "меч", "дуб"] {
        assert_eq!(
            stem(word),
            word.to_lowercase(),
            "{word} should not be stemmed"
        );
    }
}

#[test]
fn unrelated_words_do_not_collide() {
    let pairs = [
        ("двері", "дерево"),
        ("sword", "swore"),
        ("door", "doom"),
        ("вовк", "вода"),
        ("thunder", "thumb"),
    ];
    for (a, b) in pairs {
        assert_ne!(stem(a), stem(b), "{a} and {b} must not stem alike");
    }
}

#[test]
fn stemming_is_idempotent() {
    for word in ["відчиняє", "opening", "swords", "дверей", "attacked"] {
        let once = stem(word);
        assert_eq!(stem(&once), once, "{word} stemmed twice should not change");
    }
}

#[test]
fn phrases_stem_word_by_word() {
    assert_eq!(
        stem_phrase("opens the doors"),
        vec![stem("opens"), "the".to_string(), stem("doors")]
    );
    assert!(stem_phrase("").is_empty());
}

#[test]
fn mixed_language_text_stems_each_word_by_its_script() {
    let stems = stem_phrase("гоблін дістає sword");
    assert_eq!(stems.len(), 3);
    assert_eq!(stems[2], stem("sword"));
}

// --- engine: what the literal layers decide -----------------------------------------

fn sword_event() -> EventDefinition {
    EventDefinition::new("SWORD_SWING", "Sword Swing")
        .with_terms(terms(vec![
            Term::keywords(&["sword", "меч"]),
            Term::actions(&["swings", "б'є"]),
            Term::negatives(&["lies on the table"]),
        ]))
        .with_phrases(vec![
            Phrase::example(Lang::En, "swings his sword"),
            Phrase::command("sound sword"),
        ])
}

fn prepared(event: EventDefinition) -> Prepared {
    prepare(event)
}

#[test]
fn preparation_normalizes_and_stems_every_part_of_an_event() {
    let p = prepared(sword_event());
    assert_eq!(p.exact_phrases, vec!["swings his sword".to_string()]);
    assert_eq!(p.command_phrases, vec!["sound sword".to_string()]);
    assert_eq!(p.phrase_stems, vec![stem_phrase("swings his sword")]);
    assert_eq!(p.keywords, vec![vec![stem("sword")], vec![stem("меч")]]);
    assert_eq!(p.negatives, vec!["lies on the table".to_string()]);
}

#[test]
fn a_command_and_a_negative_phrase_are_found_by_position() {
    let p = prepared(sword_event());
    assert_eq!(p.command_match(&normalize("Sound sword!")), Some(0));
    assert_eq!(p.command_match(&normalize("the sword")), None);
    assert_eq!(p.negative_match(&normalize("A sword lies on the table.")), Some(0));
    assert_eq!(p.exact_match(&normalize("The orc swings his sword.")), Some(0));
    assert_eq!(p.stem_match(&normalize("He swinging his swords")), Some(0));
}

#[test]
fn an_action_is_found_apart_from_the_keyword() {
    let event = EventDefinition::new("BELL", "Bell").with_terms(terms(vec![
        Term::keywords(&["bells"]),
        Term::actions(&["rings"]),
    ]));
    let p = prepared(event);
    let normalized = normalize("the bells");
    let (index, span) = p.keyword_match(&normalized).expect("keyword");
    assert_eq!(index, 0);
    assert_eq!(span, 1..2);
    assert_eq!(p.action_word(&normalized, Some((index, &span))), None);
    assert!(!p.any_action(&normalized));

    let normalized = normalize("the bells rings");
    let (index, span) = p.keyword_match(&normalized).expect("keyword");
    assert_eq!(p.action_word(&normalized, Some((index, &span))), Some(stem("rings")));
}

#[test]
fn a_term_listed_as_both_object_and_action_may_be_one_word() {
    let event = EventDefinition::new("SCREAM", "Scream").with_terms(terms(vec![
        Term::keywords(&["screams"]),
        Term::actions(&["screams"]),
    ]));
    let p = prepared(event);
    let normalized = normalize("she screams");
    let (index, span) = p.keyword_match(&normalized).expect("keyword");
    assert_eq!(p.action_word(&normalized, Some((index, &span))), Some(stem("screams")));
    assert!(p.any_action(&normalized));
}

#[test]
fn two_terms_that_only_stem_alike_are_not_one_word() {
    let event = EventDefinition::new("BELL", "Bell").with_terms(terms(vec![
        Term::keywords(&["дзвони"]),
        Term::actions(&["дзвонить"]),
    ]));
    let p = prepared(event);
    let normalized = normalize("він дзвонить другові");
    let (index, span) = p.keyword_match(&normalized).expect("the stems coincide");
    assert_eq!(p.action_word(&normalized, Some((index, &span))), None);
}

#[test]
fn irrealis_markers_are_found_as_phrases_or_word_prefixes() {
    assert_eq!(
        irrealis_marker(&normalize("You remember the sound of wolves")),
        Some("remember".to_string())
    );
    assert_eq!(
        irrealis_marker(&normalize("Ти пам'ятаєш вовків")),
        Some("пам'ята".to_string())
    );
    assert_eq!(
        irrealis_marker(&normalize("He heard about the dragon")),
        Some("heard about".to_string())
    );
    assert_eq!(irrealis_marker(&normalize("He opens the door")), None);
}

#[test]
fn the_index_finds_only_events_whose_stems_the_transcript_touches() {
    let door = EventDefinition::new("OPEN_DOOR", "Open Door").with_terms(terms(vec![
        Term::keywords(&["door"]),
        Term::negatives(&["painting"]),
    ]));
    let events = vec![sword_event(), door];
    let index = InvertedIndex::build(&events);

    let mut found = index.candidates(&normalize("He opens the door"));
    found.sort();
    assert_eq!(found, vec![1]);

    let mut found = index.candidates(&normalize("the sword and the door"));
    found.sort();
    assert_eq!(found, vec![0, 1]);

    // Negative terms veto; they never find.
    assert!(index.candidates(&normalize("a painting")).is_empty());
}

#[test]
fn accepted_candidates_keep_their_order() {
    let candidate = |id: &str, accepted: bool| Candidate {
        event_id: id.to_string(),
        confidence: Score { bits: 0.9f32.to_bits() },
        threshold: Score { bits: 0.82f32.to_bits() },
        layer: MatchLayer::Keyword,
        matched_span: String::new(),
        accepted,
        rejection: None,
        action_word: None,
    };
    let detection = Detection {
        transcript: String::new(),
        normalized: String::new(),
        is_final: true,
        timestamp_ms: 0,
        candidates: vec![candidate("A", false), candidate("B", true), candidate("C", true)],
        elapsed_us: 0,
    };
    let accepted: Vec<String> = detection.accepted().into_iter().map(|c| c.event_id).collect();
    assert_eq!(accepted, vec!["B".to_string(), "C".to_string()]);
    assert_eq!(detection.best().map(|c| c.event_id.as_str()), Some("B"));
}

#[test]
fn every_rejection_without_numbers_explains_itself_in_words() {
    assert_eq!(
        RejectionReason::NegativePhrase("lying on the table".to_string()).explain(),
        Some("the narration contains the negative phrase 'lying on the table'".to_string())
    );
    assert_eq!(
        RejectionReason::NoActionWord.explain(),
        Some("the object was mentioned but nothing was done with it".to_string())
    );
    assert_eq!(
        RejectionReason::FramedAsMemoryOrHypothesis("remember".to_string()).explain(),
        Some("'remember' frames this as memory or hypothesis, not action".to_string())
    );
    assert_eq!(
        RejectionReason::Disabled.explain(),
        Some("the event is disabled".to_string())
    );
    let below = RejectionReason::BelowThreshold {
        score: Score { bits: 0.6f32.to_bits() },
        threshold: Score { bits: 0.75f32.to_bits() },
    };
    assert_eq!(below.explain(), None);
}

#[test]
fn the_checks_before_scoring_win_in_order() {
    let p = prepared(sword_event());
    let command = p.screen(&normalize("Sound sword, the sword lies on the table"));
    assert!(matches!(command, Screen::Command(ref phrase) if phrase == "sound sword"));

    let vetoed = p.screen(&normalize("The sword lies on the table"));
    assert!(matches!(vetoed, Screen::Vetoed(ref phrase) if phrase == "lies on the table"));

    assert!(matches!(
        p.screen(&normalize("He swings at the orc")),
        Screen::Open { any_action: true }
    ));
    assert!(matches!(
        p.screen(&normalize("A sword glints")),
        Screen::Open { any_action: false }
    ));

    let mut off = sword_event();
    off.enabled = false;
    assert!(matches!(
        prepared(off).screen(&normalize("sound sword")),
        Screen::Disabled
    ));
}

fn considered(event_id: &str, confidence: f32, accepted: bool) -> Candidate {
    Candidate {
        event_id: event_id.to_string(),
        confidence: Score { bits: confidence.to_bits() },
        threshold: Score { bits: 0.75f32.to_bits() },
        layer: MatchLayer::Keyword,
        matched_span: String::new(),
        accepted,
        rejection: None,
        action_word: None,
    }
}

#[test]
fn candidates_are_reported_accepted_first_then_by_confidence_then_by_id() {
    let ranked = rank_candidates(vec![
        considered("THUNDER", 0.9, false),
        considered("SWORD_SWING", 0.88, true),
        considered("OPEN_DOOR", 0.95, true),
        considered("BELL", 0.88, true),
        considered("SCREAM", -0.0, false),
        considered("RAIN", 0.0, false),
    ]);
    let order: Vec<&str> = ranked.iter().map(|c| c.event_id.as_str()).collect();
    assert_eq!(
        order,
        vec!["OPEN_DOOR", "BELL", "SWORD_SWING", "THUNDER", "RAIN", "SCREAM"]
    );
    assert!(rank_candidates(Vec::new()).is_empty());
}

#[test]
fn the_semantic_layer_adds_the_events_the_index_missed_in_event_order() {
    let events: Vec<Prepared> = vec![
        prepared(EventDefinition::new("OPEN_DOOR", "Open Door")),
        prepared(EventDefinition::new("SMALL_CREATURE_SCURRY", "Scurry")),
        prepared(sword_event()),
        prepared(EventDefinition::new("THUNDER", "Thunder")),
    ];
    let similar = vec![
        "THUNDER".to_string(),
        "SWORD_SWING".to_string(),
        "SMALL_CREATURE_SCURRY".to_string(),
        "NOT_AN_EVENT".to_string(),
    ];
    assert_eq!(add_vouched(vec![2], &events, &similar), vec![2, 1, 3]);
    assert_eq!(add_vouched(vec![0], &events, &[]), vec![0]);
}

#[test]
fn only_keyword_and_semantic_matches_need_an_action_word() {
    assert!(missing_action(MatchLayer::Keyword, false, true));
    assert!(missing_action(MatchLayer::Semantic, false, true));
    assert!(!missing_action(MatchLayer::Keyword, true, true));
    assert!(!missing_action(MatchLayer::Keyword, false, false));
    assert!(!missing_action(MatchLayer::ExactPhrase, false, true));
    assert!(!missing_action(MatchLayer::Fuzzy, false, true));
}

#[test]
fn a_missing_action_outranks_framing_and_framing_outranks_a_low_score() {
    let s = |v: f32| Score { bits: v.to_bits() };
    assert!(matches!(
        rejection_for(true, Some("remember"), s(0.1), s(0.1), s(0.8)),
        Some(RejectionReason::NoActionWord)
    ));
    assert!(matches!(
        rejection_for(false, Some("remember"), s(0.5), s(0.5), s(0.8)),
        Some(RejectionReason::FramedAsMemoryOrHypothesis(ref m)) if m == "remember"
    ));
    // The penalty left the score at the threshold: framing alone does not reject it.
    assert!(rejection_for(false, Some("remember"), s(0.8), s(0.8), s(0.8)).is_none());
    match rejection_for(false, None, s(-0.2), s(0.0), s(0.8)) {
        Some(RejectionReason::BelowThreshold { score, threshold }) => {
            assert_eq!(score, s(0.0));
            assert_eq!(threshold, s(0.8));
        }
        _ => panic!("a settled score under the threshold is rejected"),
    }
    assert!(rejection_for(false, None, s(0.9), s(0.9), s(0.8)).is_none());
}

#[test]
fn a_second_stemming_can_shorten_a_stem_further() {
    // Stemming strips one suffix; what is left may carry another.
    assert_eq!(stem("horses"), "hors");
    assert_eq!(stem("hors"), "hor");
}

#[test]
fn a_distance_ignores_word_order_and_survives_a_wider_limit() {
    assert_eq!(distance_within("kitten", "sitting", 3), Some(3));
    assert_eq!(distance_within("sitting", "kitten", 3), Some(3));
    assert_eq!(distance_within("kitten", "sitting", 2), None);
    assert_eq!(distance_within("sitting", "kitten", 2), None);
    assert_eq!(distance_within("kitten", "sitting", 10), Some(3));
}
