use std::str::FromStr;

use dndsound::semantic::embed::{lay_out, tokenize_batch, EmbedderConfig, Role};
use dndsound::detect::event::{EventDefinition, Lang, Phrase};
use dndsound::semantic::index::{indexed_phrases, NoCache};
use tokenizers::Tokenizer;

#[test]
fn the_prompt_prefixes_match_the_e5_convention() {
    assert_eq!(Role::Query.prefix(), "query: ");
    assert_eq!(Role::Passage.prefix(), "passage: ");
}

#[test]
fn a_prompt_carries_its_role_prefix() {
    assert_eq!(Role::Query.prefixed("he opens the door"), "query: he opens the door");
    assert_eq!(Role::Passage.prefixed(""), "passage: ");
    assert_eq!(EmbedderConfig::default().threads, 4);
}

use dndsound::semantic::embed::{pad_batch, MAX_TOKENS};

#[test]
fn a_batch_is_padded_to_its_longest_row() {
    let ids = vec![vec![5, 6, 7], vec![8]];
    let masks = vec![vec![1, 1, 1], vec![1]];
    let batch = pad_batch(&ids, &masks);
    assert_eq!(batch.batch, 2);
    assert_eq!(batch.length, 3);
    assert_eq!(batch.input_ids, vec![5, 6, 7, 8, 0, 0]);
    assert_eq!(batch.attention_mask, vec![1, 1, 1, 1, 0, 0]);
    assert_eq!(batch.token_type_ids, vec![0; 6]);
}

#[test]
fn runaway_rows_are_cut_and_empty_batches_still_have_a_width() {
    let long: Vec<u32> = (0..300).collect();
    let batch = pad_batch(&vec![long.clone()], &vec![vec![1; 300]]);
    assert_eq!(batch.length, MAX_TOKENS);
    assert_eq!(batch.input_ids.len(), MAX_TOKENS);
    assert_eq!(batch.input_ids[127], 127);

    let empty = pad_batch(&vec![vec![]], &vec![vec![]]);
    assert_eq!(empty.length, 1);
    assert_eq!(empty.input_ids, vec![0]);
    assert_eq!(pad_batch(&vec![], &vec![]).input_ids.len(), 0);
}

const WORD_TOKENIZER: &str = r#"{
    "version": "1.0",
    "truncation": null,
    "padding": null,
    "added_tokens": [],
    "normalizer": null,
    "pre_tokenizer": {"type": "Whitespace"},
    "post_processor": null,
    "decoder": null,
    "model": {
        "type": "WordLevel",
        "vocab": {"[UNK]": 0, "query": 1, ":": 2, "door": 3, "open": 4, "passage": 5},
        "unk_token": "[UNK]"
    }
}"#;

#[test]
fn texts_are_tokenized_behind_their_role_prefix_and_padded() {
    let tokenizer = Tokenizer::from_str(WORD_TOKENIZER).expect("tokenizer");
    let batch = tokenize_batch(&tokenizer, &["open door", "door"], Role::Query).expect("batch");
    assert_eq!(batch.batch, 2);
    assert_eq!(batch.length, 4);
    assert_eq!(batch.input_ids, vec![1, 2, 4, 3, 1, 2, 3, 0]);
    assert_eq!(batch.attention_mask, vec![1, 1, 1, 1, 1, 1, 1, 0]);
    assert_eq!(batch.token_type_ids, vec![0; 8]);

    let passage = tokenize_batch(&tokenizer, &["door"], Role::Passage).expect("batch");
    assert_eq!(passage.input_ids, vec![5, 2, 3]);
}

#[test]
fn a_cache_that_keeps_nothing_is_a_plain_value() {
    assert_eq!(NoCache, NoCache);
}

#[test]
fn the_index_holds_every_example_phrase_of_every_enabled_event() {
    let door = EventDefinition::new("OPEN_DOOR", "Open Door").with_phrases(vec![
        Phrase::example(Lang::En, "the door creaks open"),
        Phrase::command("sound door"),
        Phrase::example(Lang::Uk, "двері відчиняються"),
    ]);
    let mut thunder = EventDefinition::new("THUNDER", "Thunder")
        .with_phrases(vec![Phrase::example(Lang::En, "thunder rolls")]);
    thunder.enabled = false;
    let sword = EventDefinition::new("SWORD_SWING", "Sword Swing")
        .with_phrases(vec![Phrase::example(Lang::En, "swings his sword")]);

    let pairs = indexed_phrases(&[door, thunder, sword]);
    let expected: Vec<(String, String)> = vec![
        ("OPEN_DOOR".to_string(), "the door creaks open".to_string()),
        ("OPEN_DOOR".to_string(), "двері відчиняються".to_string()),
        ("SWORD_SWING".to_string(), "swings his sword".to_string()),
    ];
    assert_eq!(pairs, expected);
}

#[test]
fn a_mask_shorter_than_its_ids_is_refused() {
    let ids = vec![vec![1, 2, 3], vec![4]];
    let ok = lay_out(&ids, &vec![vec![1, 1, 1], vec![1]]).expect("laid out");
    assert_eq!(ok.input_ids, vec![1, 2, 3, 4, 0, 0]);
    assert_eq!(ok.attention_mask, vec![1, 1, 1, 1, 0, 0]);
    let refused = lay_out(&ids, &vec![vec![1, 1], vec![1]]);
    assert_eq!(
        refused.err(),
        Some("the tokenizer gave an attention mask shorter than its ids".to_string())
    );
}

#[test]
fn no_texts_make_an_empty_batch() {
    let tokenizer = Tokenizer::from_str(WORD_TOKENIZER).expect("tokenizer");
    let batch = tokenize_batch(&tokenizer, &[], Role::Query).expect("batch");
    assert_eq!(batch.batch, 0);
    assert!(batch.input_ids.is_empty());
    assert!(batch.attention_mask.is_empty());
}
