use dndsound::detect::score::Score;
use dndsound::sound::bus::Bus;
use dndsound::sound::probe::{header_facts, is_supported, is_supported_extension, ProbeProblem};
use dndsound::sound::rng::Rng;
use dndsound::sound::selection::{Candidate, GroupSelector, Selection, SelectionMode};

// --- rng -----------------------------------------------------------------------------

#[test]
fn the_same_seed_produces_the_same_sequence() {
    let mut a = Rng::from_seed(42);
    let mut b = Rng::from_seed(42);
    for _ in 0..64 {
        assert_eq!(a.next_u32(), b.next_u32());
    }
}

#[test]
fn different_seeds_diverge() {
    let mut a = Rng::from_seed(1);
    let mut b = Rng::from_seed(2);
    let differs = (0..16).any(|_| a.next_u32() != b.next_u32());
    assert!(differs);
}

#[test]
fn below_stays_in_range_and_hits_every_value() {
    let mut rng = Rng::from_seed(99);
    let mut seen = [0usize; 5];
    for _ in 0..5_000 {
        let v = rng.below(5);
        assert!(v < 5);
        seen[v] += 1;
    }
    assert!(
        seen.iter().all(|&count| count > 700),
        "distribution skewed: {seen:?}"
    );
}

#[test]
fn below_handles_degenerate_bounds() {
    let mut rng = Rng::from_seed(3);
    assert_eq!(rng.below(0), 0);
    assert_eq!(rng.below(1), 0);
}

#[test]
fn the_generator_is_pcg_xsh_rr() {
    // Seeding with 0 runs the generator from state 0 with increment 1: after the two
    // warm-up steps the state is 1 * M + 1, and the first output follows from it.
    let mut rng = Rng::from_seed(0);
    let state: u64 = 6_364_136_223_846_793_005u64.wrapping_add(1);
    let xorshifted = (((state >> 18) ^ state) >> 27) as u32;
    let rot = (state >> 59) as u32;
    assert_eq!(rng.next_u32(), xorshifted.rotate_right(rot));
}

#[test]
fn entropy_seeding_produces_a_working_generator() {
    let mut rng = Rng::from_entropy();
    assert!(rng.below(10) < 10);
}

// --- selection -------------------------------------------------------------------------

fn group(ids: &[i64]) -> Vec<Candidate> {
    ids.iter()
        .map(|&id| Candidate {
            sound_id: id,
            weight: Score { bits: 1.0f32.to_bits() },
        })
        .collect()
}

fn chosen(selection: Option<Selection>) -> Option<i64> {
    match selection {
        Some(Selection::Chosen(id)) => Some(id),
        Some(Selection::Weigh(_)) => panic!("a uniform or sequential group was handed back to weigh"),
        None => None,
    }
}

#[test]
fn an_empty_group_selects_nothing() {
    let mut selector = GroupSelector::new(SelectionMode::Random, true);
    assert!(selector.select(&[], &mut Rng::from_seed(1)).is_none());
}

#[test]
fn a_single_sound_group_still_plays_despite_anti_repeat() {
    let mut selector = GroupSelector::new(SelectionMode::Random, true);
    let mut rng = Rng::from_seed(1);
    let candidates = group(&[7]);

    assert_eq!(chosen(selector.select(&candidates, &mut rng)), Some(7));
    assert_eq!(chosen(selector.select(&candidates, &mut rng)), Some(7));
}

#[test]
fn anti_repeat_never_plays_the_same_sound_twice_in_a_row() {
    let mut selector = GroupSelector::new(SelectionMode::Random, true);
    let mut rng = Rng::from_seed(2024);
    let candidates = group(&[1, 2, 3]);

    let mut previous = None;
    for _ in 0..500 {
        let chosen = chosen(selector.select(&candidates, &mut rng)).expect("a sound");
        assert_ne!(Some(chosen), previous, "repeated immediately");
        previous = Some(chosen);
    }
}

#[test]
fn without_anti_repeat_immediate_repeats_are_possible() {
    let mut selector = GroupSelector::new(SelectionMode::Random, false);
    let mut rng = Rng::from_seed(5);
    let candidates = group(&[1, 2]);

    let mut previous = None;
    let repeated = (0..200).any(|_| {
        let now = chosen(selector.select(&candidates, &mut rng));
        let repeat = now == previous;
        previous = now;
        repeat
    });
    assert!(
        repeated,
        "expected at least one immediate repeat in 200 draws"
    );
}

#[test]
fn random_selection_eventually_reaches_every_sound() {
    let mut selector = GroupSelector::new(SelectionMode::Random, true);
    let mut rng = Rng::from_seed(11);
    let candidates = group(&[10, 20, 30, 40]);

    let mut seen = std::collections::HashSet::new();
    for _ in 0..200 {
        seen.insert(chosen(selector.select(&candidates, &mut rng)).expect("a sound"));
    }
    assert_eq!(seen.len(), 4);
}

#[test]
fn sequential_selection_cycles_in_order() {
    let mut selector = GroupSelector::new(SelectionMode::Sequential, false);
    let mut rng = Rng::from_seed(1);
    let candidates = group(&[1, 2, 3]);

    let played: Vec<i64> = (0..7)
        .map(|_| chosen(selector.select(&candidates, &mut rng)).expect("a sound"))
        .collect();
    assert_eq!(played, vec![1, 2, 3, 1, 2, 3, 1]);
}

#[test]
fn sequential_selection_skips_the_last_played_when_anti_repeat_is_on() {
    let mut selector = GroupSelector::new(SelectionMode::Sequential, true);
    let mut rng = Rng::from_seed(1);
    let candidates = group(&[1, 2]);

    let played: Vec<i64> = (0..6)
        .map(|_| chosen(selector.select(&candidates, &mut rng)).expect("a sound"))
        .collect();
    assert_eq!(played, vec![1, 2, 1, 2, 1, 2]);
}

#[test]
fn reset_clears_the_history() {
    let mut selector = GroupSelector::new(SelectionMode::Sequential, false);
    let mut rng = Rng::from_seed(1);
    let candidates = group(&[1, 2, 3]);

    selector.select(&candidates, &mut rng);
    selector.select(&candidates, &mut rng);
    selector.reset();

    assert_eq!(selector.last_played(), None);
    assert_eq!(chosen(selector.select(&candidates, &mut rng)), Some(1));
}

#[test]
fn weighted_mode_hands_back_the_anti_repeat_pool() {
    let mut selector = GroupSelector::new(SelectionMode::Weighted, true);
    let mut rng = Rng::from_seed(1);
    let candidates = group(&[1, 2, 3]);

    match selector.select(&candidates, &mut rng) {
        Some(Selection::Weigh(pool)) => assert_eq!(pool.len(), 3),
        _ => panic!("weighted mode must hand back the pool"),
    }
    selector.played(2);
    assert_eq!(selector.last_played(), Some(2));
    assert_eq!(selector.mode(), SelectionMode::Weighted);
    match selector.select(&candidates, &mut rng) {
        Some(Selection::Weigh(pool)) => {
            let ids: Vec<i64> = pool.iter().map(|c| c.sound_id).collect();
            assert_eq!(ids, vec![1, 3]);
        }
        _ => panic!("weighted mode must hand back the pool"),
    }
}

// --- probe and buses ------------------------------------------------------------------

#[test]
fn extension_support_is_case_insensitive() {
    assert!(is_supported("a.wav"));
    assert!(is_supported("A.WAV"));
    assert!(is_supported("b.mp3"));
    assert!(is_supported("c.ogg"));
    assert!(is_supported("d.flac"));

    assert!(!is_supported("e.aiff"));
    assert!(!is_supported("f.txt"));
    assert!(!is_supported("no-extension"));
}

#[test]
fn extensions_are_judged_in_any_case() {
    assert!(is_supported_extension("OGA"));
    assert!(is_supported_extension("Flac"));
    assert!(!is_supported_extension(""));
}

#[test]
fn every_bus_has_its_track_name() {
    assert_eq!(Bus::Sfx.name(), "sfx");
    assert_eq!(Bus::Ambience.name(), "ambience");
    assert_eq!(Bus::Music.name(), "music");
    assert_eq!(Bus::Voice.name(), "voice");
}

fn wav_bytes(channels: u16, rate: u32, frames: u32) -> Vec<u8> {
    let data_len = frames * channels as u32 * 2;
    let mut b = Vec::new();
    b.extend_from_slice(b"RIFF");
    b.extend_from_slice(&(36 + data_len).to_le_bytes());
    b.extend_from_slice(b"WAVEfmt ");
    b.extend_from_slice(&16u32.to_le_bytes());
    b.extend_from_slice(&1u16.to_le_bytes());
    b.extend_from_slice(&channels.to_le_bytes());
    b.extend_from_slice(&rate.to_le_bytes());
    b.extend_from_slice(&(rate * channels as u32 * 2).to_le_bytes());
    b.extend_from_slice(&(channels * 2).to_le_bytes());
    b.extend_from_slice(&16u16.to_le_bytes());
    b.extend_from_slice(b"data");
    b.extend_from_slice(&data_len.to_le_bytes());
    b.extend(std::iter::repeat(0u8).take(data_len as usize));
    b
}

#[test]
fn a_wav_header_reports_its_frames_rate_and_channels() {
    let bytes = wav_bytes(2, 44_100, 441);
    assert_eq!(header_facts(&bytes, "wav"), Ok((Some(441), Some(44_100), Some(2))));
}

#[test]
fn bytes_that_are_no_container_are_corrupt() {
    assert_eq!(header_facts(b"not a sound file at all", "wav"), Err(ProbeProblem::Corrupt));
    assert_eq!(header_facts(&[], "mp3"), Err(ProbeProblem::Corrupt));
}
