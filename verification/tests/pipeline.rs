use dndsound::pipeline::gate::{
    suppressed_at, suppression_deadline, PlaybackGate, MAX_SUPPRESSION_MS,
};
use dndsound::pipeline::stt::{clean, collapse_repetition, has_words, is_hallucination};
use dndsound::pipeline::offline::{wav_bytes_problem, wav_format_problem};
use dndsound::pipeline::buffer::{append_bounded, PCM_BUFFER_SAMPLES};
use dndsound::pipeline::devices::listing_order;
use dndsound::pipeline::types::InputDevice;

// --- gate ----------------------------------------------------------------------------

#[test]
fn a_new_gate_lets_the_microphone_through() {
    assert!(!PlaybackGate::new().is_suppressed());
}

#[test]
fn suppression_lasts_for_the_requested_duration() {
    let gate = PlaybackGate::new();
    gate.suppress_for(500);
    assert!(gate.is_suppressed());
}

#[test]
fn a_zero_duration_suppresses_nothing() {
    let gate = PlaybackGate::new();
    gate.suppress_for(0);
    assert!(!gate.is_suppressed());
}

#[test]
fn clones_share_one_deadline() {
    let playback_side = PlaybackGate::new();
    let capture_side = playback_side.clone();

    playback_side.suppress_for(2_000);
    assert!(capture_side.is_suppressed());

    capture_side.release();
    assert!(!playback_side.is_suppressed());
}

#[test]
fn a_shorter_overlapping_sound_does_not_shorten_suppression() {
    let gate = PlaybackGate::new();
    gate.suppress_for(10_000);
    gate.suppress_for(100);
    // Still muted well past the short sound's own end.
    assert!(gate.is_suppressed());
    let now = 1_000_000;
    assert!(suppression_deadline(now, 10_000) > suppression_deadline(now, 100));
}

#[test]
fn a_wrong_duration_cannot_mute_the_microphone_indefinitely() {
    let now = 1_700_000_000_000u64;
    let until = suppression_deadline(now, 60 * 60 * 1_000);
    assert!(until - now <= MAX_SUPPRESSION_MS);
    assert_eq!(until - now, 30_000);
    assert_eq!(suppression_deadline(u64::MAX - 5, 1_000), u64::MAX);
    assert!(suppressed_at(until, now));
    assert!(!suppressed_at(now, now));
}

// --- stt -----------------------------------------------------------------------------

#[test]
fn a_decoding_loop_is_collapsed_to_what_was_said_once() {
    let looped = "бі-мечем, ".repeat(30) + "бі-мечем";
    assert_eq!(collapse_repetition(&looped), "бі-мечем");

    assert_eq!(
        collapse_repetition("Гримець грім. Гримець грім. Гримець грім. Гримець грім."),
        "Гримець грім."
    );
}

#[test]
fn a_loop_whisper_cut_off_mid_word_is_still_recognised() {
    let text = "Звісно, ".to_string() + &"після ".repeat(40) + "п";
    assert_eq!(collapse_repetition(&text), "Звісно, після п");
}

#[test]
fn a_loop_that_starts_mid_sentence_keeps_the_part_before_it() {
    let text = "Гоблін нападає і ".to_string() + &"б'є мечем ".repeat(6) + "б'є мечем";
    assert_eq!(collapse_repetition(&text), "Гоблін нападає і б'є мечем");
}

#[test]
fn ordinary_narration_is_left_alone() {
    for text in [
        "Грім, грім, грім!",
        "Ви повільно відчиняєте старі дерев'яні двері.",
        "The goblin pulls out his sword and swings at you.",
        "",
    ] {
        assert_eq!(collapse_repetition(text), text);
    }
}

#[test]
fn a_collapsed_loop_exposes_and_collapses_the_next_one() {
    let text = "a a a a b c b c b c b c".to_string();
    assert_eq!(collapse_repetition(&text), "a b c");
}

#[test]
fn cleaning_collapses_whitespace() {
    assert_eq!(clean("  You open   the door. "), "You open the door.");
    assert_eq!(
        clean("\n\tВи\u{00a0}відчиняєте  двері"),
        "Ви відчиняєте двері"
    );
    assert_eq!(clean(""), "");
}

#[test]
fn known_hallucinations_are_recognised_in_both_languages() {
    assert!(is_hallucination("Субтитри створив Дмитро"));
    assert!(is_hallucination("Thank you for watching!"));
    assert!(is_hallucination("Subtitles by the Amara.org community"));
}

#[test]
fn punctuation_only_transcripts_are_not_words() {
    assert!(!has_words("!!"));
    assert!(!has_words("..."));
    assert!(!has_words(" - ? "));
    assert!(!has_words(""));
    assert!(
        !has_words("a"),
        "a single letter is not a word worth acting on"
    );

    assert!(has_words("Ok"));
    assert!(has_words("Ви відчиняєте двері."));
}

#[test]
fn real_narration_is_not_mistaken_for_a_hallucination() {
    assert!(!is_hallucination(
        "You slowly push open the old wooden door."
    ));
    assert!(!is_hallucination(
        "Ви повільно відчиняєте старі дерев'яні двері."
    ));
    assert!(!is_hallucination("The goblin thanks you and leaves."));
    assert!(!is_hallucination(
        "The innkeeper says thank you and pours the ale."
    ));
    assert!(!is_hallucination("Він каже дякую і йде геть."));
}

#[test]
fn a_polite_one_liner_from_silence_is_recognised_as_invention() {
    assert!(is_hallucination("Thank you."));
    assert!(is_hallucination(" thank you "));
    assert!(is_hallucination("Дякую!"));
    assert!(is_hallucination("Спасибо."));
    assert!(is_hallucination("You"));
}

use dndsound::pipeline::session::{
    believable, discard_reason, partial_is_due, sentence_event, MuteAction, MuteState,
};
use dndsound::pipeline::types::SessionEvent;

#[test]
fn the_mute_drops_audio_and_resets_only_on_its_edges() {
    let mut state = MuteState::new();
    assert_eq!(state.on_read(false), MuteAction::Listen { reset: false });
    assert_eq!(state.on_read(true), MuteAction::Drop { reset: true });
    assert_eq!(state.on_read(true), MuteAction::Drop { reset: false });
    assert_eq!(state.on_read(false), MuteAction::Listen { reset: true });
    assert_eq!(state.on_read(false), MuteAction::Listen { reset: false });
}

#[test]
fn partials_wait_for_the_interval_and_for_enough_speech() {
    assert!(partial_is_due(400, 400, 500));
    assert!(!partial_is_due(399, 400, 900));
    assert!(!partial_is_due(1_000, 400, 499));
}

#[test]
fn a_finished_sentence_is_reported_or_explained() {
    assert!(believable("Ви відчиняєте двері."));
    assert!(!believable("Thank you."));
    assert!(!believable("!!"));

    assert_eq!(discard_reason("  \n"), "no words were recognised");
    assert_eq!(discard_reason("Thank you."), "transcript rejected: \"Thank you.\"");

    match sentence_event("He opens the door".to_string(), true, 1_000, 700, 2_000, Some("en".to_string()), false) {
        SessionEvent::Final { text, stream_ms, language, .. } => {
            assert_eq!(text, "He opens the door");
            assert_eq!(stream_ms, 1_000);
            assert_eq!(language.as_deref(), Some("en"));
        }
        _ => panic!("a trusted sentence is final"),
    }
    match sentence_event("!!".to_string(), false, 5, 1, 2, None, false) {
        SessionEvent::Discarded { reason, speech_ms, .. } => {
            assert_eq!(reason, "transcript rejected: \"!!\"");
            assert_eq!(speech_ms, 2);
        }
        _ => panic!("an untrusted sentence is discarded"),
    }
}

#[test]
fn the_default_microphone_is_listed_first_and_the_rest_by_name() {
    let device = |name: &str, is_default: bool| InputDevice {
        name: name.to_string(),
        is_default,
        default_sample_rate: Some(48_000),
        default_channels: Some(1),
    };
    let listed = listing_order(vec![
        device("Zoom H1", false),
        device("Built-in Microphone", false),
        device("USB Headset", true),
        device("AirPods", false),
    ]);
    let names: Vec<&str> = listed.iter().map(|d| d.name.as_str()).collect();
    assert_eq!(names, vec!["USB Headset", "AirPods", "Built-in Microphone", "Zoom H1"]);
    assert!(listed[0].is_default);
    assert!(listing_order(Vec::new()).is_empty());
}

#[test]
fn the_capture_buffer_keeps_only_the_newest_audio() {
    let mut buffer: Vec<f32> = vec![0.1, 0.2, 0.3];
    append_bounded(&mut buffer, &[0.4, 0.5], 4);
    assert_eq!(buffer, vec![0.2, 0.3, 0.4, 0.5]);
    append_bounded(&mut buffer, &[], 10);
    assert_eq!(buffer, vec![0.2, 0.3, 0.4, 0.5]);
    append_bounded(&mut buffer, &[0.6, 0.7, 0.8, 0.9, 1.0], 2);
    assert_eq!(buffer, vec![0.9, 1.0]);
    assert_eq!(PCM_BUFFER_SAMPLES, 16_000 * 30);
}

#[test]
fn a_recording_in_the_wrong_format_is_refused_by_name() {
    assert_eq!(wav_format_problem("take.wav", 1, 16_000), None);
    assert_eq!(
        wav_format_problem("take.wav", 2, 16_000),
        Some("take.wav has 2 channels; the pipeline works in mono".to_string())
    );
    let refused = wav_format_problem("door_wood_creak_01.wav", 1, 44_100).expect("refused");
    assert_eq!(
        refused,
        "door_wood_creak_01.wav is 44100 Hz; the pipeline works at 16000 Hz"
    );
    assert!(refused.contains("44100"));
}

fn wav_header_bytes(channels: u16, rate: u32, frames: u32) -> Vec<u8> {
    let data_len = frames * channels as u32 * 2;
    let mut b = Vec::new();
    b.extend_from_slice(b"RIFF");
    b.extend_from_slice(&(36 + data_len).to_le_bytes());
    b.extend_from_slice(b"WAVEfmt ");
    b.extend_from_slice(&16u32.to_le_bytes());
    b.extend_from_slice(&1u16.to_le_bytes());
    b.extend_from_slice(&channels.to_le_bytes());
    b.extend_from_slice(&rate.to_le_bytes());
    b.extend_from_slice(&(rate * channels as u32 * 2).to_le_bytes());
    b.extend_from_slice(&(channels * 2).to_le_bytes());
    b.extend_from_slice(&16u16.to_le_bytes());
    b.extend_from_slice(b"data");
    b.extend_from_slice(&data_len.to_le_bytes());
    b.extend(std::iter::repeat(0u8).take(data_len as usize));
    b
}

#[test]
fn a_recording_is_judged_by_the_header_in_its_bytes() {
    assert_eq!(wav_bytes_problem("take.wav", &wav_header_bytes(1, 16_000, 160)), None);
    assert_eq!(
        wav_bytes_problem("take.wav", &wav_header_bytes(2, 16_000, 160)),
        Some("take.wav has 2 channels; the pipeline works in mono".to_string())
    );
    assert_eq!(
        wav_bytes_problem("take.wav", &wav_header_bytes(1, 44_100, 160)),
        Some("take.wav is 44100 Hz; the pipeline works at 16000 Hz".to_string())
    );
    let refused = wav_bytes_problem("take.wav", b"not a wav").expect("refused");
    assert!(refused.starts_with("could not open take.wav: "));
}

#[test]
fn collapsing_twice_is_collapsing_once() {
    assert_eq!(collapse_repetition("Грім, грім, грім!"), "Грім, грім, грім!");
    assert_eq!(collapse_repetition(""), "");
    let looped = "він іде він іде він іде він іде і падає падає падає падає";
    let once = collapse_repetition(looped);
    assert_eq!(once, "він іде і падає");
    assert_eq!(collapse_repetition(&once), once);
}
