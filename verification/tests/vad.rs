use dndsound::detect::score::Score;
use dndsound::pipeline::vad::{
    frames, Segment, Segmenter, VadConfig, VadEvent, FRAME_SAMPLES, TARGET_SAMPLE_RATE,
};

fn p(value: f32) -> Score {
    Score { bits: value.to_bits() }
}

fn frame(value: f32) -> Vec<f32> {
    vec![value; FRAME_SAMPLES]
}

/// Drive the segmenter with a script of probabilities, returning every event.
fn run(segmenter: &mut Segmenter<f32>, probabilities: &[f32]) -> Vec<VadEvent<f32>> {
    probabilities
        .iter()
        .map(|&q| segmenter.push(&frame(if q > 0.5 { 0.3 } else { 0.0 }), p(q)))
        .collect()
}

fn fast_config() -> VadConfig {
    // 32 ms per frame: 2 frames of speech to start, 3 frames of silence to end.
    VadConfig {
        speech_threshold: p(0.5),
        min_speech_ms: 64,
        silence_timeout_ms: 96,
        pre_roll_ms: 64,
        post_roll_ms: 32,
        max_segment_ms: 15_000,
    }
}

fn segments(events: Vec<VadEvent<f32>>) -> Vec<Segment<f32>> {
    events
        .into_iter()
        .filter_map(|e| match e {
            VadEvent::SegmentReady(s) => Some(s),
            _ => None,
        })
        .collect()
}

fn duration_ms(segment: &Segment<f32>) -> u32 {
    (segment.samples.len() as f32 / TARGET_SAMPLE_RATE as f32 * 1000.0) as u32
}

#[test]
fn frame_length_conversion_matches_thirty_two_milliseconds() {
    assert_eq!(frames(32), 1);
    assert_eq!(frames(64), 2);
    assert_eq!(frames(700), 22);
    assert_eq!(frames(0), 1);
}

#[test]
fn frame_counts_round_exactly_as_the_float_computation_does() {
    let per_frame_ms = FRAME_SAMPLES as f32 / TARGET_SAMPLE_RATE as f32 * 1000.0;
    let mut samples: Vec<u32> = (0..5_000).collect();
    samples.extend([16, 48, 80, 16_777_215, 16_777_216, 16_777_217, 33_554_431, 33_554_433]);
    samples.extend([268_435_455, 268_435_456, 2_147_483_647, 4_000_000_017, u32::MAX]);
    let mut x: u32 = 12_345;
    for _ in 0..20_000 {
        x = x.wrapping_mul(1_664_525).wrapping_add(1_013_904_223);
        samples.push(x);
    }
    for ms in samples {
        let expected = ((ms as f32 / per_frame_ms).round() as usize).max(1) as u64;
        assert_eq!(frames(ms), expected, "{ms} ms");
    }
}

#[test]
fn silence_alone_produces_no_segment() {
    let mut segmenter = Segmenter::new(fast_config());
    let events = run(&mut segmenter, &[0.0; 50]);

    assert!(events.iter().all(|e| matches!(e, VadEvent::Idle { .. })));
    assert!(!segmenter.is_speaking());
}

#[test]
fn a_burst_shorter_than_the_minimum_is_rejected() {
    let mut segmenter = Segmenter::new(fast_config());
    let events = run(&mut segmenter, &[0.0, 0.0, 0.9, 0.0, 0.0, 0.0, 0.0]);

    assert!(
        !events.iter().any(|e| matches!(e, VadEvent::SegmentReady(_))),
        "a single loud frame must not become a segment"
    );
    assert!(!segmenter.is_speaking());
}

#[test]
fn speech_then_silence_produces_exactly_one_segment() {
    let mut segmenter = Segmenter::new(fast_config());
    let mut script = vec![0.0, 0.0];
    script.extend(std::iter::repeat_n(0.9, 10));
    script.extend(std::iter::repeat_n(0.0, 6));

    let events = run(&mut segmenter, &script);

    let starts = events
        .iter()
        .filter(|e| matches!(e, VadEvent::SpeechStarted))
        .count();
    let segments = segments(events);

    assert_eq!(starts, 1, "speech should start once");
    assert_eq!(segments.len(), 1, "and end once");
    assert!(!segments[0].truncated);
    assert!(!segments[0].samples.is_empty());
}

#[test]
fn a_short_pause_mid_sentence_does_not_split_the_segment() {
    let mut segmenter = Segmenter::new(fast_config());
    let mut script = vec![0.9; 6];
    script.extend([0.0, 0.0]);
    script.extend([0.9; 6]);
    script.extend([0.0; 6]);

    let events = run(&mut segmenter, &script);
    assert_eq!(segments(events).len(), 1, "a breath must not cut the sentence in two");
}

#[test]
fn a_long_pause_does_split_the_segments() {
    let mut segmenter = Segmenter::new(fast_config());
    let mut script = vec![0.9; 6];
    script.extend([0.0; 8]);
    script.extend([0.9; 6]);
    script.extend([0.0; 8]);

    let events = run(&mut segmenter, &script);
    assert_eq!(segments(events).len(), 2);
}

#[test]
fn the_segment_includes_audio_from_before_speech_was_detected() {
    let mut segmenter = Segmenter::new(fast_config());

    for _ in 0..4 {
        segmenter.push(&vec![0.01; FRAME_SAMPLES], p(0.0));
    }
    for _ in 0..6 {
        segmenter.push(&vec![0.5; FRAME_SAMPLES], p(0.9));
    }
    let segment = loop {
        if let VadEvent::SegmentReady(segment) = segmenter.push(&vec![0.0; FRAME_SAMPLES], p(0.0)) {
            break segment;
        }
    };

    assert!(
        segment.samples.iter().any(|&s: &f32| (s - 0.01f32).abs() < 1e-6),
        "pre-roll audio should be part of the segment"
    );
}

#[test]
fn a_segment_that_never_pauses_is_cut_at_the_maximum_length() {
    let config = VadConfig {
        max_segment_ms: 320,
        ..fast_config()
    };
    let mut segmenter = Segmenter::new(config);

    let truncated = segments(run(&mut segmenter, &[0.9; 40]));

    assert!(!truncated.is_empty(), "an endless monologue must still produce segments");
    assert!(truncated[0].truncated);
    assert!(
        duration_ms(&truncated[0]) <= 400,
        "got {} ms",
        duration_ms(&truncated[0])
    );
}

#[test]
fn cutting_a_monologue_loses_no_audio_and_does_not_pause_it() {
    let config = VadConfig {
        max_segment_ms: 320,
        ..fast_config()
    };
    let overlap = (config.pre_roll_ms as usize * TARGET_SAMPLE_RATE as usize) / 1000;
    let mut segmenter = Segmenter::new(config);

    let segments = segments(run(&mut segmenter, &[0.9; 40]));

    assert!(segments.len() >= 3, "expected repeated cuts, got {}", segments.len());

    for pair in segments.windows(2) {
        let (first, second) = (&pair[0], &pair[1]);
        assert!(first.truncated && second.truncated);
        assert_eq!(
            second.start_sample,
            first.start_sample + (first.samples.len() - overlap) as u64,
            "audio was lost across the cut"
        );
    }
}

#[test]
fn a_cut_monologue_that_then_stops_still_closes_normally() {
    let config = VadConfig {
        max_segment_ms: 320,
        ..fast_config()
    };
    let mut segmenter = Segmenter::new(config);

    let mut script = vec![0.9; 25];
    script.extend([0.0; 10]);

    let segments = segments(run(&mut segmenter, &script));
    let last = segments.last().expect("a final segment");
    assert!(!last.truncated, "the last segment ended on silence, not on the length cap");
}

#[test]
fn flushing_mid_speech_returns_what_was_captured() {
    let mut segmenter = Segmenter::new(fast_config());
    run(&mut segmenter, &[0.9; 6]);

    let segment = segmenter.flush().expect("a segment in progress");
    assert!(!segment.samples.is_empty());
    assert!(segmenter.flush().is_none(), "nothing is left after flushing");
}

#[test]
fn flushing_during_silence_returns_nothing() {
    let mut segmenter = Segmenter::new(fast_config());
    run(&mut segmenter, &[0.0; 5]);
    assert!(segmenter.flush().is_none());
}

#[test]
fn segments_report_where_they_started_in_the_stream() {
    let mut segmenter = Segmenter::new(fast_config());
    let mut script = vec![0.0; 10];
    script.extend([0.9; 6]);
    script.extend([0.0; 6]);

    let segment = segments(run(&mut segmenter, &script))
        .into_iter()
        .next()
        .expect("a segment");

    let expected = (10 - 2) * FRAME_SAMPLES as u64;
    assert_eq!(segment.start_sample, expected);
}

#[test]
fn raising_the_threshold_makes_the_segmenter_deafer() {
    let mut strict = Segmenter::new(VadConfig {
        speech_threshold: p(0.95),
        ..fast_config()
    });
    let events = run(&mut strict, &[0.9; 20]);
    assert!(
        !events.iter().any(|e| matches!(e, VadEvent::SegmentReady(_))),
        "probabilities below the threshold must not trigger speech"
    );
}

#[test]
fn reconfiguring_shrinks_the_pre_roll_immediately() {
    let mut segmenter = Segmenter::new(VadConfig {
        pre_roll_ms: 640,
        ..fast_config()
    });
    run(&mut segmenter, &[0.0; 30]);

    segmenter.reconfigure(VadConfig {
        pre_roll_ms: 32,
        ..fast_config()
    });
    assert!(segmenter.pre_roll_len() <= FRAME_SAMPLES);
    assert_eq!(segmenter.config().pre_roll_ms, 32);
}

#[test]
fn resetting_clears_everything() {
    let mut segmenter = Segmenter::new(fast_config());
    run(&mut segmenter, &[0.9; 6]);
    segmenter.reset();

    assert!(!segmenter.is_speaking());
    assert!(segmenter.flush().is_none());
}

#[test]
fn the_audio_collected_so_far_is_visible_while_speaking() {
    let mut segmenter = Segmenter::new(fast_config());
    run(&mut segmenter, &[0.9; 3]);
    assert!(segmenter.is_speaking());
    assert!(!segmenter.current_audio().is_empty());
    assert_eq!(VadConfig::default().min_speech_ms, 250);
}

#[test]
fn a_fresh_segmenter_has_room_for_frames() {
    let segmenter: Segmenter<f32> = Segmenter::new(VadConfig::default());
    assert!(segmenter.has_room(FRAME_SAMPLES));
    assert!(segmenter.has_room(0));
}

#[test]
fn a_segmenter_counts_up_to_the_largest_u64() {
    let mut segmenter: Segmenter<f32> = Segmenter::new(VadConfig::default());
    segmenter.push(&[0.0; 512], Score { bits: 0 });
    assert!(segmenter.has_room((u64::MAX - 512) as usize));
    assert!(!segmenter.has_room((u64::MAX - 511) as usize));
}

#[test]
fn a_segment_is_the_stream_from_its_start_each_sample_once() {
    let mut segmenter: Segmenter<f32> = Segmenter::new(VadConfig {
        speech_threshold: p(0.5),
        min_speech_ms: 64,
        silence_timeout_ms: 96,
        pre_roll_ms: 64,
        post_roll_ms: 32,
        max_segment_ms: 15_000,
    });
    segmenter.push(&[0.1; 512], p(0.9));
    segmenter.push(&[0.2; 512], p(0.9));
    segmenter.push(&[0.0; 512], p(0.0));
    segmenter.push(&[0.0; 512], p(0.0));
    match segmenter.push(&[0.0; 512], p(0.0)) {
        VadEvent::SegmentReady(segment) => {
            assert_eq!(segment.start_sample, 0);
            assert!(!segment.truncated);
            assert_eq!(segment.samples, [[0.1f32; 512], [0.2; 512], [0.0; 512]].concat());
        }
        _ => panic!("three silent frames close the segment"),
    }
}

#[test]
fn the_pre_roll_holds_the_audio_just_before_speech() {
    let mut segmenter: Segmenter<f32> = Segmenter::new(VadConfig {
        speech_threshold: p(0.5),
        min_speech_ms: 32,
        silence_timeout_ms: 32,
        pre_roll_ms: 32,
        post_roll_ms: 32,
        max_segment_ms: 15_000,
    });
    segmenter.push(&[0.05; 512], p(0.1));
    segmenter.push(&[0.3; 512], p(0.9));
    segmenter.push(&[0.0; 512], p(0.0));
    match segmenter.push(&[0.0; 512], p(0.0)) {
        VadEvent::SegmentReady(segment) => {
            assert_eq!(segment.start_sample, 0);
            assert_eq!(
                segment.samples,
                [[0.05f32; 512], [0.3; 512], [0.0; 512], [0.0; 512]].concat()
            );
        }
        _ => panic!("the silence timeout closes the segment"),
    }
}
