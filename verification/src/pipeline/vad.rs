//! Turning a stream of per-frame speech probabilities into speech segments, with
//! hysteresis, pre-roll and post-roll.
//!
//! The probabilities come from the VAD model, run outside the library. The segmenter is
//! pure bookkeeping over them and over the audio it collects; it never looks inside a
//! sample, so it is generic over the sample type.

use std::collections::VecDeque;

use vstd::prelude::*;

use crate::detect::score::{float_ge, Score};

verus! {

/// Silero processes exactly 512 samples at a time at 16 kHz: 32 ms per frame.
pub const FRAME_SAMPLES: usize = 512;

/// The pipeline's sample rate.
pub const TARGET_SAMPLE_RATE: u32 = 16_000;

/// Bit pattern of `0.5f32`, the default speech threshold.
pub const DEFAULT_SPEECH_THRESHOLD_BITS: u32 = 0x3F00_0000;

/// The furthest a segmenter counts: the largest `u64`, which at 16 kHz is some
/// thirty-six million years of audio.
pub const STREAM_LIMIT: u64 = 0xFFFF_FFFF_FFFF_FFFF;

/// Tunable thresholds, all exposed in settings.
#[derive(Debug, Clone, Copy, PartialEq, Eq, Structural)]
pub struct VadConfig {
    /// The speech probability at or above which a frame counts as speech, an `f32` held
    /// by its bit pattern.
    pub speech_threshold: Score,
    pub min_speech_ms: u32,
    pub silence_timeout_ms: u32,
    pub pre_roll_ms: u32,
    pub post_roll_ms: u32,
    pub max_segment_ms: u32,
}

impl Default for VadConfig {
    fn default() -> (config: Self)
        ensures
            config == (VadConfig {
                speech_threshold: Score { bits: DEFAULT_SPEECH_THRESHOLD_BITS },
                min_speech_ms: 250,
                silence_timeout_ms: 700,
                pre_roll_ms: 300,
                post_roll_ms: 200,
                max_segment_ms: 5_000,
            }),
    {
        VadConfig {
            speech_threshold: Score { bits: DEFAULT_SPEECH_THRESHOLD_BITS },
            min_speech_ms: 250,
            silence_timeout_ms: 700,
            pre_roll_ms: 300,
            post_roll_ms: 200,
            // Long enough that ordinary sentences close on silence instead, short enough
            // that a Dungeon Master in full flow still gets sounds while talking.
            max_segment_ms: 5_000,
        }
    }
}

/// The spacing of `f32` values around `x`, for `0 <= x < 2^32`: 1 below 2^24, doubling
/// with every bit beyond the 24 an `f32` holds.
pub open spec fn f32_spacing(x: int) -> int {
    if x < 0x100_0000 {
        1
    } else if x < 0x200_0000 {
        2
    } else if x < 0x400_0000 {
        4
    } else if x < 0x800_0000 {
        8
    } else if x < 0x1000_0000 {
        16
    } else if x < 0x2000_0000 {
        32
    } else if x < 0x4000_0000 {
        64
    } else if x < 0x8000_0000 {
        128
    } else {
        256
    }
}

/// `x as f32`, as the integer it is: rounded to the nearest multiple of the spacing,
/// ties to the even multiple.
pub open spec fn as_f32(x: int) -> int {
    let unit = f32_spacing(x);
    let low = x % unit;
    let base = x - low;
    if low * 2 > unit || (low * 2 == unit && (base / unit) % 2 == 1) {
        base + unit
    } else {
        base
    }
}

/// How many 32 ms frames a duration covers: `ms as f32 / 32.0`, rounded half away from
/// zero, and never less than one.
pub open spec fn frames_for(ms: u32) -> int {
    let rounded = (as_f32(ms as int) + 16) / 32;
    if rounded < 1 {
        1
    } else {
        rounded
    }
}

/// How many frames a duration covers, at 32 ms a frame; never zero, however small the
/// setting.
pub fn frames(ms: u32) -> (count: u64)
    ensures
        count == frames_for(ms),
        1 <= count <= 0x800_0000,
{
    let x = ms as u64;
    let unit: u64 = if x < 0x100_0000 {
        1
    } else if x < 0x200_0000 {
        2
    } else if x < 0x400_0000 {
        4
    } else if x < 0x800_0000 {
        8
    } else if x < 0x1000_0000 {
        16
    } else if x < 0x2000_0000 {
        32
    } else if x < 0x4000_0000 {
        64
    } else if x < 0x8000_0000 {
        128
    } else {
        256
    };
    let low = x % unit;
    let base = x - low;
    assert(low < unit && base <= x) by (nonlinear_arith)
        requires
            unit >= 1,
            low == x % unit,
            base == x - low,
    ;
    let rounded = if low * 2 > unit || (low * 2 == unit && (base / unit) % 2 == 1) {
        base + unit
    } else {
        base
    };
    assert(rounded == as_f32(x as int));
    let count = (rounded + 16) / 32;
    if count < 1 {
        1
    } else {
        count
    }
}

/// What the segmenter reports after each frame.
pub enum VadEvent<S> {
    /// Nothing of interest; carries the frame's probability.
    Idle { probability: Score },
    /// Speech has just started. Audio from the pre-roll onwards is being collected.
    SpeechStarted,
    /// Speech is ongoing.
    Speaking { probability: Score },
    /// A segment finished. Carries the audio, pre-roll and post-roll included.
    SegmentReady(Segment<S>),
}

/// A finished stretch of speech.
pub struct Segment<S> {
    pub samples: Vec<S>,
    /// Sample index, from the start of capture, of the first sample.
    pub start_sample: u64,
    /// True when the segment was cut short by `max_segment_ms` rather than by silence.
    pub truncated: bool,
}

/// Where the segmenter stands.
#[derive(Debug, Clone, Copy, PartialEq, Eq, Structural)]
pub enum Phase {
    Silence,
    /// Speech has been detected but has not yet lasted `min_speech_ms`.
    Rising,
    Speech,
    /// Speech stopped; waiting to see whether it resumes before `silence_timeout_ms`.
    Trailing,
}

/// The segmenter's state, as values.
pub struct SegmenterView<S> {
    pub config: VadConfig,
    pub phase: Phase,
    pub pre_roll: Seq<S>,
    pub pre_roll_capacity: int,
    pub current: Seq<S>,
    pub current_start: int,
    pub rising: int,
    pub trailing: int,
    pub frames_seen: int,
    pub samples_seen: int,
}

/// A segment, as values.
pub struct SegmentView<S> {
    pub samples: Seq<S>,
    pub start_sample: int,
    pub truncated: bool,
}

/// An event, as values.
pub enum EventView<S> {
    Idle(Score),
    Started,
    Speaking(Score),
    Ready(SegmentView<S>),
}

/// Turns per-frame speech probabilities into segments.
///
/// Hysteresis matters here: a narrator pauses mid-sentence constantly, and a segmenter
/// that closed on the first quiet frame would chop "the goblin draws… his sword" into
/// two transcripts and lose the event.
pub struct Segmenter<S> {
    config: VadConfig,
    phase: Phase,
    /// Recent audio, kept so a segment can include the moment before speech was
    /// noticed. Without it the recogniser loses the attack of the first word.
    pre_roll: VecDeque<S>,
    pre_roll_capacity: u64,
    current: Vec<S>,
    current_start_sample: u64,
    rising_frames: u64,
    trailing_frames: u64,
    frames_seen: u64,
    samples_seen: u64,
}

/// The pre-roll after some samples arrive: the newest `capacity` of them all.
pub open spec fn remembered<S>(pre_roll: Seq<S>, capacity: int, frame: Seq<S>) -> Seq<S> {
    let all = pre_roll + frame;
    if all.len() <= capacity {
        all
    } else {
        all.subrange(all.len() - capacity, all.len() as int)
    }
}

/// Samples in a span of milliseconds at the pipeline's rate.
pub open spec fn samples_in(ms: u32) -> int {
    ms * 16
}

impl<S> SegmenterView<S> {
    /// Counters far enough from their limits that one more frame of `len` samples fits.
    pub open spec fn counts_room(self, len: int) -> bool {
        self.frames_seen < STREAM_LIMIT && self.samples_seen + len <= STREAM_LIMIT
    }

    pub open spec fn with_pre_roll(self, frame: Seq<S>) -> Self {
        SegmenterView {
            pre_roll: remembered(self.pre_roll, self.pre_roll_capacity, frame),
            ..self
        }
    }

    /// A segment starts: the pre-roll becomes its first audio.
    pub open spec fn started(self, frame_start: int) -> Self {
        SegmenterView {
            current: self.pre_roll,
            current_start: if frame_start >= self.pre_roll.len() {
                frame_start - self.pre_roll.len()
            } else {
                0
            },
            pre_roll: Seq::empty(),
            ..self
        }
    }

    /// A rising segment turned out too short to be speech.
    pub open spec fn abandoned(self) -> Self {
        SegmenterView {
            phase: Phase::Silence,
            current: Seq::empty(),
            rising: 0,
            trailing: 0,
            ..self
        }
    }

    pub open spec fn with_frame(self, frame: Seq<S>) -> Self {
        SegmenterView { current: self.current + frame, ..self }
    }

    /// Whether the segment in progress has reached `max_segment_ms`.
    pub open spec fn too_long(self) -> bool {
        self.current.len() >= samples_in(self.config.max_segment_ms)
    }

    /// How much of a cut segment the next one starts with: `pre_roll_ms` of it, so a
    /// word straddling the cut is whole in at least one of the two.
    pub open spec fn overlap(self) -> int {
        let wanted = samples_in(self.config.pre_roll_ms);
        if wanted < self.current.len() {
            wanted
        } else {
            self.current.len() as int
        }
    }

    /// A monologue cut at the length cap. Speech has not stopped, so the segmenter does
    /// not go back to silence: the next segment begins where this one ended, less the
    /// overlap.
    pub open spec fn cut(self) -> (Self, SegmentView<S>) {
        let carried = self.current.len() - self.overlap();
        (
            SegmenterView {
                current: self.current.subrange(carried, self.current.len() as int),
                current_start: self.current_start + carried,
                ..self
            },
            SegmentView { samples: self.current, start_sample: self.current_start, truncated: true },
        )
    }

    /// A segment ended by silence. Trailing silence is kept up to `post_roll_ms`.
    pub open spec fn finished(self) -> (Self, SegmentView<S>) {
        let post_roll = samples_in(self.config.post_roll_ms);
        let keep_silence = frames_for(self.config.silence_timeout_ms) * 512;
        let samples = if keep_silence > post_roll {
            let excess = keep_silence - post_roll;
            let trim = if excess < self.current.len() {
                excess
            } else {
                self.current.len() as int
            };
            self.current.subrange(0, self.current.len() - trim)
        } else {
            self.current
        };
        (
            SegmenterView {
                phase: Phase::Silence,
                current: Seq::empty(),
                rising: 0,
                trailing: 0,
                pre_roll: Seq::empty(),
                ..self
            },
            SegmentView { samples, start_sample: self.current_start, truncated: false },
        )
    }

    /// One frame with its probability, and what it leads to.
    pub open spec fn step(self, frame: Seq<S>, probability: Score) -> (Self, EventView<S>) {
        let speech = float_ge(probability.bits, self.config.speech_threshold.bits);
        let frame_start = self.samples_seen;
        let v = SegmenterView {
            frames_seen: self.frames_seen + 1,
            samples_seen: self.samples_seen + frame.len(),
            ..self
        };
        let min_frames = frames_for(v.config.min_speech_ms);
        match v.phase {
            Phase::Silence => {
                if speech {
                    let v = SegmenterView { phase: Phase::Rising, rising: 1, ..v }.started(
                        frame_start,
                    ).with_frame(frame);
                    if 1 >= min_frames {
                        (SegmenterView { phase: Phase::Speech, ..v }, EventView::Started)
                    } else {
                        (v, EventView::Idle(probability))
                    }
                } else {
                    (v.with_pre_roll(frame), EventView::Idle(probability))
                }
            },
            Phase::Rising => {
                let v = v.with_frame(frame);
                if speech {
                    let v = SegmenterView { rising: v.rising + 1, ..v };
                    if v.rising >= min_frames {
                        (SegmenterView { phase: Phase::Speech, ..v }, EventView::Started)
                    } else {
                        (v, EventView::Idle(probability))
                    }
                } else {
                    (v.abandoned().with_pre_roll(frame), EventView::Idle(probability))
                }
            },
            Phase::Speech => {
                let v = v.with_frame(frame);
                if v.too_long() {
                    (v.cut().0, EventView::Ready(v.cut().1))
                } else if speech {
                    (v, EventView::Speaking(probability))
                } else {
                    (
                        SegmenterView { phase: Phase::Trailing, trailing: 1, ..v },
                        EventView::Speaking(probability),
                    )
                }
            },
            Phase::Trailing => {
                let v = v.with_frame(frame);
                if v.too_long() {
                    (v.cut().0, EventView::Ready(v.cut().1))
                } else if speech {
                    (
                        SegmenterView { phase: Phase::Speech, trailing: 0, ..v },
                        EventView::Speaking(probability),
                    )
                } else {
                    let v = SegmenterView { trailing: v.trailing + 1, ..v };
                    if v.trailing >= frames_for(v.config.silence_timeout_ms) {
                        (v.finished().0, EventView::Ready(v.finished().1))
                    } else {
                        (v, EventView::Speaking(probability))
                    }
                }
            },
        }
    }
}

impl<S> Segment<S> {
    pub open spec fn view_segment(&self) -> SegmentView<S> {
        SegmentView {
            samples: self.samples@,
            start_sample: self.start_sample as int,
            truncated: self.truncated,
        }
    }
}

impl<S> VadEvent<S> {
    pub open spec fn view_event(&self) -> EventView<S> {
        match self {
            VadEvent::Idle { probability } => EventView::Idle(*probability),
            VadEvent::SpeechStarted => EventView::Started,
            VadEvent::Speaking { probability } => EventView::Speaking(*probability),
            VadEvent::SegmentReady(segment) => EventView::Ready(segment.view_segment()),
        }
    }
}


/// The pre-roll after one more sample is the pre-roll after the earlier ones, with the
/// oldest sample dropped once it is full.
proof fn lemma_remember_step<S>(pre_roll: Seq<S>, capacity: int, frame: Seq<S>, i: int)
    requires
        0 <= i < frame.len(),
        capacity >= 1,
        pre_roll.len() <= capacity,
    ensures
        ({
            let before = remembered(pre_roll, capacity, frame.take(i));
            let dropped = if before.len() == capacity {
                before.subrange(1, before.len() as int)
            } else {
                before
            };
            remembered(pre_roll, capacity, frame.take(i + 1)) == dropped.push(frame[i])
        }),
{
    let before = remembered(pre_roll, capacity, frame.take(i));
    let all = pre_roll + frame.take(i);
    let next = pre_roll + frame.take(i + 1);
    assert(next =~= all.push(frame[i]));
    if all.len() <= capacity {
        if before.len() == capacity {
            assert(remembered(pre_roll, capacity, frame.take(i + 1)) =~= before.subrange(
                1,
                before.len() as int,
            ).push(frame[i]));
        } else {
            assert(remembered(pre_roll, capacity, frame.take(i + 1)) =~= before.push(frame[i]));
        }
    } else {
        assert(before.len() == capacity);
        assert(remembered(pre_roll, capacity, frame.take(i + 1)) =~= before.subrange(
            1,
            before.len() as int,
        ).push(frame[i]));
    }
}

impl<S: Copy> Segmenter<S> {
    pub closed spec fn model(&self) -> SegmenterView<S> {
        SegmenterView {
            config: self.config,
            phase: self.phase,
            pre_roll: self.pre_roll@,
            pre_roll_capacity: self.pre_roll_capacity as int,
            current: self.current@,
            current_start: self.current_start_sample as int,
            rising: self.rising_frames as int,
            trailing: self.trailing_frames as int,
            frames_seen: self.frames_seen as int,
            samples_seen: self.samples_seen as int,
        }
    }

    /// The bookkeeping every segmenter keeps consistent.
    pub closed spec fn wf(&self) -> bool {
        &&& self.pre_roll_capacity == frames_for(self.config.pre_roll_ms) * 512
        &&& self.pre_roll@.len() <= self.pre_roll_capacity
        &&& self.pre_roll@.len() <= self.samples_seen
        &&& self.current@.len() <= self.samples_seen
        &&& self.phase == Phase::Silence ==> self.current@.len() == 0
        &&& self.phase != Phase::Silence ==> self.current_start_sample + self.current@.len()
            <= self.samples_seen
        &&& self.rising_frames <= self.frames_seen
        &&& self.trailing_frames <= self.frames_seen
        &&& self.frames_seen <= STREAM_LIMIT
        &&& self.samples_seen <= STREAM_LIMIT
    }

    pub fn new(config: VadConfig) -> (segmenter: Self)
        ensures
            segmenter.wf(),
            segmenter.model() == (SegmenterView::<S> {
                config,
                phase: Phase::Silence,
                pre_roll: Seq::empty(),
                pre_roll_capacity: frames_for(config.pre_roll_ms) * 512,
                current: Seq::empty(),
                current_start: 0,
                rising: 0,
                trailing: 0,
                frames_seen: 0,
                samples_seen: 0,
            }),
    {
        let pre_roll_capacity = frames(config.pre_roll_ms) * 512;
        Segmenter {
            config,
            phase: Phase::Silence,
            pre_roll: VecDeque::new(),
            pre_roll_capacity,
            current: Vec::new(),
            current_start_sample: 0,
            rising_frames: 0,
            trailing_frames: 0,
            frames_seen: 0,
            samples_seen: 0,
        }
    }

    pub fn config(&self) -> (config: VadConfig)
        ensures
            config == self.model().config,
    {
        self.config
    }

    /// Apply new settings, keeping any segment already in progress; a smaller pre-roll
    /// takes effect at once.
    pub fn reconfigure(&mut self, config: VadConfig)
        requires
            old(self).wf(),
        ensures
            final(self).wf(),
            ({
                let before = old(self).model();
                let capacity = frames_for(config.pre_roll_ms) * 512;
                final(self).model() == SegmenterView {
                    config,
                    pre_roll_capacity: capacity,
                    pre_roll: if before.pre_roll.len() <= capacity {
                        before.pre_roll
                    } else {
                        before.pre_roll.subrange(
                            before.pre_roll.len() - capacity,
                            before.pre_roll.len() as int,
                        )
                    },
                    ..before
                }
            }),
    {
        self.config = config;
        self.pre_roll_capacity = frames(config.pre_roll_ms) * 512;
        let ghost before = self.pre_roll@;
        while (self.pre_roll.len() as u64) > self.pre_roll_capacity
            invariant
                self.pre_roll_capacity == frames_for(config.pre_roll_ms) * 512,
                self.config == config,
                self.phase == old(self).phase,
                self.current == old(self).current,
                self.current_start_sample == old(self).current_start_sample,
                self.rising_frames == old(self).rising_frames,
                self.trailing_frames == old(self).trailing_frames,
                self.frames_seen == old(self).frames_seen,
                self.samples_seen == old(self).samples_seen,
                before == old(self).pre_roll@,
                self.pre_roll@.len() < before.len() ==> self.pre_roll@.len() >= self.pre_roll_capacity,
                self.pre_roll@.len() <= before.len(),
                self.pre_roll@ == before.subrange(
                    before.len() - self.pre_roll@.len(),
                    before.len() as int,
                ),
            decreases self.pre_roll@.len(),
        {
            self.pre_roll.pop_front();
        }
        proof {
            if before.len() <= self.pre_roll_capacity {
                assert(self.pre_roll@ =~= before);
            }
        }
    }

    pub fn is_speaking(&self) -> (speaking: bool)
        ensures
            speaking == (self.model().phase == Phase::Speech || self.model().phase
                == Phase::Trailing),
    {
        matches!(self.phase, Phase::Speech | Phase::Trailing)
    }

    /// The audio collected so far in the segment being spoken: what a partial re-decode
    /// transcribes while the sentence is still being said.
    pub fn current_audio(&self) -> (audio: &[S])
        ensures
            audio@ == self.model().current,
    {
        self.current.as_slice()
    }

    /// How many samples of pre-roll are held right now.
    pub fn pre_roll_len(&self) -> (len: usize)
        ensures
            len == self.model().pre_roll.len(),
    {
        self.pre_roll.len()
    }

    /// Whether the stream's frame and sample counters leave room for one more frame of
    /// `len` samples. They run out only after millennia of audio.
    pub fn has_room(&self, len: usize) -> (room: bool)
        requires
            self.wf(),
        ensures
            room == self.model().counts_room(len as int),
    {
        self.frames_seen < STREAM_LIMIT && len as u64 <= STREAM_LIMIT - self.samples_seen
    }

    /// Feed one frame and its speech probability.
    pub fn push(&mut self, frame: &[S], probability: Score) -> (event: VadEvent<S>)
        requires
            old(self).wf(),
            old(self).model().counts_room(frame@.len() as int),
        ensures
            final(self).wf(),
            (final(self).model(), event.view_event()) == old(self).model().step(frame@, probability),
    {
        self.frames_seen = self.frames_seen + 1;
        let frame_start = self.samples_seen;
        self.samples_seen = self.samples_seen + frame.len() as u64;
        let is_speech = probability.ge(self.config.speech_threshold);
        let min_frames = frames(self.config.min_speech_ms);
        match self.phase {
            Phase::Silence => {
                if is_speech {
                    // The segment begins with the audio heard before this frame, then
                    // the frame itself: each sample once.
                    self.phase = Phase::Rising;
                    self.rising_frames = 1;
                    self.start_segment(frame_start);
                    self.extend_current(frame);
                    // A single loud frame can be a door slam; only commit once speech has
                    // lasted long enough.
                    if self.rising_frames >= min_frames {
                        self.phase = Phase::Speech;
                        return VadEvent::SpeechStarted;
                    }
                    return VadEvent::Idle { probability };
                }
                self.remember_pre_roll(frame);
                VadEvent::Idle { probability }
            },
            Phase::Rising => {
                self.extend_current(frame);
                if is_speech {
                    self.rising_frames = self.rising_frames + 1;
                    if self.rising_frames >= min_frames {
                        self.phase = Phase::Speech;
                        return VadEvent::SpeechStarted;
                    }
                    VadEvent::Idle { probability }
                } else {
                    // Too short to be speech. Throw it away and keep listening.
                    self.abandon_segment();
                    self.remember_pre_roll(frame);
                    VadEvent::Idle { probability }
                }
            },
            Phase::Speech => {
                self.extend_current(frame);
                if let Some(segment) = self.close_if_too_long() {
                    return VadEvent::SegmentReady(segment);
                }
                if is_speech {
                    VadEvent::Speaking { probability }
                } else {
                    self.phase = Phase::Trailing;
                    self.trailing_frames = 1;
                    VadEvent::Speaking { probability }
                }
            },
            Phase::Trailing => {
                self.extend_current(frame);
                if let Some(segment) = self.close_if_too_long() {
                    return VadEvent::SegmentReady(segment);
                }
                if is_speech {
                    // The pause was just a breath.
                    self.phase = Phase::Speech;
                    self.trailing_frames = 0;
                    return VadEvent::Speaking { probability };
                }
                self.trailing_frames = self.trailing_frames + 1;
                if self.trailing_frames >= frames(self.config.silence_timeout_ms) {
                    let segment = self.finish_segment();
                    return VadEvent::SegmentReady(segment);
                }
                VadEvent::Speaking { probability }
            },
        }
    }

    /// Close whatever is in progress, e.g. when the user stops listening.
    pub fn flush(&mut self) -> (segment: Option<Segment<S>>)
        requires
            old(self).wf(),
        ensures
            final(self).wf(),
            (old(self).model().phase == Phase::Speech || old(self).model().phase
                == Phase::Trailing) ==> (segment matches Some(s) && s.view_segment() == old(
                self,
            ).model().finished().1 && final(self).model() == old(self).model().finished().0),
            !(old(self).model().phase == Phase::Speech || old(self).model().phase
                == Phase::Trailing) ==> (segment is None && final(self).model() == old(
                self,
            ).model().abandoned()),
    {
        if matches!(self.phase, Phase::Speech | Phase::Trailing) {
            Some(self.finish_segment())
        } else {
            self.abandon_segment();
            None
        }
    }

    /// Forget everything: the segment in progress, the pre-roll and the stream position.
    pub fn reset(&mut self)
        requires
            old(self).wf(),
        ensures
            final(self).wf(),
            final(self).model() == (SegmenterView {
                phase: Phase::Silence,
                pre_roll: Seq::empty(),
                current: Seq::empty(),
                rising: 0,
                trailing: 0,
                frames_seen: 0,
                samples_seen: 0,
                ..old(self).model()
            }),
    {
        self.phase = Phase::Silence;
        self.pre_roll.clear();
        self.current.clear();
        self.rising_frames = 0;
        self.trailing_frames = 0;
        self.frames_seen = 0;
        self.samples_seen = 0;
    }

    fn extend_current(&mut self, frame: &[S])
        ensures
            final(self).model() == old(self).model().with_frame(frame@),
    {
        let ghost head = self.current@;
        let mut i: usize = 0;
        while i < frame.len()
            invariant
                i <= frame@.len(),
                self.current@ == head + frame@.take(i as int),
                head == old(self).current@,
                self.pre_roll == old(self).pre_roll,
                self.pre_roll_capacity == old(self).pre_roll_capacity,
                self.config == old(self).config,
                self.phase == old(self).phase,
                self.current_start_sample == old(self).current_start_sample,
                self.rising_frames == old(self).rising_frames,
                self.trailing_frames == old(self).trailing_frames,
                self.frames_seen == old(self).frames_seen,
                self.samples_seen == old(self).samples_seen,
            decreases frame@.len() - i,
        {
            self.current.push(frame[i]);
            i = i + 1;
            assert(self.current@ =~= head + frame@.take(i as int));
        }
        assert(frame@.take(frame@.len() as int) =~= frame@);
    }

    fn remember_pre_roll(&mut self, frame: &[S])
        requires
            old(self).wf(),
            old(self).pre_roll@.len() + frame@.len() <= old(self).samples_seen,
        ensures
            final(self).wf(),
            final(self).model() == old(self).model().with_pre_roll(frame@),
    {
        let ghost start = self.pre_roll@;
        let mut i: usize = 0;
        while i < frame.len()
            invariant
                i <= frame@.len(),
                self.pre_roll_capacity >= 1,
                start.len() <= self.pre_roll_capacity,
                self.pre_roll@ == remembered(start, self.pre_roll_capacity as int, frame@.take(i as int)),
                self.pre_roll@.len() <= self.pre_roll_capacity,
                self.config == old(self).config,
                self.pre_roll_capacity == old(self).pre_roll_capacity,
                self.phase == old(self).phase,
                self.current == old(self).current,
                self.current_start_sample == old(self).current_start_sample,
                self.rising_frames == old(self).rising_frames,
                self.trailing_frames == old(self).trailing_frames,
                self.frames_seen == old(self).frames_seen,
                self.samples_seen == old(self).samples_seen,
                start == old(self).pre_roll@,
            decreases frame@.len() - i,
        {
            proof {
                lemma_remember_step(start, self.pre_roll_capacity as int, frame@, i as int);
            }
            if self.pre_roll.len() as u64 == self.pre_roll_capacity {
                self.pre_roll.pop_front();
            }
            self.pre_roll.push_back(frame[i]);
            i = i + 1;
        }
        assert(frame@.take(frame@.len() as int) =~= frame@);
    }

    fn start_segment(&mut self, frame_start: u64)
        ensures
            final(self).model() == old(self).model().started(frame_start as int),
    {
        self.current.clear();
        let mut i: usize = 0;
        while i < self.pre_roll.len()
            invariant
                i <= self.pre_roll@.len(),
                self.current@ == self.pre_roll@.take(i as int),
                self.pre_roll == old(self).pre_roll,
                self.pre_roll_capacity == old(self).pre_roll_capacity,
                self.config == old(self).config,
                self.phase == old(self).phase,
                self.rising_frames == old(self).rising_frames,
                self.trailing_frames == old(self).trailing_frames,
                self.frames_seen == old(self).frames_seen,
                self.samples_seen == old(self).samples_seen,
            decreases self.pre_roll@.len() - i,
        {
            let sample = self.pre_roll[i];
            self.current.push(sample);
            i = i + 1;
            assert(self.current@ =~= self.pre_roll@.take(i as int));
        }
        assert(self.pre_roll@.take(self.pre_roll@.len() as int) =~= self.pre_roll@);
        self.current_start_sample = frame_start.saturating_sub(self.pre_roll.len() as u64);
        self.pre_roll.clear();
    }

    fn abandon_segment(&mut self)
        ensures
            final(self).model() == old(self).model().abandoned(),
    {
        self.phase = Phase::Silence;
        self.current.clear();
        self.rising_frames = 0;
        self.trailing_frames = 0;
    }

    fn close_if_too_long(&mut self) -> (segment: Option<Segment<S>>)
        requires
            old(self).model().current_start + old(self).model().current.len() <= STREAM_LIMIT,
        ensures
            old(self).model().too_long() ==> (segment matches Some(s) && s.view_segment()
                == old(self).model().cut().1 && final(self).model() == old(self).model().cut().0),
            !old(self).model().too_long() ==> segment is None && final(self).model() == old(
                self,
            ).model(),
    {
        let max_samples = self.config.max_segment_ms as u64 * 16;
        if (self.current.len() as u64) < max_samples {
            return None;
        }
        let wanted = self.config.pre_roll_ms as u64 * 16;
        let overlap = if wanted < self.current.len() as u64 {
            wanted as usize
        } else {
            self.current.len()
        };
        let mut samples: Vec<S> = Vec::new();
        std::mem::swap(&mut samples, &mut self.current);
        let start_sample = self.current_start_sample;
        let carried = samples.len() - overlap;
        let mut i: usize = carried;
        while i < samples.len()
            invariant
                carried <= i <= samples@.len(),
                self.current@ == samples@.subrange(carried as int, i as int),
                self.pre_roll == old(self).pre_roll,
                self.pre_roll_capacity == old(self).pre_roll_capacity,
                self.config == old(self).config,
                self.phase == old(self).phase,
                self.current_start_sample == old(self).current_start_sample,
                self.rising_frames == old(self).rising_frames,
                self.trailing_frames == old(self).trailing_frames,
                self.frames_seen == old(self).frames_seen,
                self.samples_seen == old(self).samples_seen,
                samples@ == old(self).current@,
                start_sample == old(self).current_start_sample,
            decreases samples@.len() - i,
        {
            self.current.push(samples[i]);
            i = i + 1;
            assert(self.current@ =~= samples@.subrange(carried as int, i as int));
        }
        self.current_start_sample = start_sample + carried as u64;
        Some(Segment { samples, start_sample, truncated: true })
    }

    fn finish_segment(&mut self) -> (segment: Segment<S>)
        requires
            old(self).wf(),
        ensures
            segment.view_segment() == old(self).model().finished().1,
            final(self).model() == old(self).model().finished().0,
    {
        let post_roll_samples = self.config.post_roll_ms as u64 * 16;
        let keep_silence = frames(self.config.silence_timeout_ms) * 512;
        let mut samples: Vec<S> = Vec::new();
        std::mem::swap(&mut samples, &mut self.current);
        if keep_silence > post_roll_samples {
            let excess = keep_silence - post_roll_samples;
            let trim = if excess < samples.len() as u64 {
                excess as usize
            } else {
                samples.len()
            };
            samples.truncate(samples.len() - trim);
        }
        let segment = Segment {
            samples,
            start_sample: self.current_start_sample,
            truncated: false,
        };
        self.phase = Phase::Silence;
        self.rising_frames = 0;
        self.trailing_frames = 0;
        self.pre_roll.clear();
        segment
    }
}


/// How many frames at the end of a history of speech flags were quiet in a row.
pub open spec fn quiet_run(speech: Seq<bool>) -> nat
    decreases speech.len(),
{
    if speech.len() == 0 || speech.last() {
        0
    } else {
        quiet_run(speech.drop_last()) + 1
    }
}

/// The trailing-silence count of a segmenter never exceeds the quiet frames that
/// actually ended its history: a pause is counted from its own first quiet frame.
pub open spec fn silence_counted<S>(v: SegmenterView<S>, speech: Seq<bool>) -> bool {
    v.phase == Phase::Trailing ==> 1 <= v.trailing <= quiet_run(speech)
}

/// How many frames at the end of a history of speech flags were speech in a row.
pub open spec fn loud_run(speech: Seq<bool>) -> nat
    decreases speech.len(),
{
    if speech.len() == 0 || !speech.last() {
        0
    } else {
        loud_run(speech.drop_last()) + 1
    }
}

/// The rising-speech count of a segmenter never exceeds the speech frames that actually
/// ended its history.
pub open spec fn speech_counted<S>(v: SegmenterView<S>, speech: Seq<bool>) -> bool {
    v.phase == Phase::Rising ==> 1 <= v.rising <= loud_run(speech)
}

/// Speech is only reported as started after `min_speech_ms` of consecutive speech
/// frames: a quiet frame while speech is rising throws the beginning away, so short
/// bursts never add up.
pub proof fn lemma_speech_starts_after_consecutive_speech<S>(
    v: SegmenterView<S>,
    speech: Seq<bool>,
    frame: Seq<S>,
    probability: Score,
)
    requires
        speech_counted(v, speech),
    ensures
        ({
            let loud = float_ge(probability.bits, v.config.speech_threshold.bits);
            let (next, event) = v.step(frame, probability);
            &&& speech_counted(next, speech.push(loud))
            &&& event == EventView::<S>::Started ==> loud_run(speech.push(loud)) >= frames_for(
                v.config.min_speech_ms,
            )
        }),
{
    let loud = float_ge(probability.bits, v.config.speech_threshold.bits);
    assert(speech.push(loud).drop_last() =~= speech);
}

/// A segment ends by silence only after `silence_timeout_ms` of consecutive quiet
/// frames. Speech in a pause (a breath) starts the count again, and a pause counts from
/// one: short pauses never add up to the timeout. The count is kept by every step but
/// one that the length cap cuts on a speech frame during a pause, which leaves the
/// pause's count as it was.
pub proof fn lemma_a_segment_ends_after_consecutive_silence<S>(
    v: SegmenterView<S>,
    speech: Seq<bool>,
    frame: Seq<S>,
    probability: Score,
)
    requires
        silence_counted(v, speech),
    ensures
        ({
            let loud = float_ge(probability.bits, v.config.speech_threshold.bits);
            let (next, event) = v.step(frame, probability);
            &&& (event matches EventView::Ready(s) && s.truncated && loud) || silence_counted(
                next,
                speech.push(loud),
            )
            &&& match event {
                EventView::Ready(s) => !s.truncated ==> quiet_run(speech.push(loud)) >= frames_for(
                    v.config.silence_timeout_ms,
                ),
                _ => true,
            }
        }),
{
    let loud = float_ge(probability.bits, v.config.speech_threshold.bits);
    assert(speech.push(loud).drop_last() =~= speech);
}

/// A segmenter that has heard nothing counts no silence and no speech.
pub proof fn lemma_a_fresh_segmenter_counts_no_silence<S>(v: SegmenterView<S>)
    requires
        v.phase == Phase::Silence,
    ensures
        silence_counted(v, Seq::empty()),
        speech_counted(v, Seq::empty()),
{
}

/// Silence alone never produces a segment: a quiet frame in silence stays in silence
/// and reports nothing but its probability.
pub proof fn lemma_silence_stays_silent<S>(v: SegmenterView<S>, frame: Seq<S>, probability: Score)
    requires
        v.phase == Phase::Silence,
        !float_ge(probability.bits, v.config.speech_threshold.bits),
    ensures
        v.step(frame, probability).0.phase == Phase::Silence,
        v.step(frame, probability).1 == EventView::<S>::Idle(probability),
{
}

/// A single loud frame (a door slam, a dice cup) followed by a quiet one never becomes
/// a segment when speech has to last at least two frames.
pub proof fn lemma_a_lone_burst_is_dropped<S>(
    v: SegmenterView<S>,
    loud: Seq<S>,
    loud_probability: Score,
    quiet: Seq<S>,
    quiet_probability: Score,
)
    requires
        v.phase == Phase::Silence,
        frames_for(v.config.min_speech_ms) >= 2,
        float_ge(loud_probability.bits, v.config.speech_threshold.bits),
        !float_ge(quiet_probability.bits, v.config.speech_threshold.bits),
    ensures
        v.step(loud, loud_probability).1 == EventView::<S>::Idle(loud_probability),
        v.step(loud, loud_probability).0.step(quiet, quiet_probability).0.phase == Phase::Silence,
        v.step(loud, loud_probability).0.step(quiet, quiet_probability).1 == EventView::<S>::Idle(
            quiet_probability,
        ),
{
}

/// Cutting a monologue at the length cap loses no audio and does not pause it: the
/// segmenter keeps speaking, and what it carries on with is exactly the tail of the cut
/// segment, starting where that tail sits in the stream.
pub proof fn lemma_a_cut_loses_no_audio<S>(v: SegmenterView<S>)
    ensures
        ({
            let (after, segment) = v.cut();
            &&& after.phase == v.phase
            &&& segment.truncated
            &&& segment.samples == v.current
            &&& segment.start_sample == v.current_start
            &&& 0 <= segment.samples.len() - after.current.len()
            &&& after.current == segment.samples.subrange(
                segment.samples.len() - after.current.len(),
                segment.samples.len() as int,
            )
            &&& after.current_start == segment.start_sample + segment.samples.len()
                - after.current.len()
        }),
{
}

/// The view is what the stream `stream` leads to: it has counted every sample, its
/// pre-roll is the stream's latest samples, and a segment in progress is the stream
/// from where the segment starts up to now.
pub open spec fn agrees_with<S>(v: SegmenterView<S>, stream: Seq<S>) -> bool {
    &&& v.samples_seen == stream.len()
    &&& v.pre_roll_capacity >= 0
    &&& v.pre_roll.len() <= stream.len()
    &&& v.pre_roll == stream.subrange(stream.len() - v.pre_roll.len(), stream.len() as int)
    &&& v.phase == Phase::Silence ==> v.current.len() == 0
    &&& v.phase != Phase::Silence ==> {
        &&& v.pre_roll.len() == 0
        &&& 0 <= v.current_start
        &&& v.current_start + v.current.len() == stream.len()
        &&& v.current == stream.subrange(v.current_start, stream.len() as int)
    }
}

/// A segment is the slice of the stream that begins at its `start_sample`.
pub open spec fn slice_of<S>(stream: Seq<S>, segment: SegmentView<S>) -> bool {
    &&& 0 <= segment.start_sample
    &&& segment.start_sample + segment.samples.len() <= stream.len()
    &&& segment.samples == stream.subrange(
        segment.start_sample,
        segment.start_sample + segment.samples.len(),
    )
}

/// A new or reset segmenter has heard nothing.
pub proof fn lemma_a_fresh_segmenter_agrees<S>(v: SegmenterView<S>)
    requires
        v.phase == Phase::Silence,
        v.samples_seen == 0,
        v.pre_roll_capacity >= 0,
        v.pre_roll.len() == 0,
        v.current.len() == 0,
    ensures
        agrees_with(v, Seq::<S>::empty()),
{
    assert(v.pre_roll =~= Seq::<S>::empty().subrange(0, 0));
}

/// Every segment is a slice of the stream, each sample at most once: it begins at its
/// `start_sample` and holds the stream from there on, in order. Stepping keeps the view
/// in step with the stream, so this holds of every segment a run produces, cut at the
/// length cap or closed by silence.
pub proof fn lemma_segments_are_stream_slices<S>(
    v: SegmenterView<S>,
    stream: Seq<S>,
    frame: Seq<S>,
    probability: Score,
)
    requires
        agrees_with(v, stream),
    ensures
        agrees_with(v.step(frame, probability).0, stream + frame),
        v.step(frame, probability).1 matches EventView::Ready(segment) ==> slice_of(
            stream + frame,
            segment,
        ),
{
    let all = stream + frame;
    let speech = float_ge(probability.bits, v.config.speech_threshold.bits);
    let u = SegmenterView {
        frames_seen: v.frames_seen + 1,
        samples_seen: v.samples_seen + frame.len(),
        ..v
    };
    assert(all.subrange(0, stream.len() as int) =~= stream);
    if v.phase == Phase::Silence && !speech {
        lemma_pre_roll_stays_recent(v.pre_roll, u.pre_roll_capacity, frame, stream);
        assert(agrees_with(v.step(frame, probability).0, all));
    } else if v.phase == Phase::Rising && !speech {
        assert(Seq::<S>::empty() =~= stream.subrange(stream.len() as int, stream.len() as int));
        lemma_pre_roll_stays_recent(Seq::empty(), u.pre_roll_capacity, frame, stream);
        assert(agrees_with(v.step(frame, probability).0, all));
    } else {
        let w = if v.phase == Phase::Silence {
            SegmenterView { phase: Phase::Rising, rising: 1, ..u }.started(stream.len() as int)
        } else {
            u
        };
        assert(w.current == stream.subrange(w.current_start, stream.len() as int));
        let x = w.with_frame(frame);
        assert(x.current =~= all.subrange(w.current_start, all.len() as int));
        assert(Seq::<S>::empty() =~= all.subrange(all.len() as int, all.len() as int));
        if x.phase != Phase::Silence && x.phase != Phase::Rising {
            let (after, cut) = x.cut();
            let carried = x.current.len() - x.overlap();
            assert(after.current =~= all.subrange(x.current_start + carried, all.len() as int));
            let (done, finished) = x.finished();
            let trimmed = finished.samples.len();
            assert(finished.samples =~= all.subrange(x.current_start, x.current_start + trimmed));
        }
        assert(x.samples_seen == all.len());
        assert(x.pre_roll_capacity >= 0);
        assert(x.pre_roll.len() == 0);
        assert(x.pre_roll == all.subrange(all.len() - x.pre_roll.len(), all.len() as int));
        assert(x.phase != Phase::Silence);
        assert(0 <= x.current_start);
        assert(x.current_start + x.current.len() == all.len());
        assert(agrees_with(x, all));
        assert(agrees_with(v.step(frame, probability).0, all));
    }
}

/// Whatever the segmenter closes when listening stops is a slice of the stream too.
pub proof fn lemma_a_flushed_segment_is_a_stream_slice<S>(v: SegmenterView<S>, stream: Seq<S>)
    requires
        agrees_with(v, stream),
        v.phase == Phase::Speech || v.phase == Phase::Trailing,
    ensures
        slice_of(stream, v.finished().1),
        agrees_with(v.finished().0, stream),
{
    let trimmed = v.finished().1.samples.len();
    assert(v.finished().1.samples =~= stream.subrange(v.current_start, v.current_start + trimmed));
    assert(Seq::<S>::empty() =~= stream.subrange(stream.len() as int, stream.len() as int));
}

proof fn lemma_pre_roll_stays_recent<S>(pre_roll: Seq<S>, capacity: int, frame: Seq<S>, stream: Seq<S>)
    requires
        pre_roll.len() <= stream.len(),
        pre_roll == stream.subrange(stream.len() - pre_roll.len(), stream.len() as int),
        capacity >= 0,
    ensures
        ({
            let kept = remembered(pre_roll, capacity, frame);
            let all = stream + frame;
            &&& kept.len() <= all.len()
            &&& kept == all.subrange(all.len() - kept.len(), all.len() as int)
        }),
{
    let all = stream + frame;
    let joined = pre_roll + frame;
    assert(joined =~= all.subrange(stream.len() - pre_roll.len(), all.len() as int));
    let kept = remembered(pre_roll, capacity, frame);
    assert(kept =~= all.subrange(all.len() - kept.len(), all.len() as int));
}

} // verus!
