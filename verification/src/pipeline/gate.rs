//! Muting the microphone while the application's own sounds are playing.
//!
//! Speakers and a microphone in the same room form a loop: a thunderclap the app just
//! played is heard, recognised as words, and can trigger another sound. The loop is
//! broken the blunt way, by ignoring the microphone for as long as a sound is audible.
//!
//! The mute holds a point in time rather than an on/off state. A second sound started
//! on top of the first pushes that point later, nothing has to remember to release it,
//! and a crash between the start and the end of a sound cannot leave the microphone
//! muted forever.

use std::sync::atomic::{AtomicU64, Ordering};
use std::sync::Arc;

use vstd::prelude::*;

use crate::clock::epoch_millis;

verus! {

/// An upper bound on a single suppression, in milliseconds, so a very long file, or a
/// wrong duration read from a corrupt header, cannot mute the microphone for the rest
/// of the session.
pub const MAX_SUPPRESSION_MS: u64 = 30_000;

/// The deadline a suppression of `duration_ms` starting at `now_ms` sets.
pub open spec fn deadline(now_ms: u64, duration_ms: u64) -> u64 {
    let capped = if duration_ms < MAX_SUPPRESSION_MS {
        duration_ms
    } else {
        MAX_SUPPRESSION_MS
    };
    if now_ms + capped > u64::MAX {
        u64::MAX
    } else {
        (now_ms + capped) as u64
    }
}

/// The deadline a suppression of `duration_ms` starting at `now_ms` sets: the duration
/// capped at `MAX_SUPPRESSION_MS`, added without overflow.
pub fn suppression_deadline(now_ms: u64, duration_ms: u64) -> (until_ms: u64)
    ensures
        until_ms == deadline(now_ms, duration_ms),
{
    let capped = if duration_ms < MAX_SUPPRESSION_MS {
        duration_ms
    } else {
        MAX_SUPPRESSION_MS
    };
    now_ms.saturating_add(capped)
}

/// Whether a deadline still mutes the microphone at `now_ms`.
pub fn suppressed_at(until_ms: u64, now_ms: u64) -> (muted: bool)
    ensures
        muted == (until_ms > now_ms),
{
    until_ms > now_ms
}

/// A suppression never outlasts the cap, and a zero duration suppresses nothing.
pub proof fn lemma_suppression_is_bounded(now_ms: u64, duration_ms: u64)
    ensures
        now_ms <= deadline(now_ms, duration_ms) <= now_ms + MAX_SUPPRESSION_MS,
        deadline(now_ms, duration_ms) <= now_ms + duration_ms,
        duration_ms == 0 ==> deadline(now_ms, duration_ms) == now_ms,
{
}

/// Shared "ignore the microphone until" deadline, in milliseconds since the Unix
/// epoch. Cloning shares the deadline; the playback side and the capture side each
/// hold one.
#[derive(Clone)]
pub struct PlaybackGate {
    /// Zero means "never suppressed", which is how every new one starts.
    until_ms: Arc<AtomicU64>,
}

impl PlaybackGate {
    pub fn new() -> (gate: Self) {
        PlaybackGate { until_ms: Arc::new(AtomicU64::new(0)) }
    }

    /// Ignore the microphone for `duration_ms` from now.
    ///
    /// Only ever moves the deadline later: a short sound starting on top of a long one
    /// must not un-mute the microphone while the long one is still playing.
    pub fn suppress_for(&self, duration_ms: u64) {
        let until = suppression_deadline(now_ms(), duration_ms);
        self.until_ms.fetch_max(until, Ordering::Relaxed);
    }

    pub fn is_suppressed(&self) -> (muted: bool) {
        let until = self.until_ms.load(Ordering::Relaxed);
        suppressed_at(until, now_ms())
    }

    /// Un-mute immediately, e.g. when playback is stopped by hand.
    pub fn release(&self) {
        self.until_ms.store(0, Ordering::Relaxed);
    }
}

/// Milliseconds since the Unix epoch, or 0 when the clock reads before it.
fn now_ms() -> (millis: u64) {
    match epoch_millis() {
        Some(millis) => millis,
        None => 0,
    }
}

} // verus!
