//! The wall clock, read once per call.

use vstd::prelude::*;

verus! {

/// The time since the Unix epoch as whole seconds and the nanoseconds past them, or
/// `None` when the clock reads before the epoch.
///
/// Calls `std::time::SystemTime::now` and `duration_since(UNIX_EPOCH)`. Of the value
/// only what `Duration::subsec_nanos` documents is stated: it is under a second.
#[verifier::external_body]
fn since_epoch() -> (elapsed: Option<(u64, u32)>)
    ensures
        elapsed matches Some((_, nanos)) ==> nanos < 1_000_000_000,
{
    match std::time::SystemTime::now().duration_since(std::time::UNIX_EPOCH) {
        Ok(elapsed) => Some((elapsed.as_secs(), elapsed.subsec_nanos())),
        Err(_) => None,
    }
}

/// A time of `secs` seconds and `nanos` nanoseconds in nanoseconds, cut to the low 64
/// bits.
pub open spec fn nanos_of(secs: u64, nanos: u32) -> u64 {
    ((secs * 1_000_000_000 + nanos) % 0x1_0000_0000_0000_0000) as u64
}

/// A time of `secs` seconds and `nanos` nanoseconds in whole milliseconds, cut to the
/// low 64 bits.
pub open spec fn millis_of(secs: u64, nanos: u32) -> u64 {
    ((secs * 1_000 + nanos / 1_000_000) % 0x1_0000_0000_0000_0000) as u64
}

proof fn lemma_wrapped(product: int, addend: int)
    requires
        0 <= product,
        0 <= addend < 0x1_0000_0000_0000_0000,
    ensures
        ((product % 0x1_0000_0000_0000_0000) + addend) % 0x1_0000_0000_0000_0000 == (product
            + addend) % 0x1_0000_0000_0000_0000,
{
    vstd::arithmetic::div_mod::lemma_add_mod_noop(product, addend, 0x1_0000_0000_0000_0000);
    vstd::arithmetic::div_mod::lemma_small_mod(addend as nat, 0x1_0000_0000_0000_0000);
    vstd::arithmetic::div_mod::lemma_mod_twice(product, 0x1_0000_0000_0000_0000);
}

/// A reading of the clock, in nanoseconds.
pub fn nanoseconds(secs: u64, nanos: u32) -> (total: u64)
    ensures
        total == nanos_of(secs, nanos),
{
    proof {
        lemma_wrapped(secs * 1_000_000_000, nanos as int);
    }
    secs.wrapping_mul(1_000_000_000).wrapping_add(nanos as u64)
}

/// A reading of the clock, in milliseconds.
pub fn milliseconds(secs: u64, nanos: u32) -> (total: u64)
    ensures
        total == millis_of(secs, nanos),
{
    proof {
        lemma_wrapped(secs * 1_000, (nanos / 1_000_000) as int);
    }
    secs.wrapping_mul(1_000).wrapping_add((nanos / 1_000_000) as u64)
}

/// Nanoseconds since the Unix epoch, cut to their low 64 bits; `None` before it. What
/// the clock reads is not known in advance; `nanoseconds` states what is made of it.
pub fn epoch_nanos() -> (nanos: Option<u64>) {
    match since_epoch() {
        Some((secs, nanos)) => Some(nanoseconds(secs, nanos)),
        None => None,
    }
}

/// Milliseconds since the Unix epoch, cut to their low 64 bits; `None` before it. What
/// the clock reads is not known in advance; `milliseconds` states what is made of it.
pub fn epoch_millis() -> (millis: Option<u64>) {
    match since_epoch() {
        Some((secs, nanos)) => Some(milliseconds(secs, nanos)),
        None => None,
    }
}

} // verus!
