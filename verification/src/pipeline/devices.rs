//! The order microphones are listed in: the system default first, then by name.
//! Asking the host which devices exist is I/O done around the library.

use vstd::prelude::*;

use crate::order::{
    lemma_text_total, lemma_text_transitive, rank, ranked, text_at_or_before, text_le, Ranked,
};
use crate::pipeline::types::InputDevice;

verus! {

impl Ranked for InputDevice {
    /// A default before a non-default, and otherwise by name.
    open spec fn ranks_before(self, other: Self) -> bool {
        (self.is_default && !other.is_default) || (self.is_default == other.is_default && text_le(
            self.name@,
            other.name@,
        ))
    }

    proof fn lemma_total(a: Self, b: Self) {
        lemma_text_total(a.name@, b.name@);
    }

    proof fn lemma_transitive(a: Self, b: Self, c: Self) {
        if a.is_default == b.is_default && b.is_default == c.is_default {
            lemma_text_transitive(a.name@, b.name@, c.name@);
        }
    }

    fn comes_before(&self, other: &Self) -> (before: bool) {
        (self.is_default && !other.is_default) || (self.is_default == other.is_default
            && text_at_or_before(self.name.as_str(), other.name.as_str()))
    }
}

/// Put the host's devices in listing order: the default first, then by name, devices
/// alike in both keeping the order the host gave them.
pub fn listing_order(devices: Vec<InputDevice>) -> (listed: Vec<InputDevice>)
    ensures
        listed@ == ranked(devices@),
{
    rank(devices)
}

} // verus!
