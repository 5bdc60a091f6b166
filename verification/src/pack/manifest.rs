//! What the bundled manifest promises of its sounds, decided on plain text.

use vstd::prelude::*;

use crate::text::{chars_of, contains_chars, occurs_in, same_text};

verus! {

/// Whether a licence URL is the CC0 public-domain dedication: every bundled sound has to
/// be one.
pub fn is_cc0_license(license_url: &str) -> (cc0: bool)
    ensures
        cc0 == occurs_in(license_url@, "publicdomain/zero"@),
{
    let text = chars_of(license_url);
    let needle = chars_of("publicdomain/zero");
    contains_chars(text.as_slice(), needle.as_slice())
}

/// The positions, in order, of the sounds that belong to `event_id`.
pub open spec fn positions_of(event_ids: Seq<Seq<char>>, event_id: Seq<char>) -> Seq<int>
    decreases event_ids.len(),
{
    if event_ids.len() == 0 {
        Seq::empty()
    } else {
        let rest = positions_of(event_ids.drop_last(), event_id);
        if event_ids.last() == event_id {
            rest.push(event_ids.len() - 1)
        } else {
            rest
        }
    }
}

/// Which of the manifest's sounds, given by their event ids, play for `event_id`.
pub fn sounds_for(event_ids: &Vec<String>, event_id: &str) -> (positions: Vec<usize>)
    ensures
        positions@.map_values(|p: usize| p as int) == positions_of(
            event_ids@.map_values(|e: String| e@),
            event_id@,
        ),
{
    let ghost ids = event_ids@.map_values(|e: String| e@);
    let mut positions: Vec<usize> = Vec::new();
    let mut i: usize = 0;
    while i < event_ids.len()
        invariant
            i <= event_ids@.len(),
            ids == event_ids@.map_values(|e: String| e@),
            positions@.map_values(|p: usize| p as int) == positions_of(ids.take(i as int), event_id@),
        decreases event_ids@.len() - i,
    {
        proof {
            assert(ids.take(i + 1).drop_last() =~= ids.take(i as int));
            assert(ids.take(i + 1).last() == event_ids@[i as int]@);
        }
        if same_text(event_ids[i].as_str(), event_id) {
            let ghost before = positions@.map_values(|p: usize| p as int);
            positions.push(i);
            assert(positions@.map_values(|p: usize| p as int) =~= before.push(i as int));
        }
        i = i + 1;
    }
    assert(ids.take(event_ids@.len() as int) =~= ids);
    positions
}

} // verus!
