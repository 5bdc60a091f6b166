//! Which phrases the semantic index embeds, and where phrase vectors are kept between
//! runs. The vectors themselves are floating-point work outside the library.

use vstd::prelude::*;

use crate::detect::event::{EventDefinition, Phrase};

verus! {

/// A cache of phrase vectors that keeps nothing: every phrase is embedded again. Fine
/// for a handful of events.
#[derive(Debug, Clone, Copy, PartialEq, Eq, Structural)]
pub struct NoCache;

/// Every example phrase of every enabled event, as (event id, phrase text), events in
/// order and each event's phrases in order.
pub open spec fn phrase_pairs(events: Seq<EventDefinition>) -> Seq<(Seq<char>, Seq<char>)>
    decreases events.len(),
{
    if events.len() == 0 {
        Seq::empty()
    } else {
        let event = events.last();
        let rest = phrase_pairs(events.drop_last());
        if event.enabled {
            rest + event.phrases@.filter(|p: Phrase| p.is_command == false).map_values(
                |p: Phrase| (event.id@, p.text@),
            )
        } else {
            rest
        }
    }
}

pub open spec fn pair_views(pairs: Seq<(String, String)>) -> Seq<(Seq<char>, Seq<char>)> {
    pairs.map_values(|pair: (String, String)| (pair.0@, pair.1@))
}

/// The phrases the semantic index holds a vector for: each example phrase of each
/// enabled event, with the event it belongs to. Commands and disabled events are left
/// out.
pub fn indexed_phrases(events: &[EventDefinition]) -> (pairs: Vec<(String, String)>)
    ensures
        pair_views(pairs@) == phrase_pairs(events@),
{
    let mut pairs: Vec<(String, String)> = Vec::new();
    let mut e: usize = 0;
    while e < events.len()
        invariant
            e <= events@.len(),
            pair_views(pairs@) == phrase_pairs(events@.take(e as int)),
        decreases events@.len() - e,
    {
        let event = &events[e];
        assert(events@.take(e + 1).drop_last() =~= events@.take(e as int));
        assert(events@.take(e + 1).last() == events@[e as int]);
        if event.enabled {
            let examples = event.examples();
            let ghost head = pairs@;
            let ghost added = examples@.map_values(|p: Phrase| (event.id@, p.text@));
            let mut k: usize = 0;
            while k < examples.len()
                invariant
                    k <= examples@.len(),
                    added == examples@.map_values(|p: Phrase| (event.id@, p.text@)),
                    pair_views(pairs@) == pair_views(head) + added.take(k as int),
                decreases examples@.len() - k,
            {
                let id = event.id.clone();
                let text = examples[k].text.clone();
                assert(added[k as int] == (id@, text@));
                let ghost before = pairs@;
                pairs.push((id, text));
                assert(pair_views(pairs@) =~= pair_views(before).push((id@, text@)));
                assert(added.take(k + 1) =~= added.take(k as int).push(added[k as int]));
                k = k + 1;
                assert(pair_views(pairs@) =~= pair_views(head) + added.take(k as int));
            }
            assert(added.take(examples@.len() as int) =~= added);
        }
        e = e + 1;
    }
    assert(events@.take(events@.len() as int) =~= events@);
    pairs
}

} // verus!
