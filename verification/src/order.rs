//! Putting lists in the order they are shown in: a stable insertion of each item after
//! every item already placed that may come before it, for any total preorder.

use vstd::prelude::*;

use crate::text::chars_of;

verus! {

/// A total preorder: what may be listed before what.
pub trait Ranked: Sized {
    spec fn ranks_before(self, other: Self) -> bool;

    proof fn lemma_total(a: Self, b: Self)
        ensures
            a.ranks_before(b) || b.ranks_before(a),
    ;

    proof fn lemma_transitive(a: Self, b: Self, c: Self)
        requires
            a.ranks_before(b),
            b.ranks_before(c),
        ensures
            a.ranks_before(c),
    ;

    fn comes_before(&self, other: &Self) -> (before: bool)
        ensures
            before == self.ranks_before(*other),
    ;
}

/// The first position, from `from` on, whose item may not be listed before `item`.
pub open spec fn first_after<T: Ranked>(placed: Seq<T>, item: T, from: int) -> int
    decreases placed.len() - from,
{
    if from < 0 || from >= placed.len() {
        placed.len() as int
    } else if !placed[from].ranks_before(item) {
        from
    } else {
        first_after(placed, item, from + 1)
    }
}

/// The items in order: each one, in the order given, inserted after every item already
/// placed that may come before it. Items that rank alike keep the order they came in.
pub open spec fn ranked<T: Ranked>(items: Seq<T>) -> Seq<T>
    decreases items.len(),
{
    if items.len() == 0 {
        Seq::empty()
    } else {
        let placed = ranked(items.drop_last());
        placed.insert(first_after(placed, items.last(), 0), items.last())
    }
}

/// Every item may be listed before every item after it.
pub open spec fn in_rank_order<T: Ranked>(items: Seq<T>) -> bool {
    forall|i: int, j: int| 0 <= i < j < items.len() ==> (#[trigger] items[i]).ranks_before(#[trigger] items[j])
}

proof fn lemma_first_after<T: Ranked>(placed: Seq<T>, item: T, from: int)
    requires
        0 <= from <= placed.len(),
    ensures
        from <= first_after(placed, item, from) <= placed.len(),
        forall|k: int| from <= k < first_after(placed, item, from) ==> (#[trigger] placed[k]).ranks_before(item),
        first_after(placed, item, from) < placed.len() ==> !placed[first_after(placed, item, from)].ranks_before(item),
    decreases placed.len() - from,
{
    if from < placed.len() && placed[from].ranks_before(item) {
        lemma_first_after(placed, item, from + 1);
    }
}

proof fn lemma_insert_keeps_order<T: Ranked>(placed: Seq<T>, item: T)
    requires
        in_rank_order(placed),
    ensures
        in_rank_order(placed.insert(first_after(placed, item, 0), item)),
{
    let at = first_after(placed, item, 0);
    lemma_first_after(placed, item, 0);
    let out = placed.insert(at, item);
    assert forall|i: int, j: int| 0 <= i < j < out.len() implies (#[trigger] out[i]).ranks_before(
        #[trigger] out[j],
    ) by {
        if i < at && j == at {
            assert(out[i] == placed[i]);
        } else if i == at && j > at {
            assert(out[j] == placed[j - 1]);
            T::lemma_total(placed[at], item);
            if j - 1 > at {
                assert(placed[at].ranks_before(placed[j - 1]));
                T::lemma_transitive(item, placed[at], placed[j - 1]);
            }
        } else if i < at && j > at {
            assert(out[i] == placed[i]);
            assert(out[j] == placed[j - 1]);
            assert(placed[i].ranks_before(placed[j - 1]));
        } else if j < at {
            assert(out[i] == placed[i] && out[j] == placed[j]);
        } else {
            assert(out[i] == placed[i - 1] && out[j] == placed[j - 1]);
        }
    }
}

/// Ranking puts a list in order, and keeps every item of it, each as often as it came.
pub proof fn lemma_ranking_is_ordered<T: Ranked>(items: Seq<T>)
    ensures
        in_rank_order(ranked(items)),
        ranked(items).to_multiset() == items.to_multiset(),
    decreases items.len(),
{
    broadcast use vstd::seq_lib::to_multiset_insert, vstd::seq_lib::to_multiset_build;

    if items.len() > 0 {
        let rest = items.drop_last();
        lemma_ranking_is_ordered(rest);
        let placed = ranked(rest);
        lemma_insert_keeps_order(placed, items.last());
        lemma_first_after(placed, items.last(), 0);
        assert(items =~= rest.push(items.last()));
        assert(placed.insert(first_after(placed, items.last(), 0), items.last()).to_multiset()
            == placed.to_multiset().insert(items.last()));
        assert(rest.push(items.last()).to_multiset() == rest.to_multiset().insert(items.last()));
    } else {
        assert(items =~= Seq::<T>::empty());
    }
}

/// Where `item` goes in an ordered list: after every item that may come before it.
fn insertion_point<T: Ranked>(placed: &Vec<T>, item: &T) -> (at: usize)
    ensures
        at == first_after(placed@, *item, 0),
        at <= placed@.len(),
{
    proof {
        lemma_first_after(placed@, *item, 0);
    }
    let mut at: usize = 0;
    while at < placed.len() && placed[at].comes_before(item)
        invariant
            at <= placed@.len(),
            first_after(placed@, *item, 0) == first_after(placed@, *item, at as int),
        decreases placed@.len() - at,
    {
        at = at + 1;
    }
    at
}

/// Put a list in order, keeping items that rank alike in the order they came.
pub fn rank<T: Ranked>(items: Vec<T>) -> (ordered: Vec<T>)
    ensures
        ordered@ == ranked(items@),
{
    let ghost given = items@;
    let count = items.len();
    let mut remaining = items;
    let mut ordered: Vec<T> = Vec::new();
    let mut taken: usize = 0;
    while remaining.len() > 0
        invariant
            taken <= given.len(),
            given.len() == count,
            remaining@ == given.skip(taken as int),
            remaining@.len() == given.len() - taken,
            ordered@ == ranked(given.take(taken as int)),
        decreases remaining@.len(),
    {
        let item = remaining.remove(0);
        let at = insertion_point(&ordered, &item);
        proof {
            assert(given.take(taken + 1).drop_last() =~= given.take(taken as int));
            assert(given.take(taken + 1).last() == given[taken as int]);
        }
        ordered.insert(at, item);
        taken = taken + 1;
        assert(remaining@ =~= given.skip(taken as int));
    }
    assert(given.take(given.len() as int) =~= given);
    ordered
}

/// Whether text `a` sorts at or before text `b`, character by character, as `str`
/// comparison orders them (UTF-8 keeps code point order).
pub open spec fn text_le(a: Seq<char>, b: Seq<char>) -> bool
    decreases a.len(),
{
    if a.len() == 0 {
        true
    } else if b.len() == 0 {
        false
    } else if a[0] != b[0] {
        (a[0] as int) < (b[0] as int)
    } else {
        text_le(a.drop_first(), b.drop_first())
    }
}

pub proof fn lemma_text_total(a: Seq<char>, b: Seq<char>)
    ensures
        text_le(a, b) || text_le(b, a),
    decreases a.len(),
{
    if a.len() > 0 && b.len() > 0 && a[0] == b[0] {
        lemma_text_total(a.drop_first(), b.drop_first());
    }
}

pub proof fn lemma_text_transitive(a: Seq<char>, b: Seq<char>, c: Seq<char>)
    requires
        text_le(a, b),
        text_le(b, c),
    ensures
        text_le(a, c),
    decreases a.len(),
{
    if a.len() > 0 && b.len() > 0 && c.len() > 0 && a[0] == b[0] && b[0] == c[0] {
        lemma_text_transitive(a.drop_first(), b.drop_first(), c.drop_first());
    }
}

/// Whether text `a` sorts at or before text `b`.
pub fn text_at_or_before(a: &str, b: &str) -> (le: bool)
    ensures
        le == text_le(a@, b@),
{
    let x = chars_of(a);
    let y = chars_of(b);
    let mut i: usize = 0;
    assert(x@.skip(0) =~= x@);
    assert(y@.skip(0) =~= y@);
    while i < x.len() && i < y.len() && x[i] == y[i]
        invariant
            i <= x@.len(),
            i <= y@.len(),
            text_le(x@, y@) == text_le(x@.skip(i as int), y@.skip(i as int)),
        decreases x@.len() - i,
    {
        assert(x@.skip(i as int).drop_first() =~= x@.skip(i + 1));
        assert(y@.skip(i as int).drop_first() =~= y@.skip(i + 1));
        i = i + 1;
    }
    if i < x.len() {
        assert(x@.skip(i as int)[0] == x@[i as int]);
    }
    if i < y.len() {
        assert(y@.skip(i as int)[0] == y@[i as int]);
    }
    if i == x.len() {
        true
    } else if i == y.len() {
        false
    } else {
        x[i] < y[i]
    }
}

} // verus!
