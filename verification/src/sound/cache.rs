//! A least-recently-used cache bounded by bytes, not by entry count.
//!
//! A 5,000-sound library must never be loaded into RAM, and a count cannot say that:
//! 200 short door creaks and 200 two-minute ambience beds are wildly different amounts
//! of memory. So the budget is in bytes, and entries are evicted until the total fits.
//!
//! The recency order is kept by the `lru` crate, over each entry's key and size; the
//! values themselves sit in a map beside it.

use std::collections::HashMap;

use lru::LruCache;
use vstd::prelude::*;

verus! {

broadcast use vstd::std_specs::hash::group_hash_axioms;

#[verifier::external_type_specification]
#[verifier::external_body]
#[verifier::reject_recursive_types(K)]
#[verifier::reject_recursive_types(V)]
#[verifier::reject_recursive_types(S)]
pub struct ExLruCache<K, V, S>(LruCache<K, V, S>);

#[verifier::external_type_specification]
#[verifier::external_body]
pub struct ExLruHasher(lru::DefaultHasher);

/// What an LRU cache of entry sizes holds: (key, size) pairs, least recently used first.
pub uninterp spec fn lru_order(cache: LruCache<u64, usize>) -> Seq<(u64, usize)>;

/// The first position of a key in a recency order.
pub open spec fn position_of(order: Seq<(u64, usize)>, key: u64, from: int) -> Option<int>
    decreases order.len() - from,
{
    if from < 0 || from >= order.len() {
        None
    } else if order[from].0 == key {
        Some(from)
    } else {
        position_of(order, key, from + 1)
    }
}

/// The order with an entry moved to the most recently used end.
pub open spec fn touched(order: Seq<(u64, usize)>, at: int) -> Seq<(u64, usize)> {
    order.remove(at).push(order[at])
}

/// `LruCache::unbounded`: an empty cache with no entry limit.
#[verifier::external_body]
fn lru_unbounded() -> (cache: LruCache<u64, usize>)
    ensures
        lru_order(cache) == Seq::<(u64, usize)>::empty(),
{
    LruCache::unbounded()
}

/// `LruCache::len`: the number of entries.
#[verifier::external_body]
fn lru_len(cache: &LruCache<u64, usize>) -> (len: usize)
    ensures
        len == lru_order(*cache).len(),
{
    cache.len()
}

/// `LruCache::get`: the size stored under a key, which becomes the most recently used.
#[verifier::external_body]
fn lru_get(cache: &mut LruCache<u64, usize>, key: u64) -> (size: Option<usize>)
    ensures
        match position_of(lru_order(*old(cache)), key, 0) {
            Some(at) => size == Some(lru_order(*old(cache))[at].1) && lru_order(*final(cache))
                == touched(lru_order(*old(cache)), at),
            None => size is None && lru_order(*final(cache)) == lru_order(*old(cache)),
        },
{
    cache.get(&key).copied()
}

/// `LruCache::pop`: remove a key's entry and return its size.
#[verifier::external_body]
fn lru_pop(cache: &mut LruCache<u64, usize>, key: u64) -> (size: Option<usize>)
    ensures
        match position_of(lru_order(*old(cache)), key, 0) {
            Some(at) => size == Some(lru_order(*old(cache))[at].1) && lru_order(*final(cache))
                == lru_order(*old(cache)).remove(at),
            None => size is None && lru_order(*final(cache)) == lru_order(*old(cache)),
        },
{
    cache.pop(&key)
}

/// `LruCache::put` on a key with no entry: the entry is added as the most recently
/// used. The cache is unbounded, so nothing is displaced.
#[verifier::external_body]
fn lru_put_new(cache: &mut LruCache<u64, usize>, key: u64, size: usize)
    requires
        position_of(lru_order(*old(cache)), key, 0) is None,
        lru_order(*old(cache)).len() < usize::MAX,
    ensures
        lru_order(*final(cache)) == lru_order(*old(cache)).push((key, size)),
{
    cache.put(key, size);
}

/// `LruCache::pop_lru`: remove and return the least recently used entry.
#[verifier::external_body]
fn lru_pop_oldest(cache: &mut LruCache<u64, usize>) -> (entry: Option<(u64, usize)>)
    ensures
        lru_order(*old(cache)).len() == 0 ==> entry is None && lru_order(*final(cache))
            == lru_order(*old(cache)),
        lru_order(*old(cache)).len() > 0 ==> entry == Some(lru_order(*old(cache))[0])
            && lru_order(*final(cache)) == lru_order(*old(cache)).drop_first(),
{
    cache.pop_lru()
}

/// `LruCache::clear`: remove every entry.
#[verifier::external_body]
fn lru_clear(cache: &mut LruCache<u64, usize>)
    ensures
        lru_order(*final(cache)) == Seq::<(u64, usize)>::empty(),
{
    cache.clear()
}

/// The bytes a recency order accounts for.
pub open spec fn total(order: Seq<(u64, usize)>) -> nat
    decreases order.len(),
{
    if order.len() == 0 {
        0
    } else {
        total(order.drop_last()) + order.last().1 as nat
    }
}

/// No key appears twice.
pub open spec fn distinct_keys(order: Seq<(u64, usize)>) -> bool {
    forall|a: int, b: int| 0 <= a < b < order.len() ==> order[a].0 != order[b].0
}

/// Evict least recently used entries until the total fits the budget, never evicting
/// the last one: a single value larger than the whole budget is still kept, because
/// re-decoding it on every play would be worse than briefly exceeding the budget.
pub open spec fn evicted(order: Seq<(u64, usize)>, budget: nat) -> Seq<(u64, usize)>
    decreases order.len(),
{
    if total(order) > budget && order.len() > 1 {
        evicted(order.drop_first(), budget)
    } else {
        order
    }
}

/// The order with a key's entry, if any, taken out.
pub open spec fn without(order: Seq<(u64, usize)>, key: u64) -> Seq<(u64, usize)> {
    match position_of(order, key, 0) {
        Some(at) => order.remove(at),
        None => order,
    }
}

/// A cache of values bounded by the bytes they take.
pub struct ByteBudgetCache<V> {
    entries: LruCache<u64, usize>,
    values: HashMap<u64, V>,
    budget_bytes: usize,
    used_bytes: usize,
}

impl<V> ByteBudgetCache<V> {
    /// The entries, least recently used first, with their sizes.
    pub closed spec fn order(&self) -> Seq<(u64, usize)> {
        lru_order(self.entries)
    }

    /// The cached values by key.
    pub closed spec fn contents(&self) -> Map<u64, V> {
        self.values@
    }

    pub closed spec fn budget(&self) -> nat {
        self.budget_bytes as nat
    }

    /// Every key listed once, every listed key holding a value and nothing else held,
    /// and the byte count equal to the sizes listed.
    pub closed spec fn wf(&self) -> bool {
        &&& distinct_keys(self.order())
        &&& forall|k: u64| #[trigger] self.values@.contains_key(k) <==> position_of(self.order(), k, 0) is Some
        &&& self.used_bytes == total(self.order())
    }

    pub fn new(budget_bytes: usize) -> (cache: Self)
        ensures
            cache.wf(),
            cache.order() == Seq::<(u64, usize)>::empty(),
            cache.budget() == budget_bytes,
    {
        ByteBudgetCache {
            entries: lru_unbounded(),
            values: HashMap::new(),
            budget_bytes,
            used_bytes: 0,
        }
    }

    pub fn used_bytes(&self) -> (used: usize)
        requires
            self.wf(),
        ensures
            used == total(self.order()),
    {
        self.used_bytes
    }

    pub fn budget_bytes(&self) -> (budget: usize)
        ensures
            budget == self.budget(),
    {
        self.budget_bytes
    }

    pub fn len(&self) -> (len: usize)
        ensures
            len == self.order().len(),
    {
        lru_len(&self.entries)
    }

    pub fn is_empty(&self) -> (empty: bool)
        ensures
            empty == (self.order().len() == 0),
    {
        lru_len(&self.entries) == 0
    }
}


proof fn lemma_position(order: Seq<(u64, usize)>, key: u64, from: int)
    requires
        0 <= from,
    ensures
        match position_of(order, key, from) {
            Some(i) => from <= i < order.len() && order[i].0 == key && forall|j: int|
                from <= j < i ==> order[j].0 != key,
            None => forall|j: int| from <= j < order.len() ==> order[j].0 != key,
        },
    decreases order.len() - from,
{
    if from < order.len() && order[from].0 != key {
        lemma_position(order, key, from + 1);
    }
}

/// In an order without repeated keys, a key's position is wherever it is.
proof fn lemma_position_of_distinct(order: Seq<(u64, usize)>, at: int)
    requires
        distinct_keys(order),
        0 <= at < order.len(),
    ensures
        position_of(order, order[at].0, 0) == Some(at),
{
    lemma_position(order, order[at].0, 0);
}

proof fn lemma_total_push(order: Seq<(u64, usize)>, entry: (u64, usize))
    ensures
        total(order.push(entry)) == total(order) + entry.1,
{
    assert(order.push(entry).drop_last() =~= order);
}

proof fn lemma_total_remove(order: Seq<(u64, usize)>, at: int)
    requires
        0 <= at < order.len(),
    ensures
        total(order) == total(order.remove(at)) + order[at].1,
    decreases order.len(),
{
    if at == order.len() - 1 {
        assert(order.remove(at) =~= order.drop_last());
    } else {
        lemma_total_remove(order.drop_last(), at);
        assert(order.remove(at).drop_last() =~= order.drop_last().remove(at));
        assert(order.remove(at).last() == order.last());
    }
}

proof fn lemma_total_drop_first(order: Seq<(u64, usize)>)
    requires
        order.len() > 0,
    ensures
        total(order) == total(order.drop_first()) + order[0].1,
{
    lemma_total_remove(order, 0);
    assert(order.remove(0) =~= order.drop_first());
}

/// Removing entries keeps the keys distinct and takes exactly those keys away.
proof fn lemma_remove_keeps_keys(order: Seq<(u64, usize)>, at: int)
    requires
        distinct_keys(order),
        0 <= at < order.len(),
    ensures
        distinct_keys(order.remove(at)),
        forall|k: u64|
            (position_of(order.remove(at), k, 0) is Some) <==> (position_of(order, k, 0) is Some
                && k != order[at].0),
{
    let smaller = order.remove(at);
    assert forall|a: int, b: int| 0 <= a < b < smaller.len() implies smaller[a].0 != smaller[b].0 by {
        let oa = if a < at { a } else { a + 1 };
        let ob = if b < at { b } else { b + 1 };
        assert(smaller[a] == order[oa] && smaller[b] == order[ob]);
    }
    assert forall|k: u64|
        (position_of(smaller, k, 0) is Some) <==> (position_of(order, k, 0) is Some && k
            != order[at].0) by {
        lemma_position(smaller, k, 0);
        lemma_position(order, k, 0);
        if position_of(smaller, k, 0) is Some {
            let i = position_of(smaller, k, 0)->0;
            let oi = if i < at { i } else { i + 1 };
            assert(order[oi].0 == k);
        }
        if position_of(order, k, 0) is Some && k != order[at].0 {
            let i = position_of(order, k, 0)->0;
            let si = if i < at { i } else { i - 1 };
            assert(smaller[si].0 == k);
        }
    }
}

/// Adding an entry for a new key keeps the keys distinct and adds that key.
proof fn lemma_push_keeps_keys(order: Seq<(u64, usize)>, entry: (u64, usize))
    requires
        distinct_keys(order),
        position_of(order, entry.0, 0) is None,
    ensures
        distinct_keys(order.push(entry)),
        forall|k: u64|
            (position_of(order.push(entry), k, 0) is Some) <==> (position_of(order, k, 0) is Some
                || k == entry.0),
{
    let bigger = order.push(entry);
    lemma_position(order, entry.0, 0);
    assert forall|a: int, b: int| 0 <= a < b < bigger.len() implies bigger[a].0 != bigger[b].0 by {
        assert(bigger[a] == order[a]);
    }
    assert forall|k: u64|
        (position_of(bigger, k, 0) is Some) <==> (position_of(order, k, 0) is Some || k
            == entry.0) by {
        lemma_position(bigger, k, 0);
        lemma_position(order, k, 0);
        if position_of(bigger, k, 0) is Some {
            let i = position_of(bigger, k, 0)->0;
            if i < order.len() {
                assert(order[i].0 == k);
            }
        }
        if position_of(order, k, 0) is Some {
            let i = position_of(order, k, 0)->0;
            assert(bigger[i].0 == k);
        }
        if k == entry.0 {
            assert(bigger[order.len() as int].0 == k);
        }
    }
}

/// Eviction leaves the total within the budget, unless a single entry is left.
pub proof fn lemma_eviction_fits_the_budget(order: Seq<(u64, usize)>, budget: nat)
    ensures
        total(evicted(order, budget)) <= budget || evicted(order, budget).len() <= 1,
    decreases order.len(),
{
    if total(order) > budget && order.len() > 1 {
        lemma_eviction_fits_the_budget(order.drop_first(), budget);
    }
}

/// Eviction only ever removes the least recently used entries: what is left is the most
/// recently used end of the order.
pub proof fn lemma_eviction_keeps_the_most_recent(order: Seq<(u64, usize)>, budget: nat)
    ensures
        exists|k: int|
            0 <= k <= order.len() && evicted(order, budget) == order.subrange(k, order.len() as int),
        order.len() > 0 ==> evicted(order, budget).len() > 0,
    decreases order.len(),
{
    if total(order) > budget && order.len() > 1 {
        lemma_eviction_keeps_the_most_recent(order.drop_first(), budget);
        let k = choose|k: int|
            0 <= k <= order.drop_first().len() && evicted(order.drop_first(), budget)
                == order.drop_first().subrange(k, order.drop_first().len() as int);
        assert(order.drop_first().subrange(k, order.drop_first().len() as int) =~= order.subrange(
            k + 1,
            order.len() as int,
        ));
    } else {
        assert(order.subrange(0, order.len() as int) =~= order);
    }
}

impl<V> ByteBudgetCache<V> {
    /// Fetch a cached value, marking it as the most recently used.
    pub fn get(&mut self, key: u64) -> (value: Option<&V>)
        requires
            old(self).wf(),
        ensures
            final(self).wf(),
            final(self).contents() == old(self).contents(),
            final(self).budget() == old(self).budget(),
            match position_of(old(self).order(), key, 0) {
                Some(at) => final(self).order() == touched(old(self).order(), at) && value
                    == Some(&old(self).contents()[key]),
                None => final(self).order() == old(self).order() && value is None,
            },
    {
        proof {
            lemma_position(self.order(), key, 0);
        }
        let ghost before = self.order();
        match lru_get(&mut self.entries, key) {
            Some(_) => {
                proof {
                    let at = position_of(before, key, 0)->0;
                    let moved = before[at];
                    lemma_remove_keeps_keys(before, at);
                    lemma_push_keeps_keys(before.remove(at), moved);
                    lemma_total_remove(before, at);
                    lemma_total_push(before.remove(at), moved);
                }
                self.values.get(&key)
            },
            None => None,
        }
    }

    fn evict_until_within_budget(&mut self)
        requires
            old(self).wf(),
        ensures
            final(self).wf(),
            final(self).order() == evicted(old(self).order(), old(self).budget()),
            final(self).budget() == old(self).budget(),
            forall|k: u64| #[trigger] final(self).contents().contains_key(k) ==> final(self).contents()[k]
                == old(self).contents()[k],
    {
        while self.used_bytes > self.budget_bytes && lru_len(&self.entries) > 1
            invariant
                self.wf(),
                self.budget_bytes == old(self).budget_bytes,
                evicted(old(self).order(), old(self).budget()) == evicted(self.order(), self.budget()),
                forall|k: u64| #[trigger] self.values@.contains_key(k) ==> self.values@[k]
                    == old(self).values@[k],
            decreases self.order().len(),
        {
            let ghost before = self.order();
            match lru_pop_oldest(&mut self.entries) {
                Some((key, size)) => {
                    proof {
                        lemma_total_drop_first(before);
                        lemma_remove_keeps_keys(before, 0);
                        assert(before.remove(0) =~= before.drop_first());
                    }
                    self.used_bytes = self.used_bytes - size;
                    self.values.remove(&key);
                },
                None => {},
            }
        }
    }

    /// Insert a value of `size` bytes, evicting least recently used entries until the
    /// budget fits.
    ///
    /// A single value larger than the whole budget is still stored; it is evicted as
    /// soon as anything else is inserted.
    pub fn insert(&mut self, key: u64, value: V, size: usize)
        requires
            old(self).wf(),
            total(without(old(self).order(), key)) + size <= usize::MAX,
            old(self).order().len() < usize::MAX,
        ensures
            final(self).wf(),
            final(self).budget() == old(self).budget(),
            final(self).order() == evicted(
                without(old(self).order(), key).push((key, size)),
                old(self).budget(),
            ),
            final(self).contents().contains_key(key),
            final(self).contents()[key] == value,
            forall|k: u64|
                k != key && #[trigger] final(self).contents().contains_key(k) ==> final(self).contents()[k]
                    == old(self).contents()[k],
            total(final(self).order()) <= final(self).budget() || final(self).order().len() == 1,
    {
        let ghost before = self.order();
        proof {
            lemma_position(before, key, 0);
        }
        match lru_pop(&mut self.entries, key) {
            Some(old_size) => {
                proof {
                    let at = position_of(before, key, 0)->0;
                    lemma_remove_keeps_keys(before, at);
                    lemma_total_remove(before, at);
                }
                self.used_bytes = self.used_bytes - old_size;
            },
            None => {},
        }
        let ghost middle = self.order();
        assert(middle == without(before, key));
        proof {
            lemma_position(middle, key, 0);
            lemma_push_keeps_keys(middle, (key, size));
            lemma_total_push(middle, (key, size));
        }
        lru_put_new(&mut self.entries, key, size);
        self.values.insert(key, value);
        self.used_bytes = self.used_bytes + size;
        let ghost filled = self.contents();
        assert(filled[key] == value);
        self.evict_until_within_budget();
        proof {
            let pushed = without(before, key).push((key, size));
            lemma_eviction_fits_the_budget(pushed, self.budget());
            lemma_eviction_keeps_the_most_recent(pushed, self.budget());
            let kept = self.order();
            assert(kept[kept.len() - 1] == pushed[pushed.len() - 1]);
            assert(kept[kept.len() - 1].0 == key);
            lemma_position(kept, key, 0);
            assert(self.contents().contains_key(key));
            assert(self.contents()[key] == filled[key]);
        }
    }

    /// Drop every entry.
    pub fn clear(&mut self)
        ensures
            final(self).wf(),
            final(self).order() == Seq::<(u64, usize)>::empty(),
            final(self).budget() == old(self).budget(),
    {
        lru_clear(&mut self.entries);
        self.values.clear();
        self.used_bytes = 0;
    }

    /// Drop one entry, e.g. when its file changed on disk.
    pub fn invalidate(&mut self, key: u64)
        requires
            old(self).wf(),
        ensures
            final(self).wf(),
            final(self).order() == without(old(self).order(), key),
            final(self).budget() == old(self).budget(),
            final(self).contents() == old(self).contents().remove(key),
    {
        let ghost before = self.order();
        proof {
            lemma_position(before, key, 0);
        }
        match lru_pop(&mut self.entries, key) {
            Some(size) => {
                proof {
                    let at = position_of(before, key, 0)->0;
                    lemma_remove_keeps_keys(before, at);
                    lemma_total_remove(before, at);
                }
                self.used_bytes = self.used_bytes - size;
            },
            None => {},
        }
        self.values.remove(&key);
        assert(self.values@ =~= old(self).values@.remove(key));
    }

    /// Resize the budget, never below one byte, evicting at once if it shrank.
    pub fn set_budget(&mut self, budget_bytes: usize)
        requires
            old(self).wf(),
        ensures
            final(self).wf(),
            final(self).budget() == if budget_bytes < 1 { 1 } else { budget_bytes },
            final(self).order() == evicted(old(self).order(), final(self).budget()),
    {
        self.budget_bytes = if budget_bytes < 1 {
            1
        } else {
            budget_bytes
        };
        self.evict_until_within_budget();
    }
}

} // verus!
