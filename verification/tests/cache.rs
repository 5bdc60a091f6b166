use dndsound::sound::cache::ByteBudgetCache;

/// Values are byte vectors so "size" is unambiguous in the tests.
fn cache(budget: usize) -> ByteBudgetCache<Vec<u8>> {
    ByteBudgetCache::new(budget)
}

fn insert(cache: &mut ByteBudgetCache<Vec<u8>>, key: u64, n: usize) {
    cache.insert(key, vec![0u8; n], n);
}

const A: u64 = 1;
const B: u64 = 2;
const C: u64 = 3;

#[test]
fn a_stored_value_can_be_read_back() {
    let mut cache = cache(1000);
    insert(&mut cache, A, 10);
    assert_eq!(cache.get(A).map(Vec::len), Some(10));
    assert_eq!(cache.used_bytes(), 10);
}

#[test]
fn insertions_beyond_the_budget_evict_the_least_recently_used() {
    let mut cache = cache(100);
    insert(&mut cache, A, 40);
    insert(&mut cache, B, 40);

    // Touching A makes B the least recently used.
    assert!(cache.get(A).is_some());
    insert(&mut cache, C, 40);

    assert!(cache.get(B).is_none(), "B should have been evicted");
    assert!(cache.get(A).is_some());
    assert!(cache.get(C).is_some());
    assert!(cache.used_bytes() <= cache.budget_bytes());
}

#[test]
fn reinserting_a_key_does_not_double_count_its_bytes() {
    let mut cache = cache(1000);
    insert(&mut cache, A, 10);
    insert(&mut cache, A, 30);

    assert_eq!(cache.len(), 1);
    assert_eq!(cache.used_bytes(), 30);
}

#[test]
fn an_oversized_value_is_kept_rather_than_dropped() {
    let mut cache = cache(50);
    insert(&mut cache, 9, 500);

    assert!(cache.get(9).is_some());
    assert_eq!(cache.len(), 1);
}

#[test]
fn an_oversized_value_is_evicted_by_the_next_insert() {
    let mut cache = cache(50);
    insert(&mut cache, 9, 500);
    insert(&mut cache, 7, 10);

    assert!(cache.get(9).is_none());
    assert_eq!(cache.used_bytes(), 10);
}

#[test]
fn shrinking_the_budget_evicts_immediately() {
    let mut cache = cache(1000);
    insert(&mut cache, A, 400);
    insert(&mut cache, B, 400);

    cache.set_budget(500);
    assert!(cache.used_bytes() <= 500);
    assert!(cache.get(B).is_some(), "most recent survives");
    cache.set_budget(0);
    assert_eq!(cache.budget_bytes(), 1);
}

#[test]
fn invalidate_and_clear_free_their_bytes() {
    let mut cache = cache(1000);
    insert(&mut cache, A, 10);
    insert(&mut cache, B, 20);

    cache.invalidate(A);
    assert_eq!(cache.used_bytes(), 20);

    cache.clear();
    assert_eq!(cache.used_bytes(), 0);
    assert!(cache.is_empty());
}

#[test]
fn a_long_run_of_inserts_never_exceeds_the_budget() {
    let mut cache = cache(10_000);
    for i in 0..5_000u64 {
        insert(&mut cache, i, 64);
        assert!(cache.used_bytes() <= cache.budget_bytes());
    }
}
