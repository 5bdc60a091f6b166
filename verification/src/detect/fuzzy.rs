//! Fuzzy matching, to absorb transcription errors.
//!
//! Speech recognition mishears: "двері" comes back as "дверi" with a Latin i, "sword"
//! as "swore". This measures how far apart two words are, cheaply, and gives up as soon
//! as they are further apart than the caller cares about.

use vstd::prelude::*;

use crate::text::chars_of;

verus! {

pub open spec fn min2(x: nat, y: nat) -> nat {
    if x <= y {
        x
    } else {
        y
    }
}

pub open spec fn max2(x: nat, y: nat) -> nat {
    if x >= y {
        x
    } else {
        y
    }
}

/// Levenshtein distance over characters: the fewest single-character insertions,
/// deletions and substitutions that turn `a` into `b`.
pub open spec fn edit_distance(a: Seq<char>, b: Seq<char>) -> nat
    decreases a.len() + b.len(),
{
    if a.len() == 0 {
        b.len()
    } else if b.len() == 0 {
        a.len()
    } else {
        let cost: nat = if a.last() == b.last() {
            0
        } else {
            1
        };
        min2(
            min2(edit_distance(a.drop_last(), b) + 1, edit_distance(a, b.drop_last()) + 1),
            edit_distance(a.drop_last(), b.drop_last()) + cost,
        )
    }
}

pub open spec fn abs_diff(x: nat, y: nat) -> nat {
    if x >= y {
        (x - y) as nat
    } else {
        (y - x) as nat
    }
}

/// Turning `a` into `b` costs at least the difference in their lengths and at most the
/// longer of the two lengths.
pub proof fn lemma_distance_bounds(a: Seq<char>, b: Seq<char>)
    ensures
        abs_diff(a.len(), b.len()) <= edit_distance(a, b),
        edit_distance(a, b) <= max2(a.len(), b.len()),
    decreases a.len() + b.len(),
{
    if a.len() > 0 && b.len() > 0 {
        lemma_distance_bounds(a.drop_last(), b);
        lemma_distance_bounds(a, b.drop_last());
        lemma_distance_bounds(a.drop_last(), b.drop_last());
    }
}

/// Edit distance does not depend on which of the two words comes first.
pub proof fn lemma_distance_symmetric(a: Seq<char>, b: Seq<char>)
    ensures
        edit_distance(a, b) == edit_distance(b, a),
    decreases a.len() + b.len(),
{
    if a.len() > 0 && b.len() > 0 {
        lemma_distance_symmetric(a.drop_last(), b);
        lemma_distance_symmetric(a, b.drop_last());
        lemma_distance_symmetric(a.drop_last(), b.drop_last());
    }
}

/// What `distance_within` answers does not depend on the order of the two words, and a
/// distance reported under one limit is reported, unchanged, under every larger limit.
pub proof fn lemma_distance_within_ignores_order_and_widens(
    a: Seq<char>,
    b: Seq<char>,
    limit: int,
    wider: int,
)
    requires
        limit <= wider,
    ensures
        (edit_distance(a, b) <= limit) == (edit_distance(b, a) <= limit),
        edit_distance(a, b) == edit_distance(b, a),
        edit_distance(a, b) <= limit ==> edit_distance(a, b) <= wider,
{
    lemma_distance_symmetric(a, b);
}

/// No entry of the next row of the distance table is below the smallest entry of this
/// one: the table only grows downwards, which is what makes the early exit sound.
proof fn lemma_next_row_at_least(a: Seq<char>, b: Seq<char>, i: int, lo: nat, j: int)
    requires
        0 <= i < a.len(),
        0 <= j <= b.len(),
        forall|k: int| 0 <= k <= b.len() ==> edit_distance(a.take(i), #[trigger] b.take(k)) >= lo,
    ensures
        edit_distance(a.take(i + 1), b.take(j)) >= lo,
    decreases j,
{
    let ai = a.take(i + 1);
    assert(ai.drop_last() =~= a.take(i));
    if j == 0 {
        assert(b.take(0).len() == 0);
        assert(edit_distance(a.take(i), b.take(0)) >= lo);
    } else {
        lemma_next_row_at_least(a, b, i, lo, j - 1);
        assert(b.take(j).drop_last() =~= b.take(j - 1));
        assert(edit_distance(a.take(i), b.take(j)) >= lo);
        assert(edit_distance(a.take(i), b.take(j - 1)) >= lo);
    }
}

proof fn lemma_rows_stay_at_least(a: Seq<char>, b: Seq<char>, i: int, lo: nat, r: int)
    requires
        0 <= i <= r <= a.len(),
        forall|k: int| 0 <= k <= b.len() ==> edit_distance(a.take(i), #[trigger] b.take(k)) >= lo,
    ensures
        forall|k: int| 0 <= k <= b.len() ==> edit_distance(a.take(r), #[trigger] b.take(k)) >= lo,
    decreases r - i,
{
    if i < r {
        assert forall|k: int| 0 <= k <= b.len() implies edit_distance(
            a.take(i + 1),
            #[trigger] b.take(k),
        ) >= lo by {
            lemma_next_row_at_least(a, b, i, lo, k);
        }
        lemma_rows_stay_at_least(a, b, i + 1, lo, r);
    }
}

/// Levenshtein distance over characters, with an early exit once `limit` is exceeded.
///
/// The early exit matters: this runs over every phrase of every candidate event, and
/// most comparisons are hopeless within a few characters.
pub fn distance_within(first: &str, second: &str, limit: usize) -> (distance: Option<usize>)
    requires
        first@.len() < usize::MAX,
        second@.len() < usize::MAX,
    ensures
        match distance {
            Some(d) => d == edit_distance(first@, second@) && d <= limit,
            None => edit_distance(first@, second@) > limit,
        },
{
    let a = chars_of(first);
    let b = chars_of(second);
    let n = a.len();
    let m = b.len();
    proof {
        lemma_distance_bounds(a@, b@);
    }
    let diff = if n >= m {
        n - m
    } else {
        m - n
    };
    if diff > limit {
        return None;
    }
    if n == 0 {
        return if m <= limit {
            Some(m)
        } else {
            None
        };
    }
    if m == 0 {
        return if n <= limit {
            Some(n)
        } else {
            None
        };
    }
    let mut previous: Vec<usize> = Vec::new();
    let mut k: usize = 0;
    while k <= m
        invariant
            k <= m + 1,
            m == b@.len(),
            m < usize::MAX,
            previous@.len() == k,
            forall|x: int| 0 <= x < k ==> previous@[x] == x,
        decreases m + 1 - k,
    {
        previous.push(k);
        k = k + 1;
    }
    proof {
        assert forall|x: int| 0 <= x <= m implies previous@[x] == edit_distance(
            a@.take(0),
            #[trigger] b@.take(x),
        ) by {
            assert(a@.take(0).len() == 0);
        }
    }
    let mut current: Vec<usize> = Vec::new();
    let mut k: usize = 0;
    while k <= m
        invariant
            k <= m + 1,
            m == b@.len(),
            m < usize::MAX,
            current@.len() == k,
        decreases m + 1 - k,
    {
        current.push(0);
        k = k + 1;
    }
    let mut i: usize = 0;
    while i < n
        invariant
            a@ == first@,
            b@ == second@,
            n == a@.len(),
            m == b@.len(),
            n < usize::MAX,
            m < usize::MAX,
            n > 0,
            m > 0,
            i <= n,
            previous@.len() == m + 1,
            current@.len() == m + 1,
            forall|x: int|
                0 <= x <= m ==> previous@[x] == edit_distance(a@.take(i as int), #[trigger] b@.take(x)),
        decreases n - i,
    {
        let ca = a[i];
        current.set(0, i + 1);
        proof {
            assert(b@.take(0).len() == 0);
            lemma_distance_bounds(a@.take(i + 1), b@.take(0));
        }
        let mut row_best = current[0];
        let mut j: usize = 0;
        while j < m
            invariant
                n == a@.len(),
                m == b@.len(),
                n < usize::MAX,
                m < usize::MAX,
                i < n,
                j <= m,
                ca == a@[i as int],
                previous@.len() == m + 1,
                current@.len() == m + 1,
                forall|x: int|
                    0 <= x <= m ==> previous@[x] == edit_distance(a@.take(i as int), #[trigger] b@.take(x)),
                forall|x: int|
                    0 <= x <= j ==> current@[x] == edit_distance(a@.take(i + 1), #[trigger] b@.take(x)),
                forall|x: int| 0 <= x <= j ==> row_best <= #[trigger] current@[x],
            decreases m - j,
        {
            let cb = b[j];
            proof {
                let ai = a@.take(i + 1);
                let bj = b@.take(j + 1);
                assert(ai.drop_last() =~= a@.take(i as int));
                assert(bj.drop_last() =~= b@.take(j as int));
                assert(ai.last() == ca);
                assert(bj.last() == cb);
                lemma_distance_bounds(a@.take(i as int), b@.take(j + 1));
                lemma_distance_bounds(ai, b@.take(j as int));
                lemma_distance_bounds(a@.take(i as int), b@.take(j as int));
            }
            let cost: usize = if ca != cb {
                1
            } else {
                0
            };
            let deletion = previous[j + 1] + 1;
            let insertion = current[j] + 1;
            let substitution = previous[j] + cost;
            let mut best = if insertion <= deletion {
                insertion
            } else {
                deletion
            };
            if substitution < best {
                best = substitution;
            }
            current.set(j + 1, best);
            if best < row_best {
                row_best = best;
            }
            j = j + 1;
        }
        if row_best > limit {
            proof {
                assert forall|x: int| 0 <= x <= b@.len() implies edit_distance(
                    a@.take(i + 1),
                    #[trigger] b@.take(x),
                ) >= (limit + 1) as nat by {
                    assert(current@[x] >= row_best);
                }
                lemma_rows_stay_at_least(a@, b@, i + 1, (limit + 1) as nat, n as int);
                assert(a@.take(n as int) =~= a@);
                assert(b@.take(m as int) =~= b@);
                assert(edit_distance(a@.take(n as int), b@.take(m as int)) >= limit + 1);
            }
            return None;
        }
        std::mem::swap(&mut previous, &mut current);
        i = i + 1;
    }
    let distance = previous[m];
    proof {
        assert(a@.take(n as int) =~= a@);
        assert(b@.take(m as int) =~= b@);
    }
    if distance <= limit {
        Some(distance)
    } else {
        None
    }
}

/// How many edits are tolerable for a word of this length: none for the shortest
/// words, so "or" and "on" never fuzz into each other.
pub fn budget_for(length: usize) -> (budget: usize)
    ensures
        budget == (if length <= 3 {
            0usize
        } else if length <= 6 {
            1usize
        } else if length <= 10 {
            2usize
        } else {
            3usize
        }),
{
    if length <= 3 {
        0
    } else if length <= 6 {
        1
    } else if length <= 10 {
        2
    } else {
        3
    }
}

} // verus!
