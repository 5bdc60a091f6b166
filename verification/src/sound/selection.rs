//! Choosing which file of a sound group to play when an event fires.
//!
//! This is where the "which door creak?" decision lives. Uniform and sequential choice
//! are decided here in full; a weighted choice is floating-point work, so for it the
//! selector hands back the pool to weigh and is told afterwards what was played.

use vstd::prelude::*;

use crate::detect::score::Score;
use crate::sound::rng::{draw_below, Rng, MAX_REJECTIONS};

verus! {

/// How a group picks among its sounds.
#[derive(Debug, Clone, Copy, PartialEq, Eq, Structural)]
pub enum SelectionMode {
    /// Every enabled sound equally likely.
    Random,
    /// Likelihood proportional to each sound's weight.
    Weighted,
    /// Cycle through the group in order.
    Sequential,
}

impl Default for SelectionMode {
    fn default() -> (mode: Self)
        ensures
            mode == SelectionMode::Random,
    {
        SelectionMode::Random
    }
}

/// One candidate file inside a group, reduced to what selection needs.
#[derive(Debug, Clone, Copy, PartialEq, Eq, Structural)]
pub struct Candidate {
    pub sound_id: i64,
    /// The sound's weight, an `f32` held by its bit pattern.
    pub weight: Score,
}

/// What a selection came to.
pub enum Selection {
    /// This sound plays, and the selector has recorded it.
    Chosen(i64),
    /// Weighted mode: pick from this pool by weight, then report the pick with
    /// `GroupSelector::played`.
    Weigh(Vec<Candidate>),
}

/// Selection state for a single sound group: the memory that makes repeats avoidable.
pub struct GroupSelector {
    mode: SelectionMode,
    prevent_repeat: bool,
    last_played: Option<i64>,
    cursor: usize,
}

/// The candidates other than the one played last, in order.
pub open spec fn others(candidates: Seq<Candidate>, last: Option<i64>) -> Seq<Candidate>
    decreases candidates.len(),
{
    if candidates.len() == 0 {
        Seq::empty()
    } else {
        let rest = others(candidates.drop_last(), last);
        if Some(candidates.last().sound_id) == last {
            rest
        } else {
            rest.push(candidates.last())
        }
    }
}

/// The sounds a selection may choose from.
///
/// Anti-repeat only applies when there is something else to play: a group of a single
/// sound still plays it, and a pool the filter would empty falls back to the group.
pub open spec fn pool_of(candidates: Seq<Candidate>, prevent_repeat: bool, last: Option<i64>) -> Seq<
    Candidate,
> {
    let filtered = if prevent_repeat && candidates.len() > 1 {
        others(candidates, last)
    } else {
        candidates
    };
    if filtered.len() == 0 {
        candidates
    } else {
        filtered
    }
}

/// Whether a sound is in a pool.
pub open spec fn in_pool(pool: Seq<Candidate>, id: i64) -> bool {
    exists|k: int| 0 <= k < pool.len() && #[trigger] pool[k].sound_id == id
}

/// The first offset from `start`, counting from `offset`, whose candidate (taken
/// cyclically) is in the pool.
pub open spec fn next_in_pool(candidates: Seq<Candidate>, pool: Seq<Candidate>, start: int, offset: int) -> Option<
    int,
>
    decreases candidates.len() - offset,
{
    if offset < 0 || offset >= candidates.len() {
        None
    } else if in_pool(pool, candidates[(start + offset) % (candidates.len() as int)].sound_id) {
        Some(offset)
    } else {
        next_in_pool(candidates, pool, start, offset + 1)
    }
}

/// The first position, from `from` on, of a sound in the group.
pub open spec fn position_of(candidates: Seq<Candidate>, id: i64, from: int) -> Option<int>
    decreases candidates.len() - from,
{
    if from < 0 || from >= candidates.len() {
        None
    } else if candidates[from].sound_id == id {
        Some(from)
    } else {
        position_of(candidates, id, from + 1)
    }
}

/// Sequential mode's pick: the first sound of the pool met cycling from the cursor.
pub open spec fn sequential_pick(candidates: Seq<Candidate>, pool: Seq<Candidate>, cursor: int) -> Candidate {
    let start = cursor % (candidates.len() as int);
    match next_in_pool(candidates, pool, start, 0) {
        Some(offset) => candidates[(start + offset) % (candidates.len() as int)],
        None => candidates[start],
    }
}

/// Sequential mode's cursor after a pick: just past the picked sound's position.
pub open spec fn cursor_after(candidates: Seq<Candidate>, picked: i64, cursor: int) -> int {
    match position_of(candidates, picked, 0) {
        Some(position) => position + 1,
        None => cursor % (candidates.len() as int),
    }
}

fn copied(candidates: &[Candidate]) -> (copy: Vec<Candidate>)
    ensures
        copy@ == candidates@,
{
    let mut copy: Vec<Candidate> = Vec::new();
    let mut i: usize = 0;
    while i < candidates.len()
        invariant
            i <= candidates@.len(),
            copy@ == candidates@.take(i as int),
        decreases candidates@.len() - i,
    {
        copy.push(candidates[i]);
        i = i + 1;
        assert(copy@ =~= candidates@.take(i as int));
    }
    assert(candidates@.take(candidates@.len() as int) =~= candidates@);
    copy
}

impl GroupSelector {
    pub closed spec fn view_mode(&self) -> SelectionMode {
        self.mode
    }

    pub closed spec fn prevents_repeat(&self) -> bool {
        self.prevent_repeat
    }

    pub closed spec fn last(&self) -> Option<i64> {
        self.last_played
    }

    pub closed spec fn cursor(&self) -> int {
        self.cursor as int
    }

    pub fn new(mode: SelectionMode, prevent_repeat: bool) -> (selector: Self)
        ensures
            selector.view_mode() == mode,
            selector.prevents_repeat() == prevent_repeat,
            selector.last() is None,
            selector.cursor() == 0,
    {
        GroupSelector { mode, prevent_repeat, last_played: None, cursor: 0 }
    }

    pub fn mode(&self) -> (mode: SelectionMode)
        ensures
            mode == self.view_mode(),
    {
        self.mode
    }

    pub fn last_played(&self) -> (last: Option<i64>)
        ensures
            last == self.last(),
    {
        self.last_played
    }

    /// Forget the play history, e.g. after the group's contents change.
    pub fn reset(&mut self)
        ensures
            final(self).view_mode() == old(self).view_mode(),
            final(self).prevents_repeat() == old(self).prevents_repeat(),
            final(self).last() is None,
            final(self).cursor() == 0,
    {
        self.last_played = None;
        self.cursor = 0;
    }

    /// The sounds this selector may choose from next.
    pub fn pool(&self, candidates: &[Candidate]) -> (pool: Vec<Candidate>)
        ensures
            pool@ == pool_of(candidates@, self.prevents_repeat(), self.last()),
    {
        let mut filtered: Vec<Candidate> = Vec::new();
        if self.prevent_repeat && candidates.len() > 1 {
            let mut i: usize = 0;
            while i < candidates.len()
                invariant
                    i <= candidates@.len(),
                    filtered@ == others(candidates@.take(i as int), self.last_played),
                decreases candidates@.len() - i,
            {
                proof {
                    assert(candidates@.take(i + 1).drop_last() =~= candidates@.take(i as int));
                }
                let skip = match self.last_played {
                    Some(last) => candidates[i].sound_id == last,
                    None => false,
                };
                if !skip {
                    filtered.push(candidates[i]);
                }
                i = i + 1;
            }
            assert(candidates@.take(candidates@.len() as int) =~= candidates@);
        } else {
            filtered = copied(candidates);
        }
        if filtered.len() == 0 {
            copied(candidates)
        } else {
            filtered
        }
    }

    /// Record a sound that was played by weight.
    pub fn played(&mut self, sound_id: i64)
        ensures
            final(self).last() == Some(sound_id),
            final(self).view_mode() == old(self).view_mode(),
            final(self).prevents_repeat() == old(self).prevents_repeat(),
            final(self).cursor() == old(self).cursor(),
    {
        self.last_played = Some(sound_id);
    }

    /// Pick the next sound, or `None` if the group is empty.
    ///
    /// Random mode draws uniformly from the pool; sequential mode takes the first sound of
    /// the pool met cycling through the group from the cursor, so the running order stays
    /// stable even when anti-repeat removes an entry; weighted mode hands the pool back.
    pub fn select(&mut self, candidates: &[Candidate], rng: &mut Rng) -> (selection: Option<
        Selection,
    >)
        requires
            old(self).view_mode() == SelectionMode::Random ==> {
                let n = pool_of(candidates@, old(self).prevents_repeat(), old(self).last()).len();
                n <= 1 || (n as usize) as u32 != 0
            },
        ensures
            final(self).view_mode() == old(self).view_mode(),
            final(self).prevents_repeat() == old(self).prevents_repeat(),
            final(rng).increment() == old(rng).increment(),
            candidates@.len() == 0 ==> selection is None && *final(self) == *old(self)
                && final(rng).state() == old(rng).state(),
            candidates@.len() > 0 ==> {
                let pool = pool_of(candidates@, old(self).prevents_repeat(), old(self).last());
                match old(self).view_mode() {
                    SelectionMode::Random => {
                        let (index, next) = draw_below(
                            old(rng).state(),
                            old(rng).increment(),
                            (pool.len() as usize) as u32,
                            MAX_REJECTIONS as nat,
                        );
                        let drawn = if pool.len() <= 1 { 0 } else { index as int };
                        &&& selection == Some(Selection::Chosen(pool[drawn].sound_id))
                        &&& final(rng).state() == if pool.len() <= 1 { old(rng).state() } else { next }
                        &&& final(self).last() == Some(pool[drawn].sound_id)
                        &&& final(self).cursor() == old(self).cursor()
                    },
                    SelectionMode::Sequential => {
                        let picked = sequential_pick(candidates@, pool, old(self).cursor());
                        &&& selection == Some(Selection::Chosen(picked.sound_id))
                        &&& final(rng).state() == old(rng).state()
                        &&& final(self).last() == Some(picked.sound_id)
                        &&& final(self).cursor() == cursor_after(candidates@, picked.sound_id, old(self).cursor())
                    },
                    SelectionMode::Weighted => {
                        &&& selection matches Some(Selection::Weigh(p)) && p@ == pool
                        &&& final(rng).state() == old(rng).state()
                        &&& *final(self) == *old(self)
                    },
                }
            },
            // Anti-repeat, in every mode: while the group holds another sound, the last
            // one is neither chosen nor offered to be weighed.
            old(self).prevents_repeat() && (exists|k: int|
                0 <= k < candidates@.len() && Some(#[trigger] candidates@[k].sound_id) != old(
                    self,
                ).last()) ==> match selection {
                Some(Selection::Chosen(id)) => Some(id) != old(self).last(),
                Some(Selection::Weigh(p)) => forall|i: int|
                    0 <= i < p@.len() ==> Some(#[trigger] p@[i].sound_id) != old(self).last(),
                None => false,
            },
    {
        if candidates.len() == 0 {
            return None;
        }
        proof {
            if self.prevents_repeat() && (exists|k: int|
                0 <= k < candidates@.len() && Some(#[trigger] candidates@[k].sound_id)
                    != self.last()) {
                lemma_anti_repeat(candidates@, self.last(), self.cursor() as int);
            }
        }
        let pool = self.pool(candidates);
        match self.mode {
            SelectionMode::Random => {
                let ghost before = *rng;
                assert(pool@.len() > 0);
                let index = rng.below(pool.len());
                proof {
                    let (drawn, next) = draw_below(
                        before.state(),
                        before.increment(),
                        (pool@.len() as usize) as u32,
                        MAX_REJECTIONS as nat,
                    );
                    if pool@.len() > 1 {
                        assert(index == drawn && rng.state() == next);
                    } else {
                        assert(index == 0 && rng.state() == before.state());
                    }
                }
                let chosen = pool[index].sound_id;
                self.last_played = Some(chosen);
                Some(Selection::Chosen(chosen))
            },
            SelectionMode::Weighted => Some(Selection::Weigh(pool)),
            SelectionMode::Sequential => {
                let n = candidates.len();
                let start = self.cursor % n;
                let ghost start_int = self.cursor() % (n as int);
                let mut offset: usize = 0;
                let mut found: Option<usize> = None;
                while offset < n
                    invariant_except_break
                        found is None,
                        next_in_pool(candidates@, pool@, start as int, 0) == next_in_pool(
                            candidates@,
                            pool@,
                            start as int,
                            offset as int,
                        ),
                    invariant
                        n == candidates@.len(),
                        n > 0,
                        start < n,
                        start == start_int,
                        offset <= n,
                    ensures
                        found matches Some(at) ==> next_in_pool(candidates@, pool@, start as int, 0)
                            matches Some(o) && at == (start + o) % (n as int) && at < n,
                        found is None ==> next_in_pool(candidates@, pool@, start as int, 0) is None,
                    decreases n - offset,
                {
                    let at = if offset < n - start { start + offset } else { offset - (n - start) };
                    assert(at as int == (start + offset) % (n as int)) by (nonlinear_arith)
                        requires
                            start < n,
                            offset < n,
                            at == if offset < n - start { start + offset } else { offset - (n - start) },
                    ;
                    let id = candidates[at].sound_id;
                    let mut k: usize = 0;
                    let mut hit = false;
                    while k < pool.len()
                        invariant
                            k <= pool@.len(),
                            hit == exists|j: int| 0 <= j < k && #[trigger] pool@[j].sound_id == id,
                        decreases pool@.len() - k,
                    {
                        if pool[k].sound_id == id {
                            hit = true;
                        }
                        k = k + 1;
                    }
                    if hit {
                        assert(in_pool(pool@, candidates@[at as int].sound_id));
                        found = Some(at);
                        break;
                    }
                    offset = offset + 1;
                }
                let picked = match found {
                    Some(at) => candidates[at],
                    None => candidates[start],
                };
                assert(picked == sequential_pick(candidates@, pool@, self.cursor()));
                let mut position: usize = 0;
                while position < n
                    invariant
                        n == candidates@.len(),
                        position <= n,
                        position_of(candidates@, picked.sound_id, 0) == position_of(
                            candidates@,
                            picked.sound_id,
                            position as int,
                        ),
                    ensures
                        position < n ==> position_of(candidates@, picked.sound_id, 0) == Some(
                            position as int,
                        ),
                        position >= n ==> position_of(candidates@, picked.sound_id, 0) is None,
                    decreases n - position,
                {
                    if candidates[position].sound_id == picked.sound_id {
                        break;
                    }
                    position = position + 1;
                }
                if position < n {
                    self.cursor = position + 1;
                } else {
                    self.cursor = start;
                }
                self.last_played = Some(picked.sound_id);
                Some(Selection::Chosen(picked.sound_id))
            },
        }
    }
}


proof fn lemma_others(candidates: Seq<Candidate>, last: Option<i64>)
    ensures
        forall|i: int| 0 <= i < others(candidates, last).len() ==> Some(#[trigger] others(candidates, last)[i].sound_id) != last,
        forall|k: int|
            0 <= k < candidates.len() && Some(#[trigger] candidates[k].sound_id) != last ==> in_pool(
                others(candidates, last),
                candidates[k].sound_id,
            ),
    decreases candidates.len(),
{
    if candidates.len() > 0 {
        let rest = candidates.drop_last();
        lemma_others(rest, last);
        let o = others(candidates, last);
        let ro = others(rest, last);
        assert forall|k: int|
            0 <= k < candidates.len() && Some(#[trigger] candidates[k].sound_id) != last implies in_pool(
            o,
            candidates[k].sound_id,
        ) by {
            if k < candidates.len() - 1 {
                assert(rest[k] == candidates[k]);
                let j = choose|j: int| 0 <= j < ro.len() && #[trigger] ro[j].sound_id == candidates[k].sound_id;
                assert(o[j] == ro[j]);
            } else {
                assert(o[o.len() - 1] == candidates.last());
            }
        }
        assert forall|i: int| 0 <= i < o.len() implies Some(#[trigger] o[i].sound_id) != last by {
            if i < ro.len() {
                assert(o[i] == ro[i]);
            }
        }
    }
}

proof fn lemma_next_in_pool_found(
    candidates: Seq<Candidate>,
    pool: Seq<Candidate>,
    start: int,
    offset: int,
    target: int,
)
    requires
        0 <= offset <= target < candidates.len(),
        in_pool(pool, candidates[(start + target) % (candidates.len() as int)].sound_id),
    ensures
        next_in_pool(candidates, pool, start, offset) matches Some(x) && offset <= x <= target
            && in_pool(pool, candidates[(start + x) % (candidates.len() as int)].sound_id),
    decreases target - offset,
{
    if !in_pool(pool, candidates[(start + offset) % (candidates.len() as int)].sound_id) {
        lemma_next_in_pool_found(candidates, pool, start, offset + 1, target);
    }
}

/// The offset from `start` that reaches position `j` when cycling through `n` items.
proof fn lemma_cyclic_offset(start: int, j: int, n: int) -> (offset: int)
    requires
        0 <= start < n,
        0 <= j < n,
    ensures
        0 <= offset < n,
        (start + offset) % n == j,
{
    if j >= start {
        assert((start + (j - start)) % n == j) by (nonlinear_arith)
            requires
                0 <= j < n,
        ;
        j - start
    } else {
        assert((start + (j + n - start)) % n == j) by (nonlinear_arith)
            requires
                0 <= j < n,
        ;
        j + n - start
    }
}

/// A non-empty group always has something to play.
pub proof fn lemma_pool_is_never_empty(candidates: Seq<Candidate>, prevent_repeat: bool, last: Option<i64>)
    requires
        candidates.len() > 0,
    ensures
        pool_of(candidates, prevent_repeat, last).len() > 0,
{
}

/// Anti-repeat never plays the sound played last, as long as the group holds another:
/// nothing in the pool is the last sound, and neither is what sequential mode picks.
pub proof fn lemma_anti_repeat(candidates: Seq<Candidate>, last: Option<i64>, cursor: int)
    requires
        exists|k: int| 0 <= k < candidates.len() && Some(#[trigger] candidates[k].sound_id) != last,
        cursor >= 0,
    ensures
        pool_of(candidates, true, last).len() > 0,
        forall|i: int|
            0 <= i < pool_of(candidates, true, last).len() ==> Some(
                #[trigger] pool_of(candidates, true, last)[i].sound_id,
            ) != last,
        Some(sequential_pick(candidates, pool_of(candidates, true, last), cursor).sound_id) != last,
{
    let k = choose|k: int| 0 <= k < candidates.len() && Some(#[trigger] candidates[k].sound_id) != last;
    let n = candidates.len() as int;
    let pool = pool_of(candidates, true, last);
    lemma_others(candidates, last);
    if candidates.len() > 1 {
        assert(in_pool(others(candidates, last), candidates[k].sound_id));
        assert(pool == others(candidates, last));
    } else {
        assert(k == 0);
        assert(candidates[0].sound_id == candidates[k].sound_id);
        assert forall|i: int| 0 <= i < pool.len() implies Some(#[trigger] pool[i].sound_id) != last by {
            assert(pool[i] == candidates[0]);
        }
    }
    assert(in_pool(pool, candidates[k].sound_id));
    let start = cursor % n;
    assert(0 <= start < n) by (nonlinear_arith)
        requires
            n > 0,
            start == cursor % n,
    ;
    let target = lemma_cyclic_offset(start, k, n);
    lemma_next_in_pool_found(candidates, pool, start, 0, target);
    let x = next_in_pool(candidates, pool, start, 0)->0;
    let picked = candidates[(start + x) % n];
    let j = choose|j: int| 0 <= j < pool.len() && #[trigger] pool[j].sound_id == picked.sound_id;
    assert(Some(pool[j].sound_id) != last);
}

proof fn lemma_position_of_distinct(candidates: Seq<Candidate>, k: int, from: int)
    requires
        0 <= from <= k < candidates.len(),
        forall|a: int, b: int|
            0 <= a < b < candidates.len() ==> #[trigger] candidates[a].sound_id
                != #[trigger] candidates[b].sound_id,
    ensures
        position_of(candidates, candidates[k].sound_id, from) == Some(k),
    decreases k - from,
{
    if from < k {
        lemma_position_of_distinct(candidates, k, from + 1);
    }
}

/// Without anti-repeat, and with every sound listed once, sequential mode plays the
/// sound at the cursor and moves the cursor one past it: the group cycles in order.
pub proof fn lemma_sequential_cycles(candidates: Seq<Candidate>, last: Option<i64>, cursor: int)
    requires
        candidates.len() > 0,
        cursor >= 0,
        forall|a: int, b: int|
            0 <= a < b < candidates.len() ==> #[trigger] candidates[a].sound_id
                != #[trigger] candidates[b].sound_id,
    ensures
        sequential_pick(candidates, pool_of(candidates, false, last), cursor) == candidates[cursor
            % (candidates.len() as int)],
        cursor_after(candidates, candidates[cursor % (candidates.len() as int)].sound_id, cursor)
            == cursor % (candidates.len() as int) + 1,
{
    let n = candidates.len() as int;
    let start = cursor % n;
    assert(0 <= start < n && (start + 0) % n == start) by (nonlinear_arith)
        requires
            n > 0,
            cursor >= 0,
            start == cursor % n,
    ;
    let pool = pool_of(candidates, false, last);
    assert(pool == candidates);
    assert(in_pool(pool, candidates[start].sound_id));
    assert(next_in_pool(candidates, pool, start, 0) == Some(0int));
    lemma_position_of_distinct(candidates, start, 0);
}

} // verus!
