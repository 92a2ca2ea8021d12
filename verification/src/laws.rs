//! What holds of every assignment.
use crate::assign::{assignment, first_pass, next_unused, second_pass, Progress};
use crate::geometry::Point;
use crate::nearest::{candidate, lemma_nearest_unused, nearest_unused};
use vstd::prelude::*;

verus! {

/// How many of the first `n` particles have a target.
pub open spec fn count_forming(slots: Seq<Option<usize>>, n: int) -> int
    decreases n,
{
    if n <= 0 {
        0
    } else {
        count_forming(slots, n - 1) + if slots[n - 1].is_some() {
            1int
        } else {
            0int
        }
    }
}

/// No target is held twice, each held target exists, and only particles with
/// an index below the number of targets hold one.
pub open spec fn injective(slots: Seq<Option<usize>>, n_targets: int) -> bool {
    &&& forall|i: int|
        0 <= i < slots.len() && (#[trigger] slots[i]).is_some() ==> i < n_targets
            && slots[i].unwrap() < n_targets
    &&& forall|i: int, k: int|
        0 <= i < k < slots.len() && (#[trigger] slots[i]).is_some() && (#[trigger] slots[k]).is_some()
            ==> slots[i] != slots[k]
}

/// The targets held are the used ones, counted once each.
pub open spec fn consistent(g: Progress, n_targets: int) -> bool {
    &&& g.used.finite()
    &&& g.used.len() == count_forming(g.slots, g.slots.len() as int)
    &&& injective(g.slots, n_targets)
    &&& forall|i: int|
        0 <= i < g.slots.len() && (#[trigger] g.slots[i]).is_some() ==> g.used.contains(
            g.slots[i].unwrap(),
        )
}

proof fn lemma_count_none(len: nat, n: int)
    requires
        n <= len,
    ensures
        count_forming(Seq::new(len, |i: int| None::<usize>), n) == 0,
    decreases n,
{
    if n > 0 {
        lemma_count_none(len, n - 1);
    }
}

proof fn lemma_count_update(slots: Seq<Option<usize>>, i: int, j: usize, n: int)
    requires
        0 <= i < slots.len(),
        slots[i].is_none(),
        n <= slots.len(),
    ensures
        count_forming(slots.update(i, Some(j)), n) == count_forming(slots, n) + if i < n {
            1int
        } else {
            0int
        },
    decreases n,
{
    if n > 0 {
        lemma_count_update(slots, i, j, n - 1);
    }
}

proof fn lemma_count_bound(slots: Seq<Option<usize>>, n: int, m: int, i: int)
    requires
        0 <= n <= slots.len(),
        0 <= i < m,
        i < slots.len(),
        slots[i].is_none(),
        forall|x: int| 0 <= x < slots.len() && (#[trigger] slots[x]).is_some() ==> x < m,
    ensures
        count_forming(slots, n) + (if i < n {
            1int
        } else {
            0int
        }) <= (if n < m {
            n
        } else {
            m
        }),
    decreases n,
{
    if n > 0 {
        lemma_count_bound(slots, n - 1, m, i);
    }
}

proof fn lemma_count_prefix(slots: Seq<Option<usize>>, n: int, m: int)
    requires
        0 <= n <= slots.len(),
        0 <= m,
        forall|x: int| 0 <= x < slots.len() ==> ((#[trigger] slots[x]).is_some() <==> x < m),
    ensures
        count_forming(slots, n) == (if n < m {
            n
        } else {
            m
        }),
    decreases n,
{
    if n > 0 {
        lemma_count_prefix(slots, n - 1, m);
    }
}

proof fn lemma_all_used(used: Set<usize>, n: int)
    requires
        used.finite(),
        0 <= n <= usize::MAX,
        forall|k: usize| k < n ==> used.contains(k),
    ensures
        used.len() >= n,
    decreases n,
{
    if n > 0 {
        let last = (n - 1) as usize;
        let rest = used.remove(last);
        assert forall|k: usize| k < n - 1 implies rest.contains(k) by {
            assert(used.contains(k));
        }
        lemma_all_used(rest, n - 1);
    }
}

proof fn lemma_next_unused(used: Set<usize>, from: int, len: int)
    requires
        0 <= from <= len,
    ensures
        from <= next_unused(used, from, len) <= len,
        next_unused(used, from, len) < len ==> !used.contains(
            next_unused(used, from, len) as usize,
        ),
        forall|k: usize| from <= k < next_unused(used, from, len) ==> used.contains(k),
    decreases len - from,
{
    if from < len && used.contains(from as usize) {
        lemma_next_unused(used, from + 1, len);
    }
}

proof fn lemma_take(g: Progress, n_targets: int, i: int, j: usize, cursor: int)
    requires
        consistent(g, n_targets),
        0 <= i < g.slots.len(),
        i < n_targets,
        g.slots[i].is_none(),
        j < n_targets,
        !g.used.contains(j),
    ensures
        consistent(
            Progress { slots: g.slots.update(i, Some(j)), used: g.used.insert(j), cursor },
            n_targets,
        ),
{
    lemma_count_update(g.slots, i, j, g.slots.len() as int);
}

proof fn lemma_first_pass(positions: Seq<Point>, targets: Seq<Point>, n: nat)
    requires
        n <= positions.len(),
    ensures
        consistent(first_pass(positions, targets, n), targets.len() as int),
        first_pass(positions, targets, n).slots.len() == positions.len(),
        first_pass(positions, targets, n).cursor == 0,
        forall|i: int|
            n <= i < positions.len() ==> (#[trigger] first_pass(
                positions,
                targets,
                n,
            ).slots[i]).is_none(),
    decreases n,
{
    if n == 0 {
        lemma_count_none(positions.len(), positions.len() as int);
    } else {
        lemma_first_pass(positions, targets, (n - 1) as nat);
        let prev = first_pass(positions, targets, (n - 1) as nat);
        let i = n - 1;
        if i < targets.len() {
            lemma_nearest_unused(positions[i], targets, prev.used);
            match nearest_unused(positions[i], targets, prev.used) {
                Some(j) => {
                    assert(candidate(positions[i], targets, prev.used, j));
                    assert(prev.slots[i].is_none());
                    lemma_take(prev, targets.len() as int, i, j, 0);
                },
                None => {},
            }
        }
    }
}

proof fn lemma_second_pass(first: Progress, n_targets: int, n: nat)
    requires
        consistent(first, n_targets),
        first.cursor == 0,
        0 <= n_targets <= usize::MAX,
        n <= first.slots.len(),
    ensures
        ({
            let r = second_pass(first, n_targets, n);
            &&& consistent(r, n_targets)
            &&& r.slots.len() == first.slots.len()
            &&& 0 <= r.cursor <= n_targets
            &&& forall|k: usize| k < r.cursor ==> r.used.contains(k)
            &&& forall|i: int| 0 <= i < n && i < n_targets ==> (#[trigger] r.slots[i]).is_some()
        }),
    decreases n,
{
    if n > 0 {
        lemma_second_pass(first, n_targets, (n - 1) as nat);
        let prev = second_pass(first, n_targets, (n - 1) as nat);
        let i = n - 1;
        if i < n_targets && prev.slots[i].is_none() {
            let k = next_unused(prev.used, prev.cursor, n_targets);
            lemma_next_unused(prev.used, prev.cursor, n_targets);
            if k < n_targets {
                lemma_take(prev, n_targets, i, k as usize, k + 1);
                let r = second_pass(first, n_targets, n);
                assert forall|x: int| 0 <= x < n && x < n_targets implies (#[trigger] r.slots[x]).is_some() by {
                    if x < i {
                        assert(prev.slots[x].is_some());
                    }
                }
            } else {
                assert forall|x: usize| x < n_targets implies prev.used.contains(x) by {}
                lemma_all_used(prev.used, n_targets);
                lemma_count_bound(prev.slots, prev.slots.len() as int, n_targets, i);
            }
        }
    }
}

/// Every assignment gives a target to exactly the particles whose index is
/// below the number of targets, gives no target twice, and gives only targets
/// that exist.
pub proof fn lemma_assignment_shape(positions: Seq<Point>, targets: Seq<Point>)
    requires
        targets.len() <= usize::MAX,
    ensures
        assignment(positions, targets).len() == positions.len(),
        injective(assignment(positions, targets), targets.len() as int),
        forall|i: int|
            0 <= i < positions.len() ==> ((#[trigger] assignment(positions, targets)[i]).is_some()
                <==> i < targets.len()),
{
    if targets.len() > 0 {
        lemma_first_pass(positions, targets, positions.len());
        lemma_second_pass(
            first_pass(positions, targets, positions.len()),
            targets.len() as int,
            positions.len(),
        );
    }
}

/// With at least as many targets as particles, and at least one target, every
/// particle ends with a target, and no two particles with the same one.
pub proof fn lemma_enough_targets(positions: Seq<Point>, targets: Seq<Point>)
    requires
        targets.len() <= usize::MAX,
        targets.len() > 0,
        targets.len() >= positions.len(),
    ensures
        forall|i: int|
            0 <= i < positions.len() ==> (#[trigger] assignment(positions, targets)[i]).is_some(),
        forall|i: int, k: int|
            0 <= i < k < positions.len() ==> (#[trigger] assignment(positions, targets)[i])
                != (#[trigger] assignment(positions, targets)[k]),
{
    lemma_assignment_shape(positions, targets);
}

/// With fewer targets than particles, exactly as many particles as there are
/// targets end with one: those of the lowest indices. The others end with none.
pub proof fn lemma_scarce_targets(positions: Seq<Point>, targets: Seq<Point>)
    requires
        targets.len() < positions.len(),
        targets.len() <= usize::MAX,
    ensures
        count_forming(assignment(positions, targets), positions.len() as int) == targets.len(),
        forall|i: int|
            0 <= i < targets.len() ==> (#[trigger] assignment(positions, targets)[i]).is_some(),
        forall|i: int|
            targets.len() <= i < positions.len() ==> (#[trigger] assignment(
                positions,
                targets,
            )[i]).is_none(),
{
    lemma_assignment_shape(positions, targets);
    lemma_count_prefix(
        assignment(positions, targets),
        positions.len() as int,
        targets.len() as int,
    );
}

/// With no target, no particle ends with one.
pub proof fn lemma_no_targets(positions: Seq<Point>)
    ensures
        assignment(positions, Seq::empty()).len() == positions.len(),
        forall|i: int|
            0 <= i < positions.len() ==> (#[trigger] assignment(positions, Seq::empty())[i]).is_none(),
{
}

} // verus!
