//! The two passes that give targets to particles.
use crate::geometry::Point;
use crate::grid::GridIndex;
use crate::nearest::{find_nearest, nearest_unused};
use std::collections::HashSet;
use vstd::prelude::*;

verus! {

broadcast use vstd::std_specs::hash::group_hash_axioms;

/// The state of an assignment under way.
pub ghost struct Progress {
    /// For each particle, the index of its target, if it has one.
    pub slots: Seq<Option<usize>>,
    /// The targets given out so far.
    pub used: Set<usize>,
    /// Where the second pass goes on looking for an unused target.
    pub cursor: int,
}

/// The first pass after its first `n` particles: each particle whose index
/// is below the number of targets takes the nearest unused target of the
/// block around it, if that block holds one.
pub open spec fn first_pass(positions: Seq<Point>, targets: Seq<Point>, n: nat) -> Progress
    decreases n,
{
    if n == 0 {
        Progress {
            slots: Seq::new(positions.len(), |i: int| None::<usize>),
            used: Set::empty(),
            cursor: 0,
        }
    } else {
        let prev = first_pass(positions, targets, (n - 1) as nat);
        let i = n - 1;
        if i < targets.len() {
            match nearest_unused(positions[i], targets, prev.used) {
                Some(j) => Progress {
                    slots: prev.slots.update(i, Some(j)),
                    used: prev.used.insert(j),
                    cursor: 0,
                },
                None => prev,
            }
        } else {
            prev
        }
    }
}

/// The least index from `from` up that is not in `used`, or `len` if there is none.
pub open spec fn next_unused(used: Set<usize>, from: int, len: int) -> int
    decreases len - from,
{
    if from >= len {
        len
    } else if !used.contains(from as usize) {
        from
    } else {
        next_unused(used, from + 1, len)
    }
}

/// The second pass after its first `n` particles: each eligible particle that
/// the first pass left without a target takes the next unused target.
pub open spec fn second_pass(first: Progress, n_targets: int, n: nat) -> Progress
    decreases n,
{
    if n == 0 {
        first
    } else {
        let prev = second_pass(first, n_targets, (n - 1) as nat);
        let i = n - 1;
        if i >= n_targets || prev.slots[i].is_some() {
            prev
        } else {
            let k = next_unused(prev.used, prev.cursor, n_targets);
            if k < n_targets {
                Progress {
                    slots: prev.slots.update(i, Some(k as usize)),
                    used: prev.used.insert(k as usize),
                    cursor: k + 1,
                }
            } else {
                Progress { slots: prev.slots, used: prev.used, cursor: k }
            }
        }
    }
}

/// The target index of each particle once both passes are done. With no
/// target at all, no particle has one.
pub open spec fn assignment(positions: Seq<Point>, targets: Seq<Point>) -> Seq<Option<usize>> {
    if targets.len() == 0 {
        Seq::new(positions.len(), |i: int| None::<usize>)
    } else {
        second_pass(
            first_pass(positions, targets, positions.len()),
            targets.len() as int,
            positions.len(),
        ).slots
    }
}

/// Computes the target index of each particle: the nearest unused target of
/// its neighbourhood where there is one, else the next unused target.
pub fn assign(positions: &Vec<Point>, targets: &Vec<Point>) -> (slots: Vec<Option<usize>>)
    ensures
        slots@ == assignment(positions@, targets@),
{
    let np: usize = positions.len();
    let nt: usize = targets.len();
    let mut slots: Vec<Option<usize>> = Vec::new();
    let mut i: usize = 0;
    while i < np
        invariant
            i <= np,
            slots@ == Seq::new(i as nat, |x: int| None::<usize>),
        decreases np - i,
    {
        slots.push(None);
        assert(slots@ =~= Seq::new((i + 1) as nat, |x: int| None::<usize>));
        i += 1;
    }
    if nt == 0 {
        return slots;
    }
    let grid = GridIndex::build(targets);
    let mut used: HashSet<usize> = HashSet::new();
    i = 0;
    while i < np
        invariant
            i <= np,
            np == positions@.len(),
            nt == targets@.len(),
            grid.wf(targets@),
            slots@.len() == np,
            slots@ == first_pass(positions@, targets@, i as nat).slots,
            used@ == first_pass(positions@, targets@, i as nat).used,
        decreases np - i,
    {
        if i < nt {
            match find_nearest(positions[i], targets, &grid, &used) {
                Some(j) => {
                    slots.set(i, Some(j));
                    used.insert(j);
                },
                None => {},
            }
        }
        i += 1;
    }
    let ghost first = first_pass(positions@, targets@, np as nat);
    assert(first == Progress { slots: slots@, used: used@, cursor: 0 }) by {
        lemma_first_pass_cursor(positions@, targets@, np as nat);
    }
    let mut cursor: usize = 0;
    i = 0;
    while i < np
        invariant
            i <= np,
            np == positions@.len(),
            nt == targets@.len(),
            cursor <= nt,
            slots@.len() == np,
            second_pass(first, nt as int, i as nat) == (Progress {
                slots: slots@,
                used: used@,
                cursor: cursor as int,
            }),
        decreases np - i,
    {
        if i < nt && slots[i].is_none() {
            let ghost start = cursor;
            while cursor < nt && used.contains(&cursor)
                invariant
                    start <= cursor <= nt,
                    next_unused(used@, cursor as int, nt as int) == next_unused(
                        used@,
                        start as int,
                        nt as int,
                    ),
                decreases nt - cursor,
            {
                cursor += 1;
            }
            if cursor < nt {
                slots.set(i, Some(cursor));
                used.insert(cursor);
                cursor += 1;
            }
        }
        i += 1;
    }
    slots
}

/// The first pass leaves the cursor at the start.
proof fn lemma_first_pass_cursor(positions: Seq<Point>, targets: Seq<Point>, n: nat)
    ensures
        first_pass(positions, targets, n).cursor == 0,
    decreases n,
{
    if n > 0 {
        lemma_first_pass_cursor(positions, targets, (n - 1) as nat);
    }
}

} // verus!
