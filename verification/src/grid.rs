//! The grid index: for each cell, the targets that lie in it.
use crate::geometry::{cell_coord, cell_in_range, cell_key, grid_key, key_of, Point};
use std::collections::HashMap;
use vstd::prelude::*;

verus! {

broadcast use vstd::std_specs::hash::group_hash_axioms;

/// Maps the key of each occupied cell to the indices of the targets in it,
/// in ascending order.
pub struct GridIndex {
    cells: HashMap<i64, Vec<usize>>,
}

impl GridIndex {
    /// The indices stored for the cell with key `k`; empty for a cell that holds none.
    pub closed spec fn bucket(&self, k: int) -> Seq<usize> {
        if i64::MIN <= k <= i64::MAX && self.cells@.contains_key(k as i64) {
            self.cells@[k as i64]@
        } else {
            Seq::empty()
        }
    }

    /// The index holds exactly the first `n` of `targets`: each bucket lists,
    /// in ascending order, targets of its own cell, and each of the `n` targets
    /// is listed in the bucket of its cell.
    pub open spec fn indexes(&self, targets: Seq<Point>, n: int) -> bool {
        &&& forall|k: int, a: int|
            0 <= a < self.bucket(k).len() ==> {
                let j = #[trigger] self.bucket(k)[a];
                j < n && key_of(targets[j as int]) == k
            }
        &&& forall|k: int, a: int, b: int|
            0 <= a < b < self.bucket(k).len() ==> #[trigger] self.bucket(k)[a]
                < #[trigger] self.bucket(k)[b]
        &&& forall|j: int|
            0 <= j < n ==> self.bucket(key_of(#[trigger] targets[j])).contains(j as usize)
    }

    /// The index of the whole of `targets`.
    pub open spec fn wf(&self, targets: Seq<Point>) -> bool {
        self.indexes(targets, targets.len() as int)
    }

    /// Builds the index of `targets`.
    pub fn build(targets: &Vec<Point>) -> (g: GridIndex)
        ensures
            g.wf(targets@),
    {
        let mut g = GridIndex { cells: HashMap::new() };
        let mut idx: usize = 0;
        while idx < targets.len()
            invariant
                idx <= targets.len(),
                g.indexes(targets@, idx as int),
            decreases targets.len() - idx,
        {
            let t = targets[idx];
            let key = grid_key(cell_coord(t.x), cell_coord(t.y));
            let ghost before = g;
            let mut bucket: Vec<usize> = match g.cells.remove(&key) {
                Some(v) => v,
                None => Vec::new(),
            };
            assert(bucket@ == before.bucket(key as int));
            bucket.push(idx);
            g.cells.insert(key, bucket);
            proof {
                assert(g.bucket(key as int) == before.bucket(key as int).push(idx));
                assert(forall|k: int| k != key ==> g.bucket(k) == before.bucket(k));
                assert forall|k: int, a: int| 0 <= a < g.bucket(k).len() implies {
                    let j = #[trigger] g.bucket(k)[a];
                    j < idx + 1 && key_of(targets@[j as int]) == k
                } by {
                    if k == key && a < before.bucket(k).len() {
                        assert(g.bucket(k)[a] == before.bucket(k)[a]);
                    } else if k != key {
                        assert(g.bucket(k)[a] == before.bucket(k)[a]);
                    }
                }
                assert forall|k: int, a: int, b: int|
                    0 <= a < b < g.bucket(k).len() implies #[trigger] g.bucket(k)[a]
                    < #[trigger] g.bucket(k)[b] by {
                    if k == key {
                        if b < before.bucket(k).len() {
                            assert(before.bucket(k)[a] < before.bucket(k)[b]);
                        } else {
                            assert(before.bucket(k)[a] < idx);
                        }
                    } else {
                        assert(before.bucket(k)[a] < before.bucket(k)[b]);
                    }
                }
                assert forall|j: int| 0 <= j < idx + 1 implies g.bucket(
                    key_of(#[trigger] targets@[j]),
                ).contains(j as usize) by {
                    let kj = key_of(targets@[j]);
                    if j < idx {
                        let a = choose|a: int|
                            0 <= a < before.bucket(kj).len() && before.bucket(kj)[a] == j as usize;
                        assert(g.bucket(kj)[a] == j as usize);
                    } else {
                        assert(g.bucket(kj)[before.bucket(kj).len() as int] == j as usize);
                    }
                }
            }
            idx += 1;
        }
        g
    }

    /// The targets indexed for cell `(cx, cy)`, or `None` where the cell holds none.
    pub fn lookup(&self, cx: i64, cy: i64) -> (r: Option<&Vec<usize>>)
        requires
            cell_in_range(cx as int),
            cell_in_range(cy as int),
        ensures
            match r {
                Some(v) => v@ == self.bucket(cell_key(cx as int, cy as int)),
                None => self.bucket(cell_key(cx as int, cy as int)).len() == 0,
            },
    {
        let key = grid_key(cx, cy);
        self.cells.get(&key)
    }
}

} // verus!
