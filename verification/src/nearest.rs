//! Nearest unused target within the block of cells around a particle.
use crate::geometry::{
    cell_coord, cell_in_range, cell_key, cell_x, cell_y, dist2, key_of,
    lemma_cell_key_injective, squared_distance, Point,
};
use crate::grid::GridIndex;
use std::collections::HashSet;
use vstd::prelude::*;

verus! {

broadcast use vstd::std_specs::hash::group_hash_axioms;

/// `t` lies in the block of five by five cells centred on the cell of `p`.
pub open spec fn in_block(p: Point, t: Point) -> bool {
    &&& cell_x(p) - 2 <= cell_x(t) <= cell_x(p) + 2
    &&& cell_y(p) - 2 <= cell_y(t) <= cell_y(p) + 2
}

/// Target `j` may be given to a particle at `p`: it exists, is not used yet,
/// and lies in the block around `p`.
pub open spec fn candidate(p: Point, targets: Seq<Point>, used: Set<usize>, j: usize) -> bool {
    &&& j < targets.len()
    &&& !used.contains(j)
    &&& in_block(p, targets[j as int])
}

/// The search visits cells column by column, each column row by row, and the
/// targets of a cell by ascending index. Target `j` comes before the place
/// `(cx, cy, bound)` in that order.
pub open spec fn scanned_before(targets: Seq<Point>, j: usize, cx: int, cy: int, bound: int) -> bool {
    let tx = cell_x(targets[j as int]);
    let ty = cell_y(targets[j as int]);
    tx < cx || (tx == cx && (ty < cy || (ty == cy && j < bound)))
}

/// Target `j` is kept over target `k`: it is strictly closer to `p`, or as
/// close and visited no later.
pub open spec fn beats(p: Point, targets: Seq<Point>, j: usize, k: usize) -> bool {
    let dj = dist2(p, targets[j as int]);
    let dk = dist2(p, targets[k as int]);
    dj < dk || (dj == dk && (j == k || scanned_before(
        targets,
        j,
        cell_x(targets[k as int]),
        cell_y(targets[k as int]),
        k as int,
    )))
}

/// Target `j` is the candidate that the search around `p` ends with.
pub open spec fn is_nearest(p: Point, targets: Seq<Point>, used: Set<usize>, j: usize) -> bool {
    &&& candidate(p, targets, used, j)
    &&& forall|k: usize| #[trigger] candidate(p, targets, used, k) ==> beats(p, targets, j, k)
}

/// The unused target of the block around `p` that is nearest to `p`, the one
/// visited first among equally near ones; `None` where the block holds no
/// unused target.
pub open spec fn nearest_unused(p: Point, targets: Seq<Point>, used: Set<usize>) -> Option<usize> {
    if exists|j: usize| is_nearest(p, targets, used, j) {
        Some(choose|j: usize| is_nearest(p, targets, used, j))
    } else {
        None
    }
}

/// At most one target is the nearest.
pub proof fn lemma_nearest_unique(p: Point, targets: Seq<Point>, used: Set<usize>, j: usize, k: usize)
    requires
        is_nearest(p, targets, used, j),
        is_nearest(p, targets, used, k),
    ensures
        j == k,
{
    assert(beats(p, targets, j, k));
    assert(beats(p, targets, k, j));
}

/// What `nearest_unused` returns is a candidate, and it returns `None` only
/// where there is none.
pub proof fn lemma_nearest_unused(p: Point, targets: Seq<Point>, used: Set<usize>)
    ensures
        match nearest_unused(p, targets, used) {
            Some(j) => is_nearest(p, targets, used, j),
            None => forall|j: usize| !is_nearest(p, targets, used, j),
        },
{
}

/// `best` is the winner among the candidates visited before `(cx, cy, bound)`.
pub open spec fn best_so_far(
    p: Point,
    targets: Seq<Point>,
    used: Set<usize>,
    best: Option<usize>,
    cx: int,
    cy: int,
    bound: int,
) -> bool {
    match best {
        Some(j) => {
            &&& candidate(p, targets, used, j)
            &&& scanned_before(targets, j, cx, cy, bound)
            &&& forall|k: usize|
                #[trigger] candidate(p, targets, used, k) && scanned_before(targets, k, cx, cy, bound)
                    ==> beats(p, targets, j, k)
        },
        None => forall|k: usize|
            #[trigger] candidate(p, targets, used, k) ==> !scanned_before(targets, k, cx, cy, bound),
    }
}

/// The index at place `a` of a bucket, or `n` past its end.
pub open spec fn frontier(cell: Seq<usize>, a: int, n: int) -> int {
    if a < cell.len() {
        cell[a] as int
    } else {
        n
    }
}

/// A target of cell `(cx, cy)` stands in the cell's bucket, at or after the
/// place `a` exactly when its index has reached the frontier of `a`.
proof fn lemma_bucket_place(grid: &GridIndex, targets: Seq<Point>, cx: int, cy: int, a: int, k: usize)
    requires
        grid.wf(targets),
        cell_in_range(cx),
        cell_in_range(cy),
        0 <= a <= grid.bucket(cell_key(cx, cy)).len(),
        k < targets.len(),
        cell_x(targets[k as int]) == cx,
        cell_y(targets[k as int]) == cy,
    ensures
        ({
            let cell = grid.bucket(cell_key(cx, cy));
            let n = targets.len() as int;
            &&& a == 0 ==> frontier(cell, a, n) <= k
            &&& a < cell.len() && frontier(cell, a, n) <= k < frontier(cell, a + 1, n) ==> k
                == cell[a]
        }),
{
    let cell = grid.bucket(cell_key(cx, cy));
    assert(key_of(targets[k as int]) == cell_key(cx, cy));
    assert(cell.contains(k));
    let b = choose|b: int| 0 <= b < cell.len() && cell[b] == k;
    if a < cell.len() {
        if b < a {
            assert(cell[b] < cell[a]);
        }
        if a + 1 < cell.len() && a + 1 < b {
            assert(cell[a + 1] < cell[b]);
        }
        if a < b {
            assert(cell[a] < cell[b]);
        }
    }
}

/// A target listed in the bucket of cell `(cx, cy)` lies in that cell.
proof fn lemma_bucket_member(grid: &GridIndex, targets: Seq<Point>, cx: int, cy: int, a: int)
    requires
        grid.wf(targets),
        cell_in_range(cx),
        cell_in_range(cy),
        0 <= a < grid.bucket(cell_key(cx, cy)).len(),
    ensures
        ({
            let j = grid.bucket(cell_key(cx, cy))[a];
            &&& j < targets.len()
            &&& cell_x(targets[j as int]) == cx
            &&& cell_y(targets[j as int]) == cy
        }),
{
    let j = grid.bucket(cell_key(cx, cy))[a];
    assert(key_of(targets[j as int]) == cell_key(cx, cy));
    lemma_cell_key_injective(cell_x(targets[j as int]), cell_y(targets[j as int]), cx, cy);
}

/// Searches the block of five by five cells around `p` for the nearest target
/// that is not used yet.
pub fn find_nearest(p: Point, targets: &Vec<Point>, grid: &GridIndex, used: &HashSet<usize>) -> (r:
    Option<usize>)
    requires
        grid.wf(targets@),
    ensures
        r == nearest_unused(p, targets@, used@),
{
    let gx: i64 = cell_coord(p.x);
    let gy: i64 = cell_coord(p.y);
    let ghost n = targets@.len() as int;
    let mut best: Option<usize> = None;
    let mut best_dist: u128 = 0;
    let mut cx: i64 = gx - 2;
    while cx <= gx + 2
        invariant
            gx == cell_x(p),
            gy == cell_y(p),
            -42950 <= gx <= 42949,
            -42950 <= gy <= 42949,
            n == targets@.len(),
            gx - 2 <= cx <= gx + 3,
            grid.wf(targets@),
            best_so_far(p, targets@, used@, best, cx as int, gy - 2, 0),
            best matches Some(j) ==> best_dist == dist2(p, targets@[j as int]),
        decreases gx + 3 - cx,
    {
        let mut cy: i64 = gy - 2;
        while cy <= gy + 2
            invariant
                gx == cell_x(p),
                gy == cell_y(p),
                -42950 <= gx <= 42949,
                -42950 <= gy <= 42949,
                n == targets@.len(),
                gx - 2 <= cx <= gx + 2,
                gy - 2 <= cy <= gy + 3,
                grid.wf(targets@),
                best_so_far(p, targets@, used@, best, cx as int, cy as int, 0),
                best matches Some(j) ==> best_dist == dist2(p, targets@[j as int]),
            decreases gy + 3 - cy,
        {
            match grid.lookup(cx, cy) {
                Some(cell) => {
                    let mut a: usize = 0;
                    proof {
                        assert forall|k: usize| #[trigger]
                            candidate(p, targets@, used@, k) && scanned_before(
                                targets@,
                                k,
                                cx as int,
                                cy as int,
                                frontier(cell@, 0, n),
                            ) implies scanned_before(targets@, k, cx as int, cy as int, 0) by {
                            if cell_x(targets@[k as int]) == cx && cell_y(targets@[k as int]) == cy {
                                lemma_bucket_place(grid, targets@, cx as int, cy as int, 0, k);
                            }
                        }
                    }
                    while a < cell.len()
                        invariant
                            gx == cell_x(p),
                            gy == cell_y(p),
                            -42950 <= gx <= 42949,
                            -42950 <= gy <= 42949,
                            n == targets@.len(),
                            gx - 2 <= cx <= gx + 2,
                            gy - 2 <= cy <= gy + 2,
                            grid.wf(targets@),
                            a <= cell.len(),
                            cell@ == grid.bucket(cell_key(cx as int, cy as int)),
                            best_so_far(
                                p,
                                targets@,
                                used@,
                                best,
                                cx as int,
                                cy as int,
                                frontier(cell@, a as int, n),
                            ),
                            best matches Some(j) ==> best_dist == dist2(p, targets@[j as int]),
                        decreases cell.len() - a,
                    {
                        let j: usize = cell[a];
                        let ghost old_best = best;
                        proof {
                            lemma_bucket_member(grid, targets@, cx as int, cy as int, a as int);
                        }
                        if !used.contains(&j) {
                            let d: u128 = squared_distance(p, targets[j]);
                            let better: bool = match best {
                                None => true,
                                Some(_) => d < best_dist,
                            };
                            if better {
                                best = Some(j);
                                best_dist = d;
                            }
                        }
                        proof {
                            let f0 = frontier(cell@, a as int, n);
                            let f1 = frontier(cell@, a + 1, n);
                            if a + 1 < cell.len() {
                                assert(cell@[a as int] < cell@[a + 1]);
                            }
                            assert(f0 < f1);
                            assert forall|k: usize| #[trigger]
                                candidate(p, targets@, used@, k) && scanned_before(
                                    targets@,
                                    k,
                                    cx as int,
                                    cy as int,
                                    f1,
                                ) && !scanned_before(
                                    targets@,
                                    k,
                                    cx as int,
                                    cy as int,
                                    f0,
                                ) implies k == j by {
                                lemma_bucket_place(grid, targets@, cx as int, cy as int, a as int, k);
                            }
                            assert(best_so_far(
                                p,
                                targets@,
                                used@,
                                best,
                                cx as int,
                                cy as int,
                                f1,
                            ));
                        }
                        a += 1;
                    }
                },
                None => {
                    proof {
                        assert forall|k: usize| #[trigger]
                            candidate(p, targets@, used@, k) && scanned_before(
                                targets@,
                                k,
                                cx as int,
                                cy as int,
                                n,
                            ) implies scanned_before(targets@, k, cx as int, cy as int, 0) by {
                            if cell_x(targets@[k as int]) == cx && cell_y(targets@[k as int]) == cy {
                                lemma_bucket_place(grid, targets@, cx as int, cy as int, 0, k);
                            }
                        }
                    }
                },
            }
            assert(best_so_far(p, targets@, used@, best, cx as int, cy as int, n));
            cy += 1;
        }
        cx += 1;
    }
    proof {
        lemma_nearest_unused(p, targets@, used@);
        match best {
            Some(j) => {
                assert(is_nearest(p, targets@, used@, j));
                lemma_nearest_unique(p, targets@, used@, j, nearest_unused(p, targets@, used@).unwrap());
            },
            None => {
                assert forall|j: usize| !is_nearest(p, targets@, used@, j) by {
                    if candidate(p, targets@, used@, j) {
                        assert(scanned_before(targets@, j, cx as int, gy - 2, 0));
                    }
                }
            },
        }
    }
    best
}

} // verus!
