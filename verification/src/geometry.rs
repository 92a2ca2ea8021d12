//! Fixed-point positions, grid cells and squared distances.
//!
//! Every length is a whole number of thousandths of a world unit.
use vstd::prelude::*;

verus! {

/// Side of a square grid cell: fifty world units.
pub const CELL_SIZE: i32 = 50000;

/// A position, in thousandths of a world unit.
#[derive(Clone, Copy, Debug, PartialEq, Eq, Structural)]
pub struct Point {
    pub x: i32,
    pub y: i32,
}

/// The cell coordinate of a coordinate: the floor of `v / CELL_SIZE`.
pub open spec fn cell_of(v: int) -> int {
    v / (CELL_SIZE as int)
}

/// Column of the cell that holds `p`.
pub open spec fn cell_x(p: Point) -> int {
    cell_of(p.x as int)
}

/// Row of the cell that holds `p`.
pub open spec fn cell_y(p: Point) -> int {
    cell_of(p.y as int)
}

/// Cell coordinates that a point, or a cell at most two cells away from one, can have.
pub open spec fn cell_in_range(c: int) -> bool {
    -42952 <= c <= 42951
}

/// One integer for a cell: distinct cells in range get distinct keys.
pub open spec fn cell_key(cx: int, cy: int) -> int {
    cx * 4294967296 + cy
}

/// The key of the cell that holds `p`.
pub open spec fn key_of(p: Point) -> int {
    cell_key(cell_x(p), cell_y(p))
}

/// Squared Euclidean distance.
pub open spec fn dist2(a: Point, b: Point) -> int {
    (a.x - b.x) * (a.x - b.x) + (a.y - b.y) * (a.y - b.y)
}

/// Cells in range are told apart by their keys.
pub proof fn lemma_cell_key_injective(ax: int, ay: int, bx: int, by: int)
    requires
        cell_in_range(ax),
        cell_in_range(ay),
        cell_in_range(bx),
        cell_in_range(by),
        cell_key(ax, ay) == cell_key(bx, by),
    ensures
        ax == bx,
        ay == by,
{
}

/// Computes the cell coordinate of `v`, rounding towards minus infinity.
pub fn cell_coord(v: i32) -> (c: i64)
    ensures
        c == cell_of(v as int),
        -42950 <= c <= 42949,
{
    let shifted: u64 = (v as i64 + 2147500000) as u64;
    let q: u64 = shifted / (CELL_SIZE as u64);
    q as i64 - 42950
}

/// Computes the key of the cell `(cx, cy)`.
pub fn grid_key(cx: i64, cy: i64) -> (k: i64)
    requires
        cell_in_range(cx as int),
        cell_in_range(cy as int),
    ensures
        k == cell_key(cx as int, cy as int),
{
    cx * 4294967296 + cy
}

/// Computes the squared Euclidean distance between two points.
pub fn squared_distance(a: Point, b: Point) -> (d: u128)
    ensures
        d == dist2(a, b),
{
    let dx: i128 = a.x as i128 - b.x as i128;
    let dy: i128 = a.y as i128 - b.y as i128;
    assert(0 <= dx * dx <= 18446744073709551616) by (nonlinear_arith)
        requires
            -4294967296 <= dx <= 4294967296,
    ;
    assert(0 <= dy * dy <= 18446744073709551616) by (nonlinear_arith)
        requires
            -4294967296 <= dy <= 4294967296,
    ;
    (dx * dx + dy * dy) as u128
}

} // verus!
