//! Free helpers on grid cells, in the machine's 32-bit integers.

use crate::vector::{grid_cell, grid_index, rem_toward_zero, Vector3};
use cgmath::Array;
use vstd::prelude::*;

verus! {

/// Whether the place of a cell in a grid of edge `side_len` can be computed
/// in an `i32`.
pub open spec fn small_grid_fits(side_len: int) -> bool {
    0 < side_len && side_len * side_len * side_len <= i32::MAX
}

proof fn lemma_small_index_terms(rx: int, ry: int, rz: int, l: int)
    by (nonlinear_arith)
    requires
        0 < l,
        -l < rx < l,
        -l < ry < l,
        -l < rz < l,
    ensures
        -(l * l * l) < ry * l < l * l * l,
        -(l * l * l) < ry * l * l < l * l * l,
        -(l * l * l) < rz * l < l * l * l,
        -(l * l * l) < rx + ry * l * l < l * l * l,
        -(l * l * l) < rx + ry * l * l + rz * l < l * l * l,
{
    assert(-(l - 1) <= ry <= l - 1);
    assert(-(l - 1) * l <= ry * l <= (l - 1) * l);
    assert(-(l - 1) * l * l <= ry * l * l <= (l - 1) * l * l);
    assert(-(l - 1) * l <= rz * l <= (l - 1) * l);
    assert(l * l * l == (l - 1) * l * l + (l - 1) * l + l);
    assert(l <= l * l);
    assert(l * l <= l * l * l);
}

proof fn lemma_small_rem_bounds(a: int, m: int)
    by (nonlinear_arith)
    requires
        0 < m,
    ensures
        -m < rem_toward_zero(a, m) < m,
{
}

/// `cgmath::Array::sum` on a `cgmath::Vector3<i32>`. Its source adds the
/// components from left to right, `(x + y) + z`; where neither of the two
/// sums leaves the `i32` range, the result is the sum of the three.
#[verifier::external_body]
fn component_sum(x: i32, y: i32, z: i32) -> (r: i32)
    requires
        i32::MIN <= x + y <= i32::MAX,
        i32::MIN <= x + y + z <= i32::MAX,
    ensures
        r == x + y + z,
{
    cgmath::Vector3::new(x, y, z).sum()
}

/// The place of the cell `pos` in a grid of edge `side_len`, as the 32
/// bits of the sum: a sum below zero, which only coordinates below zero
/// give, wraps.
pub fn pos_to_index(pos: Vector3<i32>, side_len: i32) -> (r: u32)
    requires
        small_grid_fits(side_len as int),
    ensures
        r == grid_index(pos.x as int, pos.y as int, pos.z as int, side_len as int) as u32,
{
    let rx: i32 = pos.x % side_len;
    let ry: i32 = pos.y % side_len;
    let rz: i32 = pos.z % side_len;
    proof {
        lemma_small_rem_bounds(pos.x as int, side_len as int);
        lemma_small_rem_bounds(pos.y as int, side_len as int);
        lemma_small_rem_bounds(pos.z as int, side_len as int);
        lemma_small_index_terms(rx as int, ry as int, rz as int, side_len as int);
    }
    let sum: i32 = component_sum(rx, ry * side_len * side_len, rz * side_len);
    #[verifier::truncate]
    (sum as u32)
}

/// The cell at place `index` of a grid of edge `side_len`.
pub fn index_to_pos(index: u32, side_len: u32) -> (r: Vector3<u32>)
    requires
        0 < side_len,
        side_len * side_len <= u32::MAX,
    ensures
        r.x == grid_cell(index as int, side_len as int).0,
        r.y == grid_cell(index as int, side_len as int).1,
        r.z == grid_cell(index as int, side_len as int).2,
{
    let square: u32 = side_len * side_len;
    assert(0 < square) by (nonlinear_arith)
        requires
            square == side_len * side_len,
            0 < side_len,
    ;
    Vector3 { x: (index % square) % side_len, y: index / square, z: (index % square) / side_len }
}

/// Per axis, 1 where `edge` lies below `input`, else 0.
pub fn step_vec_three(edge: Vector3<i64>, input: Vector3<i64>) -> (r: Vector3<u32>)
    ensures
        r.x == (if edge.x < input.x { 1u32 } else { 0u32 }),
        r.y == (if edge.y < input.y { 1u32 } else { 0u32 }),
        r.z == (if edge.z < input.z { 1u32 } else { 0u32 }),
{
    Vector3 {
        x: if edge.x < input.x { 1 } else { 0 },
        y: if edge.y < input.y { 1 } else { 0 },
        z: if edge.z < input.z { 1 } else { 0 },
    }
}

} // verus!
