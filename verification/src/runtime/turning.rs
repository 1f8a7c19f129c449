//! Rotations by position.
use super::config::Real;
use super::rope;
use super::rope::RoPECache;
use super::unit;
use super::unit::Op;
use crate::grid;
use crate::tensor::tensor::TensorModel;
use vstd::prelude::*;

verus! {

/// Positions go up one by one from the first.
pub proof fn positions_go_up_one_by_one(position: usize, count: nat, i: int)
    requires
        position + count <= usize::MAX,
        0 <= i < count,
    ensures
        rope::from_on(position, count).len() == count,
        rope::from_on(position, count)[i] == position + i,
{
}

/// Rotations stretch positions where they were laid out for heads of this width and for this base;
/// otherwise positions are taken as they are.
pub proof fn rotations_serve_their_own_heads(c: RoPECache, head_dim: usize, theta: Real)
    ensures
        c.head_dim == head_dim && c.theta == theta ==> rope::stretch(Some(&c), head_dim, theta) == c.scaling_factor,
        c.head_dim != head_dim || c.theta != theta ==> rope::stretch(Some(&c), head_dim, theta) == Real::Single(0x3f80_0000),
        rope::stretch(None, head_dim, theta) == Real::Single(0x3f80_0000),
{
}

/// Each row is rotated on its own: by the position of its column, with the base and the factor, and
/// to the same place of the result. Head `h` at column `i` has its elements from `(h * columns + i) *
/// width` on.
pub proof fn rows_are_turned_by_their_positions<F: Fn(Op, &[u32], &[u32], &[u32]) -> Vec<u32>>(
    unit: F,
    x: TensorModel,
    position: usize,
    theta: Real,
    factor: Real,
    r: TensorModel,
    h: int,
    i: int,
    c: int,
)
    requires
        rope::rotated(unit, x, rope::from_on(position, x.shape[1] as nat), theta, factor, r),
        position + x.shape[1] <= usize::MAX,
        0 <= h < x.shape[0],
        0 <= i < x.shape[1],
        0 <= c < x.shape[2],
    ensures
        ({
            let width = x.shape[2] as int;
            let first = (h * x.shape[1] + i) * width;
            let row = Seq::new(width as nat, |k: int| x.lane(first + k));
            r.lane(first + c) == unit::value(
                unit,
                Op::Rotate { position: (position + i) as usize, theta, factor },
                row,
                Seq::empty(),
                Seq::empty(),
            )[c]
        }),
        r.shape == x.shape,
{
    let width = x.shape[2] as int;
    let at = grid::cell(h, i, x.shape[1] as int);
    let first = (h * x.shape[1] + i) * width;
    let row = Seq::new(width as nat, |k: int| x.lane(first + k));
    assert(x.chunk(at, width) =~= row);
    assert(r.chunk(at, width)[c] == r.lane(first + c));
}

/// A column that is rotated among others is rotated as it is alone at its position.
pub proof fn columns_are_turned_alike<F: Fn(Op, &[u32], &[u32], &[u32]) -> Vec<u32>>(
    unit: F,
    x: TensorModel,
    y: TensorModel,
    positions: Seq<usize>,
    theta: Real,
    factor: Real,
    r: TensorModel,
    s: TensorModel,
    h: int,
    i: int,
)
    requires
        rope::rotated(unit, x, positions, theta, factor, r),
        rope::rotated(unit, y, seq![positions[i]], theta, factor, s),
        x.shape.len() == 3,
        y.shape == seq![x.shape[0], 1usize, x.shape[2]],
        0 <= h < x.shape[0],
        0 <= i < x.shape[1],
        y.chunk(h, x.shape[2] as int) == x.chunk(grid::cell(h, i, x.shape[1] as int), x.shape[2] as int),
    ensures
        s.chunk(h, x.shape[2] as int) == r.chunk(grid::cell(h, i, x.shape[1] as int), x.shape[2] as int),
{
    assert(grid::cell(h, 0, 1) == h);
    assert(s.chunk(grid::cell(h, 0, y.shape[1] as int), y.shape[2] as int) == s.chunk(h, x.shape[2] as int));
}

} // verus!
