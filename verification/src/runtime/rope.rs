//! Rotary positions on their own.
use super::config::{Real, UNIT};
use super::heads;
use super::unit;
use super::unit::Op;
use crate::grid;
use crate::tensor::tensor::{Tensor, TensorModel};
use crate::tensor::types::Device;
use vstd::prelude::*;

verus! {

/// What rotations were laid out for: a head width, a number of positions, a base and a factor by
/// which positions are stretched.
#[derive(Debug, Clone, Copy, PartialEq, Eq, Structural)]
pub struct RoPECache {
    pub head_dim: usize,
    pub max_seq_len: usize,
    pub theta: Real,
    pub scaling_factor: Real,
}

impl RoPECache {
    /// Rotations for positions as they are.
    pub fn new(max_seq_len: usize, head_dim: usize, theta: Real) -> (r: RoPECache)
        ensures
            r == (RoPECache { head_dim, max_seq_len, theta, scaling_factor: Real::Single(UNIT) }),
    {
        RoPECache::with_scaling(max_seq_len, head_dim, theta, Real::Single(UNIT))
    }

    /// Rotations for stretched positions.
    pub fn with_scaling(max_seq_len: usize, head_dim: usize, theta: Real, scaling_factor: Real) -> (r: RoPECache)
        ensures
            r == (RoPECache { head_dim, max_seq_len, theta, scaling_factor }),
    {
        RoPECache { head_dim, max_seq_len, theta, scaling_factor }
    }

    /// The rotations are for this head width and this base.
    pub open spec fn serves(self, head_dim: usize, theta: Real) -> bool {
        self.head_dim == head_dim && self.theta == theta
    }
}

/// The factor by which positions are stretched: that of the rotations, where they serve.
pub open spec fn stretch(cache: Option<&RoPECache>, head_dim: usize, theta: Real) -> Real {
    match cache {
        Some(c) => if c.serves(head_dim, theta) {
            c.scaling_factor
        } else {
            Real::Single(UNIT)
        },
        None => Real::Single(UNIT),
    }
}

/// Rotations that serve reach so many positions.
pub open spec fn reaches(cache: Option<&RoPECache>, head_dim: usize, theta: Real, end: int) -> bool {
    cache matches Some(c) ==> c.serves(head_dim, theta) ==> end <= c.max_seq_len
}

fn read_stretch(cache: Option<&RoPECache>, head_dim: usize, theta: Real) -> (r: Real)
    ensures
        r == stretch(cache, head_dim, theta),
{
    match cache {
        Some(c) => if c.head_dim == head_dim && c.theta == theta {
            c.scaling_factor
        } else {
            Real::Single(UNIT)
        },
        None => Real::Single(UNIT),
    }
}

/// Heads can be rotated: there are rows of this width, and they can be numbered.
pub open spec fn rotatable(x: TensorModel, head_dim: usize) -> bool {
    &&& x.wf()
    &&& x.dtype is F32
    &&& x.shape.len() == 3
    &&& x.shape[2] == head_dim
    &&& x.shape[0] * x.shape[1] <= usize::MAX
}

/// The row of each head in each column is rotated by the position of the column.
pub open spec fn rotated<F: Fn(Op, &[u32], &[u32], &[u32]) -> Vec<u32>>(
    unit: F,
    x: TensorModel,
    positions: Seq<usize>,
    theta: Real,
    factor: Real,
    r: TensorModel,
) -> bool {
    &&& r.wf()
    &&& r.dtype is F32
    &&& r.shape == x.shape
    &&& r.device == Device::Cpu
    &&& forall|h: int, i: int| 0 <= h < x.shape[0] && 0 <= i < x.shape[1] ==> #[trigger] r.chunk(
        grid::cell(h, i, x.shape[1] as int),
        x.shape[2] as int,
    ) == unit::value(
        unit,
        Op::Rotate { position: positions[i], theta, factor },
        x.chunk(grid::cell(h, i, x.shape[1] as int), x.shape[2] as int),
        Seq::empty(),
        Seq::empty(),
    )
}

/// The positions from one on.
pub open spec fn from_on(position: usize, count: nat) -> Seq<usize> {
    Seq::new(count, |i: int| (position + i) as usize)
}

/// Lists the positions from one on.
fn list_from(position: usize, count: usize) -> (r: Vec<usize>)
    requires
        position + count <= usize::MAX,
    ensures
        r@ == from_on(position, count as nat),
{
    let mut r: Vec<usize> = Vec::new();
    let mut i: usize = 0;
    while i < count
        invariant
            position + count <= usize::MAX,
            i <= count,
            r@ == from_on(position, i as nat),
        decreases count - i,
    {
        r.push(position + i);
        i = i + 1;
        assert(r@ =~= from_on(position, i as nat));
    }
    r
}

/// Rotates the rows of all heads, each column by its own position.
fn rotate<F: Fn(Op, &[u32], &[u32], &[u32]) -> Vec<u32>>(x: &Tensor, positions: &[usize], head_dim: usize, theta: Real, factor: Real, unit: &F) -> (r: Tensor)
    requires
        unit::lawful(*unit),
        rotatable(x@, head_dim),
        positions@.len() == x@.shape[1],
    ensures
        rotated(*unit, x@, positions@, theta, factor, r@),
{
    let heads: usize = x.shape()[0];
    assert(x@.shape =~= seq![heads, positions@.len() as usize, head_dim]);
    let r: Tensor = heads::prepare_heads(x, heads, head_dim, &None, Some((theta, factor)), positions, unit);
    assert forall|h: int, i: int| 0 <= h < heads && 0 <= i < positions@.len() implies #[trigger] r@.chunk(
        grid::cell(h, i, positions@.len() as int),
        head_dim as int,
    ) == unit::value(
        *unit,
        Op::Rotate { position: positions@[i], theta, factor },
        x@.chunk(grid::cell(h, i, positions@.len() as int), head_dim as int),
        Seq::empty(),
        Seq::empty(),
    ) by {}
    r
}

/// Rotates the rows of all heads by the positions from `position` on.
pub fn apply_rotary_emb<F: Fn(Op, &[u32], &[u32], &[u32]) -> Vec<u32>>(x: &Tensor, position: usize, head_dim: usize, theta: Real, unit: &F) -> (r: Tensor)
    requires
        unit::lawful(*unit),
        rotatable(x@, head_dim),
        position + x@.shape[1] <= usize::MAX,
    ensures
        rotated(*unit, x@, from_on(position, x@.shape[1] as nat), theta, Real::Single(UNIT), r@),
{
    apply_rotary_emb_with_cache(x, position, head_dim, theta, None, unit)
}

/// Rotates the rows of all heads by the positions from `position` on, stretched as the rotations
/// say.
pub fn apply_rotary_emb_with_cache<F: Fn(Op, &[u32], &[u32], &[u32]) -> Vec<u32>>(
    x: &Tensor,
    position: usize,
    head_dim: usize,
    theta: Real,
    cache: Option<&RoPECache>,
    unit: &F,
) -> (r: Tensor)
    requires
        unit::lawful(*unit),
        rotatable(x@, head_dim),
        position + x@.shape[1] <= usize::MAX,
        reaches(cache, head_dim, theta, position + x@.shape[1]),
    ensures
        rotated(*unit, x@, from_on(position, x@.shape[1] as nat), theta, stretch(cache, head_dim, theta), r@),
{
    let positions: Vec<usize> = list_from(position, x.shape()[1]);
    rotate(x, positions.as_slice(), head_dim, theta, read_stretch(cache, head_dim, theta), unit)
}

/// Rotates queries and keys in place by the positions from `position` on.
pub fn apply_rotary_emb_inplace<F: Fn(Op, &[u32], &[u32], &[u32]) -> Vec<u32>>(
    q: &mut Tensor,
    k: &mut Tensor,
    position: usize,
    head_dim: usize,
    theta: Real,
    unit: &F,
)
    requires
        unit::lawful(*unit),
        rotatable(old(q)@, head_dim),
        rotatable(old(k)@, head_dim),
        position + old(q)@.shape[1] <= usize::MAX,
        position + old(k)@.shape[1] <= usize::MAX,
    ensures
        rotated(*unit, old(q)@, from_on(position, old(q)@.shape[1] as nat), theta, Real::Single(UNIT), final(q)@),
        rotated(*unit, old(k)@, from_on(position, old(k)@.shape[1] as nat), theta, Real::Single(UNIT), final(k)@),
{
    apply_rotary_emb_inplace_with_cache(q, k, position, head_dim, theta, None, unit);
}

/// Rotates queries and keys in place by the positions from `position` on, stretched as the
/// rotations say.
pub fn apply_rotary_emb_inplace_with_cache<F: Fn(Op, &[u32], &[u32], &[u32]) -> Vec<u32>>(
    q: &mut Tensor,
    k: &mut Tensor,
    position: usize,
    head_dim: usize,
    theta: Real,
    cache: Option<&RoPECache>,
    unit: &F,
)
    requires
        unit::lawful(*unit),
        rotatable(old(q)@, head_dim),
        rotatable(old(k)@, head_dim),
        position + old(q)@.shape[1] <= usize::MAX,
        position + old(k)@.shape[1] <= usize::MAX,
        reaches(cache, head_dim, theta, position + old(q)@.shape[1]),
        reaches(cache, head_dim, theta, position + old(k)@.shape[1]),
    ensures
        rotated(*unit, old(q)@, from_on(position, old(q)@.shape[1] as nat), theta, stretch(cache, head_dim, theta), final(q)@),
        rotated(*unit, old(k)@, from_on(position, old(k)@.shape[1] as nat), theta, stretch(cache, head_dim, theta), final(k)@),
{
    *q = apply_rotary_emb_with_cache(q, position, head_dim, theta, cache, unit);
    *k = apply_rotary_emb_with_cache(k, position, head_dim, theta, cache, unit);
}

/// Rotates the rows of all heads in place, each column by its own position.
pub fn apply_rotary_emb_batch<F: Fn(Op, &[u32], &[u32], &[u32]) -> Vec<u32>>(
    x: &mut Tensor,
    positions: &[usize],
    head_dim: usize,
    theta: Real,
    cache: Option<&RoPECache>,
    unit: &F,
)
    requires
        unit::lawful(*unit),
        rotatable(old(x)@, head_dim),
        positions@.len() == old(x)@.shape[1],
        forall|i: int| 0 <= i < positions@.len() ==> reaches(cache, head_dim, theta, #[trigger] positions@[i] + 1),
    ensures
        rotated(*unit, old(x)@, positions@, theta, stretch(cache, head_dim, theta), final(x)@),
{
    *x = rotate(x, positions, head_dim, theta, read_stretch(cache, head_dim, theta), unit);
}

} // verus!
