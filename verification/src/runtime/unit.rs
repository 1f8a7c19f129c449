//! The float unit: float arithmetic as a function on bit patterns.
//!
//! Everything around the arithmetic is decided in this crate: which rows meet, in which order,
//! and where the results go. The arithmetic itself is one function that the caller hands in.
use super::config::{Activation, Real};
use vstd::prelude::*;

verus! {

/// An operation on rows of floats.
#[derive(Debug, Clone, Copy, PartialEq, Eq, Structural)]
pub enum Op {
    /// The inner product of two rows, as a row of one.
    Dot,
    /// The inner product of a row with a row of signs, as a row of one. As many equal groups of
    /// columns as there are scales have a scale each; with `a8` the row is rounded to eight bits
    /// first.
    BitDot { a8: bool },
    /// The sums of the elements of two rows.
    Plus,
    /// The differences of the elements of two rows.
    Minus,
    /// The row normalized, with weights and, for a layer norm, biases.
    Norm { layer: bool, centered: bool, eps: Real },
    /// The row of one head normalized, with weights.
    HeadNorm { centered: bool, eps: Real },
    /// The two halves of the row rotated against each other by the angles of a position.
    Rotate { position: usize, theta: Real, factor: Real },
    /// The mean of the value rows, each weighted by how well the query meets its key row. Keys
    /// and values are rows of the query's width one after the other. Scores are limited softly
    /// where there is a limit and it is positive.
    Attend { softcap: Option<Real> },
    /// The activation of a feed-forward block: of gate and up rows, or of an up row alone.
    Gate(Activation),
    /// Each element limited softly, if the limit is positive.
    Softcap { cap: Real },
    /// The probabilities that scores give to each of their places at a temperature.
    Softmax { temperature: u32 },
    /// Each element divided by the sum of all.
    Share,
}

impl Op {
    /// The width of the result.
    pub open spec fn width(self, x: Seq<u32>) -> nat {
        match self {
            Op::Dot => 1,
            Op::BitDot { .. } => 1,
            _ => x.len(),
        }
    }
}

/// The unit may give `r`.
pub open spec fn computes<F: Fn(Op, &[u32], &[u32], &[u32]) -> Vec<u32>>(
    unit: F,
    op: Op,
    x: Seq<u32>,
    y: Seq<u32>,
    z: Seq<u32>,
    r: Seq<u32>,
) -> bool {
    exists|a: &[u32], b: &[u32], c: &[u32], v: Vec<u32>|
        a@ == x && b@ == y && c@ == z && v@ == r && #[trigger] call_ensures(unit, (op, a, b, c), v)
}

/// What the unit gives; zeros where it gives nothing.
pub open spec fn value<F: Fn(Op, &[u32], &[u32], &[u32]) -> Vec<u32>>(
    unit: F,
    op: Op,
    x: Seq<u32>,
    y: Seq<u32>,
    z: Seq<u32>,
) -> Seq<u32> {
    if exists|r: Seq<u32>| #[trigger] computes(unit, op, x, y, z, r) {
        choose|r: Seq<u32>| #[trigger] computes(unit, op, x, y, z, r)
    } else {
        Seq::new(op.width(x), |i: int| 0u32)
    }
}

/// The unit answers every request, and what it gives depends on the request alone and has the
/// right width.
pub open spec fn lawful<F: Fn(Op, &[u32], &[u32], &[u32]) -> Vec<u32>>(unit: F) -> bool {
    &&& forall|op: Op, a: &[u32], b: &[u32], c: &[u32]| #[trigger] call_requires(unit, (op, a, b, c))
    &&& forall|op: Op, x: Seq<u32>, y: Seq<u32>, z: Seq<u32>, r: Seq<u32>, s: Seq<u32>|
        #[trigger] computes(unit, op, x, y, z, r) && #[trigger] computes(unit, op, x, y, z, s) ==> r == s
    &&& forall|op: Op, x: Seq<u32>, y: Seq<u32>, z: Seq<u32>, r: Seq<u32>|
        #[trigger] computes(unit, op, x, y, z, r) ==> r.len() == op.width(x)
}

/// Asks the unit.
pub fn run<F: Fn(Op, &[u32], &[u32], &[u32]) -> Vec<u32>>(unit: &F, op: Op, x: &[u32], y: &[u32], z: &[u32]) -> (r: Vec<u32>)
    requires
        lawful(*unit),
    ensures
        r@ == value(*unit, op, x@, y@, z@),
        r@.len() == op.width(x@),
{
    let r: Vec<u32> = unit(op, x, y, z);
    assert(computes(*unit, op, x@, y@, z@, r@));
    r
}

} // verus!
