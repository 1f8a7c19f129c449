//! Rows of attention heads: taking matrices apart into heads and putting them together again.
use super::config::Real;
use super::layers::RmsNorm;
use super::unit;
use super::unit::Op;
use crate::grid;
use crate::tensor::rows;
use crate::tensor::shape;
use crate::tensor::tensor;
use crate::tensor::tensor::{Tensor, TensorModel};
use crate::tensor::types::{DType, Device};
use vstd::prelude::*;

verus! {

/// The elements of `len` rows from row `first` on, one row after the other.
pub open spec fn span(t: TensorModel, first: int, len: int, width: int) -> Seq<u32> {
    t.lanes().subrange(first * width, (first + len) * width)
}

/// Reads the elements of `len` rows from row `first` on.
pub fn span_lanes(t: &Tensor, first: usize, len: usize, width: usize) -> (r: Vec<u32>)
    requires
        t@.wf(),
        (first + len) * width <= t@.count(),
    ensures
        r@ == span(t@, first as int, len as int, width as int),
        r@.len() == len * width,
{
    proof {
        t@.sizes();
        assert((first + len) * width == first * width + len * width && 0 <= first * width && 0 <= len * width) by (nonlinear_arith);
    }
    let base: usize = first * width;
    let total: usize = len * width;
    let mut out: Vec<u32> = Vec::new();
    let mut c: usize = 0;
    while c < total
        invariant
            t@.wf(),
            base + total <= t@.count(),
            t@.count() <= usize::MAX,
            c <= total,
            out@ == t@.lanes().subrange(base as int, base + c),
        decreases total - c,
    {
        out.push(t.get_flat_f32(base + c));
        c = c + 1;
        assert(out@ =~= t@.lanes().subrange(base as int, base + c));
    }
    out
}

/// The chunks of an `a` by `b` grid, column by column.
fn swap_chunks(src: &Tensor, a: usize, b: usize, width: usize) -> (flat: Vec<u32>)
    requires
        src@.wf(),
        a * b * width <= src@.count(),
        a * b <= usize::MAX,
    ensures
        flat@.len() == b * a * width,
        forall|r: int, c: int| 0 <= r < a && 0 <= c < b ==> #[trigger] rows::row_of(flat@, grid::cell(c, r, a as int), width as int)
            == src@.chunk(grid::cell(r, c, b as int), width as int),
{
    proof {
        assert(a * b == b * a) by (nonlinear_arith);
    }
    let total: usize = a * b;
    let mut flat: Vec<u32> = Vec::new();
    let mut n: usize = 0;
    while n < total
        invariant
            src@.wf(),
            total == a * b,
            total == b * a,
            a * b * width <= src@.count(),
            n <= total,
            flat@.len() == n * width,
            forall|m: int| 0 <= m < n ==> #[trigger] rows::row_of(flat@, m, width as int) == src@.chunk(
                grid::cell(m % (a as int), m / (a as int), b as int),
                width as int,
            ),
        decreases total - n,
    {
        proof {
            grid::cell_onto(n as int, b as int, a as int);
            grid::cell_inside((n as int) % (a as int), (n as int) / (a as int), a as int, b as int);
        }
        let r: usize = n % a;
        let c: usize = n / a;
        proof {
            let at = grid::cell(r as int, c as int, b as int);
            assert((at + 1) * width <= a * b * width) by (nonlinear_arith)
                requires
                    0 <= at < a * b,
            ;
            assert(0 <= r * b) by (nonlinear_arith);
        }
        let row: Vec<u32> = src.chunk_lanes(r * b + c, width);
        proof {
            rows::row_added(flat@, row@, n as int, width as int);
        }
        rows::push_row(&mut flat, row.as_slice());
        n = n + 1;
    }
    assert forall|r: int, c: int| 0 <= r < a && 0 <= c < b implies #[trigger] rows::row_of(flat@, grid::cell(c, r, a as int), width as int)
        == src@.chunk(grid::cell(r, c, b as int), width as int) by {
        grid::cell_inside(c, r, b as int, a as int);
        grid::cell_unique(c, r, a as int);
    }
    flat
}

/// Row `p` of a matrix, taken apart into heads: head `h` is chunk `h` of the row.
pub proof fn head_of_row(t: TensorModel, p: int, h: int, heads: int, width: int)
    requires
        0 <= p,
        0 <= h < heads,
        0 <= width,
    ensures
        t.chunk(grid::cell(p, h, heads), width) == rows::row_of(t.chunk(p, heads * width), h, width),
{
    assert(0 <= h * width && h * width + width <= heads * width) by (nonlinear_arith)
        requires
            0 <= h < heads,
            0 <= width,
    ;
    let whole = t.chunk(p, heads * width);
    assert forall|c: int| 0 <= c < width implies t.chunk(grid::cell(p, h, heads), width)[c] == rows::row_of(whole, h, width)[c] by {
        assert((p * heads + h) * width + c == p * (heads * width) + (h * width + c)) by (nonlinear_arith);
    }
    assert(t.chunk(grid::cell(p, h, heads), width) =~= rows::row_of(whole, h, width));
}

/// Rows of heads, head by head.
pub open spec fn by_heads(rowwise: TensorModel, headwise: TensorModel, count: int, heads: int, width: int) -> bool {
    forall|h: int, p: int| 0 <= h < heads && 0 <= p < count ==> #[trigger] headwise.chunk(grid::cell(h, p, count), width)
        == rowwise.chunk(grid::cell(p, h, heads), width)
}

/// Rearranges a matrix whose rows hold all heads of a position into rows of one head each, head
/// by head.
pub fn reshape_for_attention(t: &Tensor, num_heads: usize, head_dim: usize) -> (r: Tensor)
    requires
        t@.wf(),
        t@.dtype is F32,
        t@.shape.len() >= 1,
        t@.shape[0] * num_heads * head_dim <= t@.count(),
        t@.shape[0] * num_heads <= usize::MAX,
        tensor::storable(seq![num_heads, t@.shape[0], head_dim], DType::F32),
    ensures
        r@.wf(),
        r@.shape == seq![num_heads, t@.shape[0], head_dim],
        r@.dtype is F32,
        r@.device == Device::Cpu,
        by_heads(t@, r@, t@.shape[0] as int, num_heads as int, head_dim as int),
{
    let count: usize = t.shape()[0];
    let flat: Vec<u32> = swap_chunks(t, count, num_heads, head_dim);
    let dims: Vec<usize> = vec![num_heads, count, head_dim];
    proof {
        assert(dims@ =~= seq![num_heads, count, head_dim]);
        shape::product_three(num_heads, count, head_dim);
    }
    let r: Tensor = Tensor::from_slice(flat.as_slice(), dims.as_slice());
    assert forall|h: int, p: int| 0 <= h < num_heads && 0 <= p < count implies #[trigger] r@.chunk(grid::cell(h, p, count as int), head_dim as int)
        == t@.chunk(grid::cell(p, h, num_heads as int), head_dim as int) by {
        grid::cell_inside(h, p, num_heads as int, count as int);
        rows::chunk_is_row(r@, grid::cell(h, p, count as int), num_heads * count, head_dim as int);
        assert(rows::row_of(flat@, grid::cell(h, p, count as int), head_dim as int) == t@.chunk(grid::cell(p, h, num_heads as int), head_dim as int));
    }
    r
}

/// Rearranges rows of one head each into a matrix whose rows hold all heads of a position.
pub fn permute_outer_inner(output: &Tensor, outer: usize, inner: usize, dim: usize) -> (r: Tensor)
    requires
        output@.wf(),
        output@.dtype is F32,
        outer * inner * dim <= output@.count(),
        outer * inner <= usize::MAX,
        outer * dim <= usize::MAX,
        tensor::storable(seq![inner, (outer * dim) as usize], DType::F32),
    ensures
        r@.wf(),
        r@.shape == seq![inner, (outer * dim) as usize],
        r@.dtype is F32,
        r@.device == Device::Cpu,
        by_heads(r@, output@, inner as int, outer as int, dim as int),
{
    let hidden: usize = outer * dim;
    let flat: Vec<u32> = swap_chunks(output, outer, inner, dim);
    proof {
        assert(inner * outer * dim == inner * (outer * dim)) by (nonlinear_arith);
    }
    let r: Tensor = Tensor::from_rows(flat.as_slice(), inner, hidden);
    assert forall|h: int, p: int| 0 <= h < outer && 0 <= p < inner implies #[trigger] output@.chunk(grid::cell(h, p, inner as int), dim as int)
        == r@.chunk(grid::cell(p, h, outer as int), dim as int) by {
        grid::cell_inside(p, h, inner as int, outer as int);
        shape::product_two(inner, hidden);
        rows::chunk_is_row(r@, grid::cell(p, h, outer as int), inner * outer, dim as int);
        assert(rows::row_of(flat@, grid::cell(p, h, outer as int), dim as int) == output@.chunk(grid::cell(h, p, inner as int), dim as int));
    }
    r
}

/// Taking rows apart into heads and putting them together again gives the rows back.
pub proof fn heads_round_trip(t: TensorModel, apart: TensorModel, again: TensorModel, count: int, heads: int, width: int)
    requires
        0 <= count,
        0 <= heads,
        0 <= width,
        by_heads(t, apart, count, heads, width),
        by_heads(again, apart, count, heads, width),
    ensures
        forall|p: int| 0 <= p < count ==> #[trigger] again.chunk(p, heads * width) == t.chunk(p, heads * width),
{
    assert forall|p: int| 0 <= p < count implies #[trigger] again.chunk(p, heads * width) == t.chunk(p, heads * width) by {
        let a = again.chunk(p, heads * width);
        let b = t.chunk(p, heads * width);
        assert(0 <= heads * width) by (nonlinear_arith)
            requires
                0 <= heads,
                0 <= width,
        ;
        assert forall|c: int| 0 <= c < heads * width implies a[c] == b[c] by {
            grid::cell_onto(c, heads, width);
            let h = c / width;
            head_of_row(again, p, h, heads, width);
            head_of_row(t, p, h, heads, width);
            assert(apart.chunk(grid::cell(h, p, count), width) == t.chunk(grid::cell(p, h, heads), width));
            assert(0 <= h * width && h * width + width <= heads * width) by (nonlinear_arith)
                requires
                    0 <= h < heads,
                    0 <= width,
            ;
            assert(rows::row_of(a, h, width)[c % width] == a[c]);
            assert(rows::row_of(b, h, width)[c % width] == b[c]);
        }
        assert(a =~= b);
    }
}

/// A head's row as attention takes it: normalized, where there is a norm, and rotated by its
/// position, where positions are rotated in.
pub open spec fn prepared<F: Fn(Op, &[u32], &[u32], &[u32]) -> Vec<u32>>(
    unit: F,
    norm: Option<RmsNorm>,
    rope: Option<(Real, Real)>,
    raw: Seq<u32>,
    head: int,
    position: int,
) -> Seq<u32> {
    let x = match norm {
        Some(n) => unit::value(
            unit,
            Op::HeadNorm { centered: n.one_centered, eps: n.eps },
            raw,
            n.weight@.chunk(head, raw.len() as int),
            Seq::empty(),
        ),
        None => raw,
    };
    match rope {
        Some((theta, factor)) => unit::value(
            unit,
            Op::Rotate { position: position as usize, theta, factor },
            x,
            Seq::empty(),
            Seq::empty(),
        ),
        None => x,
    }
}

/// A norm has a row of weights for each of so many heads.
pub open spec fn norm_covers(norm: Option<RmsNorm>, heads: int, width: int) -> bool {
    match norm {
        Some(n) => n.weight@.wf() && heads * width <= n.weight@.count(),
        None => true,
    }
}

/// Prepares the rows of all heads; the row of column `i` belongs to position `positions[i]`.
pub fn prepare_heads<F: Fn(Op, &[u32], &[u32], &[u32]) -> Vec<u32>>(
    x: &Tensor,
    heads: usize,
    width: usize,
    norm: &Option<RmsNorm>,
    rope: Option<(Real, Real)>,
    positions: &[usize],
    unit: &F,
) -> (r: Tensor)
    requires
        unit::lawful(*unit),
        x@.wf(),
        x@.dtype is F32,
        x@.shape == seq![heads, positions@.len() as usize, width],
        norm_covers(*norm, heads as int, width as int),
        heads * positions@.len() <= usize::MAX,
    ensures
        r@.wf(),
        r@.shape == x@.shape,
        r@.dtype is F32,
        r@.device == Device::Cpu,
        forall|h: int, i: int| 0 <= h < heads && 0 <= i < positions@.len() ==> #[trigger] r@.chunk(
            grid::cell(h, i, positions@.len() as int),
            width as int,
        ) == prepared(*unit, *norm, rope, x@.chunk(grid::cell(h, i, positions@.len() as int), width as int), h, positions@[i] as int),
{
    let count: usize = positions.len();
    proof {
        shape::product_three(heads, count, width);
    }
    let none: Vec<u32> = Vec::new();
    let total: usize = heads * count;
    let mut flat: Vec<u32> = Vec::new();
    let mut n: usize = 0;
    while n < total
        invariant
            unit::lawful(*unit),
            x@.wf(),
            x@.count() == heads * count * width,
            norm_covers(*norm, heads as int, width as int),
            count == positions@.len(),
            total == heads * count,
            none@ == Seq::<u32>::empty(),
            n <= total,
            flat@.len() == n * width,
            forall|m: int| 0 <= m < n ==> #[trigger] rows::row_of(flat@, m, width as int) == prepared(
                *unit,
                *norm,
                rope,
                x@.chunk(m, width as int),
                m / (count as int),
                positions@[m % (count as int)] as int,
            ),
        decreases total - n,
    {
        proof {
            grid::cell_onto(n as int, heads as int, count as int);
            assert((n + 1) * width <= heads * count * width) by (nonlinear_arith)
                requires
                    n < heads * count,
            ;
        }
        let h: usize = n / count;
        let i: usize = n % count;
        let raw: Vec<u32> = x.chunk_lanes(n, width);
        let normed: Vec<u32> = match norm {
            Some(m) => {
                proof {
                    assert((h + 1) * width <= heads * width) by (nonlinear_arith)
                        requires
                            h < heads,
                    ;
                }
                let gain: Vec<u32> = m.weight.chunk_lanes(h, width);
                unit::run(
                    unit,
                    Op::HeadNorm { centered: m.one_centered, eps: m.eps },
                    raw.as_slice(),
                    gain.as_slice(),
                    none.as_slice(),
                )
            },
            None => raw,
        };
        let row: Vec<u32> = match rope {
            Some((theta, factor)) => unit::run(
                unit,
                Op::Rotate { position: positions[i], theta, factor },
                normed.as_slice(),
                none.as_slice(),
                none.as_slice(),
            ),
            None => normed,
        };
        proof {
            rows::row_added(flat@, row@, n as int, width as int);
        }
        rows::push_row(&mut flat, row.as_slice());
        n = n + 1;
    }
    let r: Tensor = Tensor::from_slice(flat.as_slice(), x.shape());
    assert forall|h: int, i: int| 0 <= h < heads && 0 <= i < count implies #[trigger] r@.chunk(grid::cell(h, i, count as int), width as int)
        == prepared(*unit, *norm, rope, x@.chunk(grid::cell(h, i, count as int), width as int), h, positions@[i] as int) by {
        grid::cell_inside(h, i, heads as int, count as int);
        grid::cell_unique(h, i, count as int);
        rows::chunk_is_row(r@, grid::cell(h, i, count as int), heads * count, width as int);
        assert(rows::row_of(flat@, grid::cell(h, i, count as int), width as int) == prepared(
            *unit,
            *norm,
            rope,
            x@.chunk(grid::cell(h, i, count as int), width as int),
            h,
            positions@[i] as int,
        ));
    }
    r
}

/// Lets each query row attend to its own span of key and value rows.
pub fn attend<F: Fn(Op, &[u32], &[u32], &[u32]) -> Vec<u32>>(
    q: &Tensor,
    k: &Tensor,
    v: &Tensor,
    heads: usize,
    count: usize,
    width: usize,
    firsts: &[usize],
    lens: &[usize],
    softcap: Option<Real>,
    unit: &F,
) -> (r: Tensor)
    requires
        unit::lawful(*unit),
        q@.wf(),
        q@.dtype is F32,
        q@.shape == seq![heads, count, width],
        k@.wf(),
        v@.wf(),
        heads * count <= usize::MAX,
        firsts@.len() == heads * count,
        lens@.len() == heads * count,
        forall|n: int| 0 <= n < heads * count ==> (#[trigger] firsts@[n] + lens@[n]) * width <= k@.count(),
        forall|n: int| 0 <= n < heads * count ==> (#[trigger] firsts@[n] + lens@[n]) * width <= v@.count(),
    ensures
        r@.wf(),
        r@.shape == q@.shape,
        r@.dtype is F32,
        r@.device == Device::Cpu,
        forall|n: int| 0 <= n < heads * count ==> #[trigger] r@.chunk(n, width as int) == unit::value(
            *unit,
            Op::Attend { softcap },
            q@.chunk(n, width as int),
            span(k@, firsts@[n] as int, lens@[n] as int, width as int),
            span(v@, firsts@[n] as int, lens@[n] as int, width as int),
        ),
{
    proof {
        shape::product_three(heads, count, width);
    }
    let total: usize = heads * count;
    let mut flat: Vec<u32> = Vec::new();
    let mut n: usize = 0;
    while n < total
        invariant
            unit::lawful(*unit),
            q@.wf(),
            q@.count() == heads * count * width,
            k@.wf(),
            v@.wf(),
            total == heads * count,
            firsts@.len() == total,
            lens@.len() == total,
            forall|n: int| 0 <= n < heads * count ==> (#[trigger] firsts@[n] + lens@[n]) * width <= k@.count(),
            forall|n: int| 0 <= n < heads * count ==> (#[trigger] firsts@[n] + lens@[n]) * width <= v@.count(),
            n <= total,
            flat@.len() == n * width,
            forall|m: int| 0 <= m < n ==> #[trigger] rows::row_of(flat@, m, width as int) == unit::value(
                *unit,
                Op::Attend { softcap },
                q@.chunk(m, width as int),
                span(k@, firsts@[m] as int, lens@[m] as int, width as int),
                span(v@, firsts@[m] as int, lens@[m] as int, width as int),
            ),
        decreases total - n,
    {
        proof {
            assert((n + 1) * width <= heads * count * width) by (nonlinear_arith)
                requires
                    n < heads * count,
            ;
        }
        let query: Vec<u32> = q.chunk_lanes(n, width);
        let keys: Vec<u32> = span_lanes(k, firsts[n], lens[n], width);
        let values: Vec<u32> = span_lanes(v, firsts[n], lens[n], width);
        let row: Vec<u32> = unit::run(unit, Op::Attend { softcap }, query.as_slice(), keys.as_slice(), values.as_slice());
        proof {
            rows::row_added(flat@, row@, n as int, width as int);
        }
        rows::push_row(&mut flat, row.as_slice());
        n = n + 1;
    }
    let r: Tensor = Tensor::from_slice(flat.as_slice(), q.shape());
    assert forall|n: int| 0 <= n < heads * count implies #[trigger] r@.chunk(n, width as int) == unit::value(
        *unit,
        Op::Attend { softcap },
        q@.chunk(n, width as int),
        span(k@, firsts@[n] as int, lens@[n] as int, width as int),
        span(v@, firsts@[n] as int, lens@[n] as int, width as int),
    ) by {
        rows::chunk_is_row(r@, n, heads * count, width as int);
        assert(rows::row_of(flat@, n, width as int) == unit::value(
            *unit,
            Op::Attend { softcap },
            q@.chunk(n, width as int),
            span(k@, firsts@[n] as int, lens@[n] as int, width as int),
            span(v@, firsts@[n] as int, lens@[n] as int, width as int),
        ));
    }
    r
}

} // verus!
