//! Tensors put together row by row.
use super::shape;
use super::tensor;
use super::tensor::{Tensor, TensorModel};
use super::types::{DType, Device};
use vstd::prelude::*;

verus! {

/// Row `i` of a flat list of rows of one width.
pub open spec fn row_of(flat: Seq<u32>, i: int, width: int) -> Seq<u32> {
    flat.subrange(i * width, i * width + width)
}

/// Adding a row changes no row before it.
pub proof fn row_added(flat: Seq<u32>, row: Seq<u32>, n: int, width: int)
    requires
        0 <= n,
        0 <= width,
        flat.len() == n * width,
        row.len() == width,
    ensures
        (flat + row).len() == (n + 1) * width,
        row_of(flat + row, n, width) == row,
        forall|a: int| 0 <= a < n ==> #[trigger] row_of(flat + row, a, width) == row_of(flat, a, width),
{
    assert((n + 1) * width == n * width + width) by (nonlinear_arith);
    assert(row_of(flat + row, n, width) =~= row);
    assert forall|a: int| 0 <= a < n implies #[trigger] row_of(flat + row, a, width) == row_of(flat, a, width) by {
        assert(0 <= a * width && a * width + width <= n * width) by (nonlinear_arith)
            requires
                0 <= a < n,
                0 <= width,
        ;
        assert(row_of(flat + row, a, width) =~= row_of(flat, a, width));
    }
}

/// The chunks of a float tensor are the rows of its elements.
pub proof fn chunk_is_row(t: TensorModel, i: int, rows: int, width: int)
    requires
        0 <= i < rows,
        0 <= width,
        rows * width <= t.count(),
    ensures
        t.chunk(i, width) == row_of(t.lanes(), i, width),
{
    assert(0 <= i * width && i * width + width <= rows * width) by (nonlinear_arith)
        requires
            0 <= i < rows,
            0 <= width,
    ;
    assert(t.chunk(i, width) =~= row_of(t.lanes(), i, width));
}

impl Tensor {
    /// The bits of elements `i * width` up to `(i + 1) * width`.
    pub fn chunk_lanes(&self, i: usize, width: usize) -> (r: Vec<u32>)
        requires
            self@.wf(),
            (i + 1) * width <= self@.count(),
        ensures
            r@ == self@.chunk(i as int, width as int),
            r@.len() == width,
    {
        proof {
            self@.sizes();
            assert((i + 1) * width == i * width + width) by (nonlinear_arith);
            assert(0 <= i * width) by (nonlinear_arith);
        }
        let base: usize = i * width;
        let mut out: Vec<u32> = Vec::new();
        let mut c: usize = 0;
        while c < width
            invariant
                self@.wf(),
                base == i * width,
                base + width <= self@.count(),
                self@.count() <= usize::MAX,
                c <= width,
                out@ == self@.chunk(i as int, width as int).take(c as int),
            decreases width - c,
        {
            out.push(self.get_flat_f32(base + c));
            c = c + 1;
            assert(out@ =~= self@.chunk(i as int, width as int).take(c as int));
        }
        assert(out@ =~= self@.chunk(i as int, width as int));
        out
    }

    /// Replaces elements `i * width` up to `(i + 1) * width` of a float tensor.
    pub fn set_chunk(&mut self, i: usize, width: usize, row: &[u32])
        requires
            old(self)@.wf(),
            old(self)@.dtype is F32,
            row@.len() == width,
            (i + 1) * width <= old(self)@.count(),
        ensures
            final(self)@.wf(),
            final(self)@.shape == old(self)@.shape,
            final(self)@.dtype == old(self)@.dtype,
            final(self)@.device == old(self)@.device,
            final(self)@.chunk(i as int, width as int) == row@,
            forall|j: int| 0 <= j && j != i && (j + 1) * width <= old(self)@.count()
                ==> #[trigger] final(self)@.chunk(j, width as int) == old(self)@.chunk(j, width as int),
    {
        proof {
            self@.sizes();
            assert((i + 1) * width == i * width + width) by (nonlinear_arith);
            assert(0 <= i * width) by (nonlinear_arith);
        }
        let base: usize = i * width;
        let ghost before = self@.lanes();
        let mut c: usize = 0;
        while c < width
            invariant
                self@.wf(),
                self@.shape == old(self)@.shape,
                self@.dtype == old(self)@.dtype,
                self@.device == old(self)@.device,
                self@.dtype is F32,
                row@.len() == width,
                base == i * width,
                base + width <= self@.count(),
                self@.count() <= usize::MAX,
                before == old(self)@.lanes(),
                c <= width,
                self@.lanes().len() == before.len(),
                forall|p: int| 0 <= p < before.len() ==> #[trigger] self@.lanes()[p] == (if base <= p < base + c { row@[p - base] } else { before[p] }),
            decreases width - c,
        {
            self.set_flat_f32(base + c, row[c]);
            c = c + 1;
        }
        proof {
            assert forall|k: int| 0 <= k < width implies self@.chunk(i as int, width as int)[k] == row@[k] by {
                assert(self@.lanes()[base + k] == row@[k]);
            }
            assert(self@.chunk(i as int, width as int) =~= row@);
            assert forall|j: int| 0 <= j && j != i && (j + 1) * width <= old(self)@.count() implies #[trigger] self@.chunk(j, width as int)
                == old(self)@.chunk(j, width as int) by {
                assert forall|k: int| 0 <= k < width implies self@.chunk(j, width as int)[k] == old(self)@.chunk(j, width as int)[k] by {
                    assert((j + 1) * width == j * width + width && 0 <= j * width) by (nonlinear_arith)
                        requires
                            0 <= j,
                    ;
                    assert(j < i ==> j * width + width <= i * width) by (nonlinear_arith);
                    assert(j > i ==> i * width + width <= j * width) by (nonlinear_arith);
                    assert(self@.lanes()[j * width + k] == before[j * width + k]);
                }
                assert(self@.chunk(j, width as int) =~= old(self)@.chunk(j, width as int));
            }
        }
    }

    /// A float matrix from the elements of its rows.
    pub fn from_rows(flat: &[u32], rows: usize, width: usize) -> (t: Tensor)
        requires
            flat@.len() == rows * width,
            tensor::storable(seq![rows, width], DType::F32),
        ensures
            t@.wf(),
            t@.shape == seq![rows, width],
            t@.dtype is F32,
            t@.device == Device::Cpu,
            t@.lanes() == flat@,
            forall|i: int| 0 <= i < rows ==> #[trigger] t@.chunk(i, width as int) == row_of(flat@, i, width as int),
    {
        let dims: Vec<usize> = vec![rows, width];
        proof {
            assert(dims@ =~= seq![rows, width]);
            shape::product_two(rows, width);
        }
        let t: Tensor = Tensor::from_slice(flat, dims.as_slice());
        assert forall|i: int| 0 <= i < rows implies #[trigger] t@.chunk(i, width as int) == row_of(flat@, i, width as int) by {
            chunk_is_row(t@, i, rows as int, width as int);
        }
        t
    }
}

/// Adds the elements of a row to a list.
pub fn push_row(out: &mut Vec<u32>, row: &[u32])
    ensures
        final(out)@ == old(out)@ + row@,
{
    out.extend_from_slice(row);
    assert(out@ =~= old(out)@ + row@);
}

} // verus!
