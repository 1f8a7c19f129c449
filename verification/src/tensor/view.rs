//! Strided views of tensors.
use super::shape;
use super::tensor::Tensor;
use vstd::prelude::*;

verus! {

/// A window on a tensor: element positions are an offset plus one stride per dimension.
pub struct TensorView<'a> {
    tensor: &'a Tensor,
    offset: usize,
    shape: Vec<usize>,
    strides: Vec<usize>,
}

/// The sum of the coordinates of an index, each times its stride; what has no partner is left out.
pub open spec fn strided(index: Seq<usize>, strides: Seq<usize>, n: int) -> int
    decreases n,
{
    if n <= 0 {
        0
    } else {
        strided(index, strides, n - 1) + index[n - 1] * strides[n - 1]
    }
}

/// The coordinates of element number `idx` when the first dimension runs fastest, summed with
/// their strides from dimension `from` on.
pub open spec fn unrolled(idx: int, dims: Seq<usize>, strides: Seq<usize>, from: int) -> int
    decreases dims.len() - from,
{
    if from < 0 || from >= dims.len() {
        0
    } else {
        (idx % (dims[from] as int)) * strides[from] + unrolled(idx / (dims[from] as int), dims, strides, from + 1)
    }
}

/// The shorter of two lengths.
pub open spec fn shorter(a: nat, b: nat) -> int {
    if a < b {
        a as int
    } else {
        b as int
    }
}

proof fn strided_grows(index: Seq<usize>, strides: Seq<usize>, m: int, n: int)
    requires
        0 <= m <= n,
    ensures
        0 <= strided(index, strides, m) <= strided(index, strides, n),
    decreases n,
{
    if n > 0 {
        assert(0 <= index[n - 1] * strides[n - 1]) by (nonlinear_arith);
        if m < n {
            strided_grows(index, strides, m, n - 1);
        } else {
            strided_grows(index, strides, m - 1, n - 1);
        }
    }
}

proof fn unrolled_nonnegative(idx: int, dims: Seq<usize>, strides: Seq<usize>, from: int)
    requires
        0 <= idx,
        0 <= from,
        forall|i: int| 0 <= i < dims.len() ==> dims[i] > 0,
    ensures
        0 <= unrolled(idx, dims, strides, from),
    decreases dims.len() - from,
{
    if from < dims.len() {
        let d = dims[from] as int;
        assert(d > 0);
        vstd::arithmetic::div_mod::lemma_div_pos_is_pos(idx, d);
        assert(0 <= (idx % d) * strides[from]) by (nonlinear_arith)
            requires
                0 <= idx % d,
        ;
        unrolled_nonnegative(idx / d, dims, strides, from + 1);
    }
}

impl<'a> TensorView<'a> {
    /// The tensor that is looked at.
    pub closed spec fn source(self) -> Tensor {
        *self.tensor
    }

    /// The position of the view's first element.
    pub closed spec fn start(self) -> usize {
        self.offset
    }

    /// The dimensions of the view.
    pub closed spec fn dims(self) -> Seq<usize> {
        self.shape@
    }

    /// The steps between neighbours in each dimension.
    pub closed spec fn steps(self) -> Seq<usize> {
        self.strides@
    }

    /// A view with the given offset, dimensions and strides.
    pub fn new(tensor: &'a Tensor, offset: usize, shape: Vec<usize>, strides: Vec<usize>) -> (r: Self)
        ensures
            r.source() == *tensor,
            r.start() == offset,
            r.dims() == shape@,
            r.steps() == strides@,
    {
        TensorView { tensor, offset, shape, strides }
    }

    /// The dimensions of the view.
    pub fn shape(&self) -> (r: &[usize])
        ensures
            r@ == self.dims(),
    {
        self.shape.as_slice()
    }

    /// The number of elements of the view.
    pub fn num_elements(&self) -> (r: usize)
        requires
            shape::product(self.dims()) <= usize::MAX,
        ensures
            r == shape::product(self.dims()),
    {
        shape::count(self.shape.as_slice())
    }

    fn compute_index(&self, indices: &[usize]) -> (r: usize)
        requires
            strided(indices@, self.steps(), shorter(indices@.len(), self.steps().len())) <= usize::MAX,
        ensures
            r == strided(indices@, self.steps(), shorter(indices@.len(), self.steps().len())),
    {
        let n: usize = if indices.len() < self.strides.len() { indices.len() } else { self.strides.len() };
        let mut sum: usize = 0;
        let mut i: usize = 0;
        while i < n
            invariant
                i <= n,
                n == shorter(indices@.len(), self.steps().len()),
                strided(indices@, self.steps(), n as int) <= usize::MAX,
                sum == strided(indices@, self.steps(), i as int),
            decreases n - i,
        {
            proof {
                strided_grows(indices@, self.steps(), i + 1, n as int);
                strided_grows(indices@, self.steps(), 0, i as int);
            }
            sum = sum + indices[i] * self.strides[i];
            i = i + 1;
        }
        sum
    }

    /// The bits of the element at an index.
    pub fn get_f32(&self, indices: &[usize]) -> (r: u32)
        requires
            self.source()@.wf(),
            self.start() + strided(indices@, self.steps(), shorter(indices@.len(), self.steps().len())) < self.source()@.count(),
        ensures
            r == self.source()@.lane(
                self.start() + strided(indices@, self.steps(), shorter(indices@.len(), self.steps().len())),
            ),
    {
        proof {
            self.source()@.sizes();
            strided_grows(indices@, self.steps(), 0, shorter(indices@.len(), self.steps().len()));
        }
        let at: usize = self.offset + self.compute_index(indices);
        self.tensor.get_flat_f32(at)
    }

    fn compute_flat_index(&self, idx: usize) -> (r: usize)
        requires
            self.dims().len() <= self.steps().len(),
            forall|i: int| 0 <= i < self.dims().len() ==> self.dims()[i] > 0,
            unrolled(idx as int, self.dims(), self.steps(), 0) <= usize::MAX,
        ensures
            r == unrolled(idx as int, self.dims(), self.steps(), 0),
    {
        let mut sum: usize = 0;
        let mut rest: usize = idx;
        let mut i: usize = 0;
        while i < self.shape.len()
            invariant
                self.dims().len() <= self.steps().len(),
                forall|i: int| 0 <= i < self.dims().len() ==> self.dims()[i] > 0,
                unrolled(idx as int, self.dims(), self.steps(), 0) <= usize::MAX,
                i <= self.dims().len(),
                unrolled(idx as int, self.dims(), self.steps(), 0) == sum + unrolled(rest as int, self.dims(), self.steps(), i as int),
            decreases self.shape.len() - i,
        {
            let dim: usize = self.shape[i];
            let step: usize = self.strides[i];
            assert(self.dims()[i as int] > 0);
            proof {
                vstd::arithmetic::div_mod::lemma_div_pos_is_pos(rest as int, dim as int);
                unrolled_nonnegative(rest as int / (dim as int), self.dims(), self.steps(), i + 1);
            }
            let c: usize = rest % dim;
            assert(0 <= c * step) by (nonlinear_arith);
            sum = sum + c * step;
            rest = rest / dim;
            i = i + 1;
        }
        sum
    }

    /// The bits of element number `idx`, counted with the first dimension running fastest.
    pub fn get_flat_f32(&self, idx: usize) -> (r: u32)
        requires
            self.source()@.wf(),
            self.dims().len() <= self.steps().len(),
            forall|i: int| 0 <= i < self.dims().len() ==> self.dims()[i] > 0,
            self.start() + unrolled(idx as int, self.dims(), self.steps(), 0) < self.source()@.count(),
        ensures
            r == self.source()@.lane(self.start() + unrolled(idx as int, self.dims(), self.steps(), 0)),
    {
        proof {
            self.source()@.sizes();
            unrolled_nonnegative(idx as int, self.dims(), self.steps(), 0);
        }
        let at: usize = self.offset + self.compute_flat_index(idx);
        self.tensor.get_flat_f32(at)
    }

    /// The view with its two dimensions exchanged.
    pub fn transpose_view(&self) -> (r: Self)
        requires
            self.dims().len() == 2,
            self.steps().len() >= 2,
        ensures
            r.source() == self.source(),
            r.start() == self.start(),
            r.dims() == seq![self.dims()[1], self.dims()[0]],
            r.steps() == seq![self.steps()[1], self.steps()[0]],
    {
        let dims: Vec<usize> = vec![self.shape[1], self.shape[0]];
        let steps: Vec<usize> = vec![self.strides[1], self.strides[0]];
        assert(dims@ =~= seq![self.dims()[1], self.dims()[0]]);
        assert(steps@ =~= seq![self.steps()[1], self.steps()[0]]);
        TensorView { tensor: self.tensor, offset: self.offset, shape: dims, strides: steps }
    }
}

impl Tensor {
    /// The transposed matrix as a view, without copying.
    pub fn transpose_view(&self) -> (r: TensorView<'_>)
        requires
            self@.shape.len() == 2,
        ensures
            r.source() == *self,
            r.start() == 0,
            r.dims() == seq![self@.shape[1], self@.shape[0]],
            r.steps() == seq![1usize, self@.shape[1]],
    {
        let rows: usize = self.shape()[0];
        let cols: usize = self.shape()[1];
        let dims: Vec<usize> = vec![cols, rows];
        let steps: Vec<usize> = vec![1, cols];
        assert(dims@ =~= seq![cols, rows]);
        assert(steps@ =~= seq![1usize, cols]);
        TensorView::new(self, 0, dims, steps)
    }
}

/// Looking through the transposed view at column `c`, row `r` reads the element of row `r`,
/// column `c`.
pub proof fn transposed_view_reads_across(index: Seq<usize>, steps: Seq<usize>, r: usize, c: usize, cols: usize)
    requires
        index == seq![c, r],
        steps == seq![1usize, cols],
    ensures
        strided(index, steps, shorter(index.len(), steps.len())) == crate::grid::cell(r as int, c as int, cols as int),
{
    reveal_with_fuel(strided, 3);
    assert(c * 1 == c);
}

} // verus!
