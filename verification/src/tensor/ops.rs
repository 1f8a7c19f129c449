//! Element-wise and matrix operations.
//!
//! The float arithmetic itself is handed in by the caller as a function on bit patterns; what is
//! decided here is which elements meet, where a result goes, and which shapes are refused.
use super::shape;
use super::tensor;
use super::tensor::Tensor;
use super::types::{DType, Device, TensorError};
use crate::grid;
use crate::text;
use vstd::prelude::*;

verus! {

/// Whether two lists of dimensions are the same.
fn same_shape(a: &[usize], b: &[usize]) -> (r: bool)
    ensures
        r == (a@ == b@),
{
    if a.len() != b.len() {
        return false;
    }
    let mut i: usize = 0;
    while i < a.len()
        invariant
            a@.len() == b@.len(),
            i <= a@.len(),
            forall|j: int| 0 <= j < i ==> a@[j] == b@[j],
        decreases a.len() - i,
    {
        if a[i] != b[i] {
            return false;
        }
        i = i + 1;
    }
    assert(a@ =~= b@);
    true
}

/// What an element-wise operation gives: the error text for different shapes, or the operation
/// applied to each pair of elements.
pub open spec fn zipped<F: Fn(u32, u32) -> u32>(
    a: Tensor,
    b: Tensor,
    op: F,
    complaint: Seq<char>,
    r: Result<Tensor, TensorError>,
) -> bool {
    match r {
        Ok(t) => {
            &&& a@.shape == b@.shape
            &&& t@.wf()
            &&& t@.shape == a@.shape
            &&& t@.dtype is F32
            &&& t@.device == Device::Cpu
            &&& forall|i: int| 0 <= i < a@.count() ==> call_ensures(op, (a@.lane(i), b@.lane(i)), #[trigger] t@.lane(i))
        },
        Err(e) => {
            &&& a@.shape != b@.shape
            &&& e is ShapeMismatch
            &&& e->ShapeMismatch_0@ == complaint
        },
    }
}

/// An operation gives the same whichever operand comes first.
pub open spec fn commutes<F: Fn(u32, u32) -> u32>(op: F) -> bool {
    forall|x: u32, y: u32, z: u32, w: u32| #[trigger] call_ensures(op, (x, y), z) && #[trigger] call_ensures(op, (y, x), w) ==> z == w
}

/// Under a commutative operation the operands can be exchanged: both ways give the same elements,
/// or the same error.
pub proof fn operands_exchange<F: Fn(u32, u32) -> u32>(
    a: Tensor,
    b: Tensor,
    op: F,
    complaint: Seq<char>,
    r: Result<Tensor, TensorError>,
    s: Result<Tensor, TensorError>,
)
    requires
        commutes(op),
        zipped(a, b, op, complaint, r),
        zipped(b, a, op, complaint, s),
    ensures
        match (r, s) {
            (Ok(t), Ok(u)) => t@.shape == u@.shape && t@.dtype == u@.dtype && t@.device == u@.device && t@.lanes() == u@.lanes(),
            (Err(e), Err(f)) => e is ShapeMismatch && f is ShapeMismatch && e->ShapeMismatch_0@ == f->ShapeMismatch_0@,
            _ => false,
        },
{
    if let (Ok(t), Ok(u)) = (r, s) {
        assert forall|i: int| 0 <= i < t@.count() implies t@.lanes()[i] == u@.lanes()[i] by {
            assert(call_ensures(op, (a@.lane(i), b@.lane(i)), t@.lane(i)));
            assert(call_ensures(op, (b@.lane(i), a@.lane(i)), u@.lane(i)));
        }
        assert(t@.lanes() =~= u@.lanes());
    }
}

/// Applies an operation to each pair of elements.
fn zip<F: Fn(u32, u32) -> u32>(a: &Tensor, b: &Tensor, op: F, complaint: &str) -> (r: Result<Tensor, TensorError>)
    requires
        a@.wf(),
        b@.wf(),
        a@.shape == b@.shape ==> tensor::storable(a@.shape, DType::F32),
        forall|x: u32, y: u32| call_requires(op, (x, y)),
    ensures
        zipped(*a, *b, op, complaint@, r),
{
    if !same_shape(a.shape(), b.shape()) {
        return Err(TensorError::ShapeMismatch(complaint.to_owned()));
    }
    let n: usize = a.num_elements();
    let mut out: Vec<u32> = Vec::new();
    let mut i: usize = 0;
    while i < n
        invariant
            a@.wf(),
            b@.wf(),
            a@.shape == b@.shape,
            n == a@.count(),
            forall|x: u32, y: u32| call_requires(op, (x, y)),
            i <= n,
            out@.len() == i,
            forall|j: int| 0 <= j < i ==> call_ensures(op, (a@.lane(j), b@.lane(j)), #[trigger] out@[j]),
        decreases n - i,
    {
        let v: u32 = op(a.get_flat_f32(i), b.get_flat_f32(i));
        out.push(v);
        i = i + 1;
    }
    let t: Tensor = Tensor::from_lanes(out.as_slice(), a.shape(), DType::F32);
    assert forall|j: int| 0 <= j < a@.count() implies call_ensures(op, (a@.lane(j), b@.lane(j)), #[trigger] t@.lane(j)) by {
        assert(t@.lane(j) == out@[j]);
    }
    Ok(t)
}

impl Tensor {
    /// The sums of the elements of two tensors of one shape, under the given addition.
    pub fn add<F: Fn(u32, u32) -> u32>(&self, other: &Tensor, plus: F) -> (r: Result<Tensor, TensorError>)
        requires
            self@.wf(),
            other@.wf(),
            self@.shape == other@.shape ==> tensor::storable(self@.shape, DType::F32),
            forall|x: u32, y: u32| call_requires(plus, (x, y)),
        ensures
            zipped(*self, *other, plus, "shape mismatch in add"@, r),
    {
        zip(self, other, plus, "shape mismatch in add")
    }

    /// The differences of the elements, under the given subtraction.
    pub fn sub<F: Fn(u32, u32) -> u32>(&self, other: &Tensor, minus: F) -> (r: Result<Tensor, TensorError>)
        requires
            self@.wf(),
            other@.wf(),
            self@.shape == other@.shape ==> tensor::storable(self@.shape, DType::F32),
            forall|x: u32, y: u32| call_requires(minus, (x, y)),
        ensures
            zipped(*self, *other, minus, "shape mismatch in sub"@, r),
    {
        zip(self, other, minus, "shape mismatch in sub")
    }

    /// The products of the elements, under the given multiplication.
    pub fn mul<F: Fn(u32, u32) -> u32>(&self, other: &Tensor, times: F) -> (r: Result<Tensor, TensorError>)
        requires
            self@.wf(),
            other@.wf(),
            self@.shape == other@.shape ==> tensor::storable(self@.shape, DType::F32),
            forall|x: u32, y: u32| call_requires(times, (x, y)),
        ensures
            zipped(*self, *other, times, "shape mismatch in mul"@, r),
    {
        zip(self, other, times, "shape mismatch in mul")
    }

    /// Adds a tensor of the same shape to a float tensor in place. On a mismatch nothing changes.
    pub fn add_assign<F: Fn(u32, u32) -> u32>(&mut self, other: &Tensor, plus: F) -> (r: Result<(), TensorError>)
        requires
            old(self)@.wf(),
            old(self)@.dtype is F32,
            other@.wf(),
            forall|x: u32, y: u32| call_requires(plus, (x, y)),
        ensures
            final(self)@.wf(),
            final(self)@.shape == old(self)@.shape,
            final(self)@.dtype == old(self)@.dtype,
            final(self)@.device == old(self)@.device,
            match r {
                Ok(_) => {
                    &&& old(self)@.shape == other@.shape
                    &&& forall|i: int| 0 <= i < old(self)@.count() ==> call_ensures(
                        plus,
                        (old(self)@.lane(i), other@.lane(i)),
                        #[trigger] final(self)@.lane(i),
                    )
                },
                Err(e) => {
                    &&& old(self)@.shape != other@.shape
                    &&& *final(self) == *old(self)
                    &&& e is ShapeMismatch
                    &&& e->ShapeMismatch_0@ == "shape mismatch in add"@
                },
            },
    {
        if !same_shape(self.shape(), other.shape()) {
            return Err(TensorError::ShapeMismatch("shape mismatch in add".to_owned()));
        }
        let n: usize = self.num_elements();
        let mut i: usize = 0;
        while i < n
            invariant
                self@.wf(),
                self@.shape == old(self)@.shape,
                self@.dtype == old(self)@.dtype,
                self@.device == old(self)@.device,
                self@.dtype is F32,
                other@.wf(),
                self@.shape == other@.shape,
                n == self@.count(),
                forall|x: u32, y: u32| call_requires(plus, (x, y)),
                i <= n,
                forall|j: int| 0 <= j < i ==> call_ensures(plus, (old(self)@.lane(j), other@.lane(j)), #[trigger] self@.lanes()[j]),
                forall|j: int| i <= j < n ==> #[trigger] self@.lanes()[j] == old(self)@.lane(j),
            decreases n - i,
        {
            assert(self@.lanes()[i as int] == self@.lane(i as int));
            let v: u32 = plus(self.get_flat_f32(i), other.get_flat_f32(i));
            self.set_flat_f32(i, v);
            i = i + 1;
        }
        assert forall|j: int| 0 <= j < n implies call_ensures(plus, (old(self)@.lane(j), other@.lane(j)), #[trigger] self@.lane(j)) by {
            assert(self@.lanes()[j] == self@.lane(j));
        }
        Ok(())
    }

    /// The matrix product: each element of the result is the given inner product of a row of the
    /// left matrix and a column of the right one.
    pub fn dot<K: Fn(&[u32], &[u32]) -> u32>(&self, rhs: &Tensor, inner: K) -> (r: Result<Tensor, TensorError>)
        requires
            self@.wf(),
            rhs@.wf(),
            forall|x: &[u32], y: &[u32]| x@.len() == y@.len() ==> call_requires(inner, (x, y)),
            self@.shape.len() == 2 && rhs@.shape.len() == 2 ==> tensor::storable(seq![self@.shape[0], rhs@.shape[1]], DType::F32),
        ensures
            match r {
                Ok(t) => {
                    &&& self@.shape.len() == 2
                    &&& rhs@.shape.len() == 2
                    &&& self@.shape[1] == rhs@.shape[0]
                    &&& t@.wf()
                    &&& t@.shape == seq![self@.shape[0], rhs@.shape[1]]
                    &&& t@.dtype is F32
                    &&& t@.device == Device::Cpu
                    &&& forall|i: int, j: int| 0 <= i < self@.shape[0] && 0 <= j < rhs@.shape[1] ==> tensor::gives(
                        inner,
                        self@.row(i),
                        rhs@.column(j),
                        #[trigger] t@.lane(grid::cell(i, j, rhs@.shape[1] as int)),
                    )
                },
                Err(e) => {
                    &&& e is ShapeMismatch
                    &&& self@.shape.len() != 2 || rhs@.shape.len() != 2 || self@.shape[1] != rhs@.shape[0]
                    &&& e->ShapeMismatch_0@ == (if self@.shape.len() != 2 || rhs@.shape.len() != 2 {
                        "dot requires 2d matrices"@
                    } else {
                        "dot shape mismatch: "@ + text::bracketed(self@.shape) + " x "@ + text::bracketed(rhs@.shape)
                    })
                },
            },
    {
        if self.ndim() != 2 || rhs.ndim() != 2 {
            return Err(TensorError::ShapeMismatch("dot requires 2d matrices".to_owned()));
        }
        if self.shape()[1] != rhs.shape()[0] {
            let mut msg: String = text::joined("dot shape mismatch: ", text::bracketed_text(self.shape()).as_str());
            msg = text::joined(msg.as_str(), " x ");
            msg = text::joined(msg.as_str(), text::bracketed_text(rhs.shape()).as_str());
            return Err(TensorError::ShapeMismatch(msg));
        }
        let m: usize = self.shape()[0];
        let k: usize = self.shape()[1];
        let n: usize = rhs.shape()[1];
        proof {
            assert(self@.shape =~= seq![m, k]);
            assert(rhs@.shape =~= seq![k, n]);
            shape::product_two(m, k);
            shape::product_two(k, n);
            shape::product_two(m, n);
            self@.sizes();
            rhs@.sizes();
        }
        let mut out: Vec<u32> = Vec::new();
        let mut i: usize = 0;
        while i < m
            invariant
                self@.wf(),
                rhs@.wf(),
                self@.shape == seq![m, k],
                rhs@.shape == seq![k, n],
                self@.count() == m * k,
                rhs@.count() == k * n,
                m * k <= usize::MAX,
                k * n <= usize::MAX,
                forall|x: &[u32], y: &[u32]| x@.len() == y@.len() ==> call_requires(inner, (x, y)),
                i <= m,
                out@.len() == i * n,
                forall|a: int, b: int| 0 <= a < i && 0 <= b < n ==> tensor::gives(
                    inner,
                    self@.row(a),
                    rhs@.column(b),
                    #[trigger] out@[grid::cell(a, b, n as int)],
                ),
            decreases m - i,
        {
            let row: Vec<u32> = strip(self, i, k, m, false);
            assert(row@ =~= self@.row(i as int));
            let mut j: usize = 0;
            while j < n
                invariant
                    self@.wf(),
                    rhs@.wf(),
                    self@.shape == seq![m, k],
                    rhs@.shape == seq![k, n],
                    self@.count() == m * k,
                    rhs@.count() == k * n,
                    m * k <= usize::MAX,
                    k * n <= usize::MAX,
                    forall|x: &[u32], y: &[u32]| x@.len() == y@.len() ==> call_requires(inner, (x, y)),
                    i < m,
                    row@ == self@.row(i as int),
                    row@.len() == k,
                    j <= n,
                    out@.len() == i * n + j,
                    forall|a: int, b: int| 0 <= a < i && 0 <= b < n ==> tensor::gives(
                        inner,
                        self@.row(a),
                        rhs@.column(b),
                        #[trigger] out@[grid::cell(a, b, n as int)],
                    ),
                    forall|b: int| 0 <= b < j ==> tensor::gives(
                        inner,
                        self@.row(i as int),
                        rhs@.column(b),
                        #[trigger] out@[grid::cell(i as int, b, n as int)],
                    ),
                decreases n - j,
            {
                let column: Vec<u32> = strip(rhs, j, k, n, true);
                assert(column@ =~= rhs@.column(j as int));
                let ghost before = out@;
                let v: u32 = inner(row.as_slice(), column.as_slice());
                assert(tensor::gives(inner, self@.row(i as int), rhs@.column(j as int), v));
                out.push(v);
                proof {
                    assert forall|a: int, b: int| 0 <= a < i && 0 <= b < n implies tensor::gives(
                        inner,
                        self@.row(a),
                        rhs@.column(b),
                        #[trigger] out@[grid::cell(a, b, n as int)],
                    ) by {
                        grid::cell_inside(a, b, i as int, n as int);
                        assert(out@[grid::cell(a, b, n as int)] == before[grid::cell(a, b, n as int)]);
                    }
                    assert forall|b: int| 0 <= b < j + 1 implies tensor::gives(
                        inner,
                        self@.row(i as int),
                        rhs@.column(b),
                        #[trigger] out@[grid::cell(i as int, b, n as int)],
                    ) by {
                        if b < j {
                            assert(out@[grid::cell(i as int, b, n as int)] == before[grid::cell(i as int, b, n as int)]);
                        }
                    }
                }
                j = j + 1;
            }
            assert((i + 1) * n == i * n + n) by (nonlinear_arith);
            i = i + 1;
        }
        let dims: Vec<usize> = vec![m, n];
        assert(dims@ =~= seq![m, n]);
        let t: Tensor = Tensor::from_lanes(out.as_slice(), dims.as_slice(), DType::F32);
        assert forall|a: int, b: int| 0 <= a < m && 0 <= b < n implies tensor::gives(
            inner,
            self@.row(a),
            rhs@.column(b),
            #[trigger] t@.lane(grid::cell(a, b, n as int)),
        ) by {
            grid::cell_inside(a, b, m as int, n as int);
            assert(t@.lane(grid::cell(a, b, n as int)) == out@[grid::cell(a, b, n as int)]);
        }
        Ok(t)
    }
}

/// The elements of one row, or of one column, of a matrix: `len` elements of line `at` out of
/// `lines`.
fn strip(t: &Tensor, at: usize, len: usize, lines: usize, down: bool) -> (r: Vec<u32>)
    requires
        t@.wf(),
        at < lines,
        t@.shape == (if down { seq![len, lines] } else { seq![lines, len] }),
    ensures
        r@ == (if down { t@.column(at as int) } else { t@.row(at as int) }),
{
    proof {
        shape::product_two(len, lines);
        shape::product_two(lines, len);
        assert(len * lines == lines * len) by (nonlinear_arith);
        t@.sizes();
    }
    let mut out: Vec<u32> = Vec::new();
    let mut k: usize = 0;
    while k < len
        invariant
            t@.wf(),
            at < lines,
            t@.shape == (if down { seq![len, lines] } else { seq![lines, len] }),
            t@.count() == len * lines,
            t@.count() == lines * len,
            t@.count() <= usize::MAX,
            k <= len,
            out@ == (if down { t@.column(at as int) } else { t@.row(at as int) }).take(k as int),
        decreases len - k,
    {
        let p: usize = if down {
            proof {
                grid::cell_inside(k as int, at as int, len as int, lines as int);
            }
            k * lines + at
        } else {
            proof {
                grid::cell_inside(at as int, k as int, lines as int, len as int);
            }
            at * len + k
        };
        out.push(t.get_flat_f32(p));
        k = k + 1;
        assert(out@ =~= (if down { t@.column(at as int) } else { t@.row(at as int) }).take(k as int));
    }
    assert(out@ =~= (if down { t@.column(at as int) } else { t@.row(at as int) }));
    out
}

} // verus!
