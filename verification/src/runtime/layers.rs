//! Linear maps, norms and embeddings.
use super::config::Real;
use super::gpu::GpuContext;
use super::unit;
use super::unit::Op;
use crate::tensor::rows;
use crate::tensor::shape;
use crate::tensor::tensor;
use crate::tensor::tensor::{Tensor, TensorModel};
use crate::tensor::types::{DType, Device};
use vstd::prelude::*;

verus! {

/// How a weight of one bit per element is to be used.
pub struct BitForm {
    /// The bits of the scales, one for each group of columns.
    pub scales: Vec<u32>,
    /// Whether rows are rounded to eight bits before they meet the weight.
    pub a8: bool,
}

impl View for BitForm {
    type V = (Seq<u32>, bool);

    open spec fn view(&self) -> (Seq<u32>, bool) {
        (self.scales@, self.a8)
    }
}

/// A linear map: the rows of the weight are the rows of the transposed matrix.
pub struct Linear {
    pub weight: Tensor,
    pub bias: Option<Tensor>,
    /// Present where the weight holds signs only.
    pub bits: Option<BitForm>,
}

/// How the rows of a weight meet a row: the operation and the scales.
pub open spec fn meeting(bits: Option<BitForm>) -> (Op, Seq<u32>) {
    match bits {
        None => (Op::Dot, Seq::empty()),
        Some(b) => (Op::BitDot { a8: b.a8 }, b.scales@),
    }
}

/// The inner products of a row with the first `n` rows of a weight.
pub open spec fn dots<F: Fn(Op, &[u32], &[u32], &[u32]) -> Vec<u32>>(unit: F, w: TensorModel, bits: Option<BitForm>, x: Seq<u32>) -> Seq<u32> {
    Seq::new(w.shape[0] as nat, |j: int| unit::value(unit, meeting(bits).0, x, w.chunk(j, x.len() as int), meeting(bits).1)[0])
}

impl Linear {
    /// The bias of row `i`: one row for all, or a row of its own.
    pub open spec fn bias_row(self, i: int) -> Seq<u32> {
        let b = self.bias.unwrap()@;
        if b.shape.len() == 1 {
            b.lanes()
        } else {
            b.row(i)
        }
    }

    /// The image of row `i`.
    pub open spec fn image<F: Fn(Op, &[u32], &[u32], &[u32]) -> Vec<u32>>(self, unit: F, x: Seq<u32>, i: int) -> Seq<u32> {
        let d = dots(unit, self.weight@, self.bits, x);
        match self.bias {
            None => d,
            Some(_) => unit::value(unit, Op::Plus, d, self.bias_row(i), Seq::empty()),
        }
    }

    /// The weight holds signs where it is to be used so, and floats otherwise.
    pub open spec fn typed(self) -> bool {
        self.weight@.dtype == (if self.bits is Some {
            DType::BIT1
        } else {
            DType::F32
        })
    }

    /// The map can be applied to `m` rows of width `k`.
    pub open spec fn accepts(self, m: int, k: int) -> bool {
        &&& self.weight@.wf()
        &&& self.typed()
        &&& self.weight@.shape.len() >= 1
        &&& self.weight@.shape[0] * k <= self.weight@.count()
        &&& match self.bias {
            None => true,
            Some(b) => {
                &&& b@.wf()
                &&& b@.dtype is F32
                &&& b@.shape == seq![self.weight@.shape[0]] || b@.shape == seq![m as usize, self.weight@.shape[0]]
            },
        }
    }

    /// The map takes rows of width `k` to rows of width `n`, all with the same bias.
    pub open spec fn maps(self, k: int, n: int) -> bool {
        &&& self.weight@.wf()
        &&& self.typed()
        &&& self.weight@.shape.len() >= 1
        &&& self.weight@.shape[0] == n
        &&& n * k <= self.weight@.count()
        &&& match self.bias {
            None => true,
            Some(b) => b@.wf() && b@.dtype is F32 && b@.shape == seq![n as usize],
        }
    }

    /// The rows of one matrix are the images of the rows of another.
    pub open spec fn maps_to<F: Fn(Op, &[u32], &[u32], &[u32]) -> Vec<u32>>(self, unit: F, input: TensorModel, t: TensorModel) -> bool {
        &&& t.wf()
        &&& t.shape == seq![input.shape[0], self.weight@.shape[0]]
        &&& t.dtype is F32
        &&& t.device == Device::Cpu
        &&& forall|i: int| 0 <= i < input.shape[0] ==> #[trigger] t.chunk(i, self.weight@.shape[0] as int) == self.image(
            unit,
            input.chunk(i, input.shape[1] as int),
            i,
        )
    }

    /// Where all rows have the same bias, a row is mapped among others as it is by itself.
    pub proof fn row_is_mapped_alone<F: Fn(Op, &[u32], &[u32], &[u32]) -> Vec<u32>>(
        self,
        unit: F,
        input: TensorModel,
        t: TensorModel,
        i: int,
        lone: TensorModel,
        s: TensorModel,
    )
        requires
            input.shape.len() == 2,
            0 <= i < input.shape[0],
            self.maps(input.shape[1] as int, self.weight@.shape[0] as int),
            self.maps_to(unit, input, t),
            lone.shape == seq![1usize, input.shape[1]],
            lone.chunk(0, input.shape[1] as int) == input.chunk(i, input.shape[1] as int),
            self.maps_to(unit, lone, s),
        ensures
            t.chunk(i, self.weight@.shape[0] as int) == s.chunk(0, self.weight@.shape[0] as int),
    {
        self.image_is_sole(unit, input.chunk(i, input.shape[1] as int), i, input.shape[1] as int, self.weight@.shape[0] as int);
    }

    /// The image of a row where all rows have the same bias.
    pub open spec fn sole_image<F: Fn(Op, &[u32], &[u32], &[u32]) -> Vec<u32>>(self, unit: F, x: Seq<u32>) -> Seq<u32> {
        self.image(unit, x, 0)
    }

    /// Where all rows have the same bias, the image does not depend on the row's number.
    pub proof fn image_is_sole<F: Fn(Op, &[u32], &[u32], &[u32]) -> Vec<u32>>(self, unit: F, x: Seq<u32>, i: int, k: int, n: int)
        requires
            self.maps(k, n),
        ensures
            self.image(unit, x, i) == self.sole_image(unit, x),
    {
    }

    /// A linear map with a weight and perhaps a bias.
    pub fn new(weight: Tensor, bias: Option<Tensor>) -> (r: Linear)
        ensures
            r.weight == weight,
            r.bias == bias,
            r.bits is None,
    {
        Linear { weight, bias, bits: None }
    }

    /// A linear map without bias from the bits of its weight.
    pub fn from_f32(weight_data: &[u32], weight_shape: &[usize]) -> (r: Linear)
        requires
            weight_data@.len() == shape::product(weight_shape@),
            tensor::storable(weight_shape@, DType::F32),
        ensures
            r.weight@.wf(),
            r.weight@.shape == weight_shape@,
            r.weight@.dtype is F32,
            r.weight@.lanes() == weight_data@,
            r.bias is None,
            r.bits is None,
    {
        Linear { weight: Tensor::from_slice(weight_data, weight_shape), bias: None, bits: None }
    }

    /// Maps each row of a matrix.
    pub fn forward<F: Fn(Op, &[u32], &[u32], &[u32]) -> Vec<u32>>(&self, input: &Tensor, unit: &F) -> (t: Tensor)
        requires
            unit::lawful(*unit),
            input@.wf(),
            input@.dtype is F32,
            input@.shape.len() == 2,
            self.accepts(input@.shape[0] as int, input@.shape[1] as int),
            tensor::storable(seq![input@.shape[0], self.weight@.shape[0]], DType::F32),
        ensures
            self.maps_to(*unit, input@, t@),
    {
        self.forward_gpu(input, None, unit)
    }

    /// Maps each row of a matrix. With or without a GPU the rows are mapped here.
    pub fn forward_gpu<F: Fn(Op, &[u32], &[u32], &[u32]) -> Vec<u32>>(
        &self,
        input: &Tensor,
        _gpu: Option<&GpuContext>,
        unit: &F,
    ) -> (t: Tensor)
        requires
            unit::lawful(*unit),
            input@.wf(),
            input@.dtype is F32,
            input@.shape.len() == 2,
            self.accepts(input@.shape[0] as int, input@.shape[1] as int),
            tensor::storable(seq![input@.shape[0], self.weight@.shape[0]], DType::F32),
        ensures
            self.maps_to(*unit, input@, t@),
    {
        let m: usize = input.shape()[0];
        let k: usize = input.shape()[1];
        let n: usize = self.weight.shape()[0];
        proof {
            assert(input@.shape =~= seq![m, k]);
            shape::product_two(m, k);
            input@.sizes();
        }
        let mut flat: Vec<u32> = Vec::new();
        let mut i: usize = 0;
        while i < m
            invariant
                unit::lawful(*unit),
                input@.wf(),
                input@.shape == seq![m, k],
                input@.count() == m * k,
                n == self.weight@.shape[0],
                self.accepts(m as int, k as int),
                i <= m,
                flat@.len() == i * n,
                forall|a: int| 0 <= a < i ==> #[trigger] rows::row_of(flat@, a, n as int) == self.image(*unit, input@.chunk(a, k as int), a),
            decreases m - i,
        {
            proof {
                assert((i + 1) * k <= m * k) by (nonlinear_arith)
                    requires
                        i < m,
                ;
            }
            let x: Vec<u32> = input.chunk_lanes(i, k);
            let row: Vec<u32> = self.map_row(x.as_slice(), i, m, unit);
            proof {
                rows::row_added(flat@, row@, i as int, n as int);
            }
            rows::push_row(&mut flat, row.as_slice());
            i = i + 1;
        }
        Tensor::from_rows(flat.as_slice(), m, n)
    }

    /// The image of one row.
    fn map_row<F: Fn(Op, &[u32], &[u32], &[u32]) -> Vec<u32>>(&self, x: &[u32], i: usize, m: usize, unit: &F) -> (r: Vec<u32>)
        requires
            unit::lawful(*unit),
            i < m,
            self.accepts(m as int, x@.len() as int),
        ensures
            r@ == self.image(*unit, x@, i as int),
            r@.len() == self.weight@.shape[0],
    {
        let k: usize = x.len();
        let n: usize = self.weight.shape()[0];
        let none: Vec<u32> = Vec::new();
        assert(none@ =~= Seq::<u32>::empty());
        let (op, scales): (Op, &[u32]) = match &self.bits {
            None => (Op::Dot, none.as_slice()),
            Some(b) => (Op::BitDot { a8: b.a8 }, b.scales.as_slice()),
        };
        let mut out: Vec<u32> = Vec::new();
        let mut j: usize = 0;
        while j < n
            invariant
                unit::lawful(*unit),
                k == x@.len(),
                n == self.weight@.shape[0],
                self.accepts(m as int, k as int),
                op == meeting(self.bits).0,
                scales@ == meeting(self.bits).1,
                op.width(x@) == 1,
                j <= n,
                out@ == dots(*unit, self.weight@, self.bits, x@).take(j as int),
            decreases n - j,
        {
            proof {
                assert((j + 1) * k <= n * k) by (nonlinear_arith)
                    requires
                        j < n,
                ;
            }
            let w: Vec<u32> = self.weight.chunk_lanes(j, k);
            let d: Vec<u32> = unit::run(unit, op, x, w.as_slice(), scales);
            out.push(d[0]);
            j = j + 1;
            assert(out@ =~= dots(*unit, self.weight@, self.bits, x@).take(j as int));
        }
        assert(out@ =~= dots(*unit, self.weight@, self.bits, x@));
        match &self.bias {
            None => out,
            Some(b) => {
                proof {
                    shape::product_one(n);
                    shape::product_two(m, n);
                    assert((i + 1) * n <= m * n) by (nonlinear_arith)
                        requires
                            i < m,
                    ;
                }
                let row: Vec<u32> = if b.ndim() == 1 { b.all_lanes() } else { b.chunk_lanes(i, n) };
                assert(row@ =~= self.bias_row(i as int));
                unit::run(unit, Op::Plus, out.as_slice(), row.as_slice(), none.as_slice())
            },
        }
    }
}

/// Whether a norm divides by the root mean square or by the deviation from the mean.
#[derive(Clone, Copy, PartialEq, Eq, Debug, Structural)]
pub enum NormKind {
    Rms,
    Layer,
}

/// A normalization of rows.
pub struct RmsNorm {
    pub weight: Tensor,
    pub bias: Option<Tensor>,
    pub eps: Real,
    pub kind: NormKind,
    /// Whether the gain is one plus the weight.
    pub one_centered: bool,
}

impl Clone for RmsNorm {
    fn clone(&self) -> (r: Self)
        ensures
            r.same(*self),
    {
        RmsNorm {
            weight: self.weight.clone(),
            bias: match &self.bias {
                Some(b) => Some(b.clone()),
                None => None,
            },
            eps: self.eps,
            kind: self.kind,
            one_centered: self.one_centered,
        }
    }
}

impl RmsNorm {
    /// The same norm, with tensors that hold the same.
    pub open spec fn same(self, other: RmsNorm) -> bool {
        &&& self.weight@ == other.weight@
        &&& match (self.bias, other.bias) {
            (Some(a), Some(b)) => a@ == b@,
            (None, None) => true,
            _ => false,
        }
        &&& self.eps == other.eps
        &&& self.kind == other.kind
        &&& self.one_centered == other.one_centered
    }

    /// The operation of this norm.
    pub open spec fn op(self) -> Op {
        Op::Norm { layer: self.kind is Layer, centered: self.kind is Rms && self.one_centered, eps: self.eps }
    }

    /// The biases that this norm adds to a row of this width.
    pub open spec fn shift(self, width: int) -> Seq<u32> {
        match (self.kind, self.bias) {
            (NormKind::Layer, Some(b)) => b@.lanes().take(width),
            _ => Seq::empty(),
        }
    }

    /// The row, normalized.
    pub open spec fn image<F: Fn(Op, &[u32], &[u32], &[u32]) -> Vec<u32>>(self, unit: F, x: Seq<u32>) -> Seq<u32> {
        unit::value(unit, self.op(), x, self.weight@.lanes().take(x.len() as int), self.shift(x.len() as int))
    }

    /// The norm can be applied to rows of this width.
    pub open spec fn accepts(self, width: int) -> bool {
        &&& self.weight@.wf()
        &&& self.weight@.dtype is F32
        &&& width <= self.weight@.count()
        &&& (self.kind is Layer && self.bias is Some) ==> {
            &&& self.bias.unwrap()@.wf()
            &&& self.bias.unwrap()@.dtype is F32
            &&& width <= self.bias.unwrap()@.count()
        }
    }

    /// A root-mean-square norm.
    pub fn new(weight: Tensor, eps: Real) -> (r: RmsNorm)
        ensures
            r == (RmsNorm { weight, bias: None, eps, kind: NormKind::Rms, one_centered: false }),
    {
        RmsNorm { weight, bias: None, eps, kind: NormKind::Rms, one_centered: false }
    }

    /// A root-mean-square norm whose gain is one plus the weight.
    pub fn new_one_centered(weight: Tensor, eps: Real) -> (r: RmsNorm)
        ensures
            r == (RmsNorm { weight, bias: None, eps, kind: NormKind::Rms, one_centered: true }),
    {
        RmsNorm { weight, bias: None, eps, kind: NormKind::Rms, one_centered: true }
    }

    /// A layer norm.
    pub fn new_layer(weight: Tensor, bias: Option<Tensor>, eps: Real) -> (r: RmsNorm)
        ensures
            r == (RmsNorm { weight, bias, eps, kind: NormKind::Layer, one_centered: false }),
    {
        RmsNorm { weight, bias, eps, kind: NormKind::Layer, one_centered: false }
    }

    /// A root-mean-square norm from the bits of its weight.
    pub fn from_f32(data: &[u32], dims: &[usize], eps: Real) -> (r: RmsNorm)
        requires
            data@.len() == shape::product(dims@),
            tensor::storable(dims@, DType::F32),
        ensures
            r.weight@.wf(),
            r.weight@.shape == dims@,
            r.weight@.dtype is F32,
            r.weight@.lanes() == data@,
            r.bias is None,
            r.eps == eps,
            r.kind is Rms,
            !r.one_centered,
    {
        RmsNorm { weight: Tensor::from_slice(data, dims), bias: None, eps, kind: NormKind::Rms, one_centered: false }
    }

    /// One row, normalized.
    pub fn norm_row<F: Fn(Op, &[u32], &[u32], &[u32]) -> Vec<u32>>(&self, x: &[u32], unit: &F) -> (r: Vec<u32>)
        requires
            unit::lawful(*unit),
            self.accepts(x@.len() as int),
        ensures
            r@ == self.image(*unit, x@),
            r@.len() == x@.len(),
    {
        let width: usize = x.len();
        let gain: Vec<u32> = first_lanes(&self.weight, width);
        let layer: bool = matches!(self.kind, NormKind::Layer);
        let shift: Vec<u32> = if layer {
            match &self.bias {
                Some(b) => first_lanes(b, width),
                None => Vec::new(),
            }
        } else {
            Vec::new()
        };
        assert(shift@ =~= self.shift(width as int));
        let op: Op = Op::Norm { layer, centered: !layer && self.one_centered, eps: self.eps };
        unit::run(unit, op, x, gain.as_slice(), shift.as_slice())
    }

    /// Normalizes each row along the last dimension.
    pub fn forward<F: Fn(Op, &[u32], &[u32], &[u32]) -> Vec<u32>>(&self, input: &Tensor, unit: &F) -> (t: Tensor)
        requires
            unit::lawful(*unit),
            input@.wf(),
            input@.dtype is F32,
            input@.shape.len() >= 1,
            input@.shape.last() > 0,
            self.accepts(input@.shape.last() as int),
        ensures
            t@.wf(),
            t@.shape == input@.shape,
            t@.dtype is F32,
            t@.device == Device::Cpu,
            forall|i: int| 0 <= i < input@.count() / (input@.shape.last() as nat) ==> #[trigger] t@.chunk(i, input@.shape.last() as int)
                == self.image(*unit, input@.chunk(i, input@.shape.last() as int)),
    {
        let n: usize = input.num_elements();
        let hidden: usize = input.shape()[input.ndim() - 1];
        let count: usize = n / hidden;
        proof {
            let outer = shape::product(input@.shape.drop_last());
            assert(n == outer * hidden);
            vstd::arithmetic::div_mod::lemma_div_by_multiple(outer as int, hidden as int);
            assert(count == outer);
        }
        let mut flat: Vec<u32> = Vec::new();
        let mut i: usize = 0;
        while i < count
            invariant
                unit::lawful(*unit),
                input@.wf(),
                n == input@.count(),
                n == count * hidden,
                self.accepts(hidden as int),
                i <= count,
                flat@.len() == i * hidden,
                forall|a: int| 0 <= a < i ==> #[trigger] rows::row_of(flat@, a, hidden as int) == self.image(*unit, input@.chunk(a, hidden as int)),
            decreases count - i,
        {
            proof {
                assert((i + 1) * hidden <= count * hidden) by (nonlinear_arith)
                    requires
                        i < count,
                ;
            }
            let x: Vec<u32> = input.chunk_lanes(i, hidden);
            let row: Vec<u32> = self.norm_row(x.as_slice(), unit);
            proof {
                rows::row_added(flat@, row@, i as int, hidden as int);
            }
            rows::push_row(&mut flat, row.as_slice());
            i = i + 1;
        }
        let t: Tensor = Tensor::from_slice(flat.as_slice(), input.shape());
        assert forall|a: int| 0 <= a < count implies #[trigger] t@.chunk(a, hidden as int) == self.image(*unit, input@.chunk(a, hidden as int)) by {
            rows::chunk_is_row(t@, a, count as int, hidden as int);
            assert(rows::row_of(flat@, a, hidden as int) == self.image(*unit, input@.chunk(a, hidden as int)));
        }
        t
    }
}

/// The first elements of a tensor.
pub fn first_lanes(t: &Tensor, n: usize) -> (r: Vec<u32>)
    requires
        t@.wf(),
        n <= t@.count(),
    ensures
        r@ == t@.lanes().take(n as int),
{
    assert((0 + 1) * n == n) by (nonlinear_arith);
    let r: Vec<u32> = t.chunk_lanes(0, n);
    assert(r@ =~= t@.lanes().take(n as int));
    r
}

/// A table of rows, one for each token.
pub struct Embedding {
    pub weight: Tensor,
    pub vocab_size: usize,
    pub embed_dim: usize,
}

impl Embedding {
    /// A table with this many rows of this width.
    pub fn new(weight: Tensor, vocab_size: usize, embed_dim: usize) -> (r: Embedding)
        ensures
            r == (Embedding { weight, vocab_size, embed_dim }),
    {
        Embedding { weight, vocab_size, embed_dim }
    }

    /// A table from the bits of its elements.
    pub fn from_f32(data: &[u32], vocab_size: usize, embed_dim: usize) -> (r: Embedding)
        requires
            data@.len() == vocab_size * embed_dim,
            tensor::storable(seq![vocab_size, embed_dim], DType::F32),
        ensures
            r.weight@.wf(),
            r.weight@.shape == seq![vocab_size, embed_dim],
            r.weight@.dtype is F32,
            r.weight@.lanes() == data@,
            r.vocab_size == vocab_size,
            r.embed_dim == embed_dim,
    {
        Embedding { weight: Tensor::from_rows(data, vocab_size, embed_dim), vocab_size, embed_dim }
    }

    /// The table has all its rows.
    pub open spec fn wf(self) -> bool {
        &&& self.weight@.wf()
        &&& self.vocab_size * self.embed_dim <= self.weight@.count()
    }

    /// The row of a token.
    pub open spec fn row(self, token: u32) -> Seq<u32> {
        self.weight@.chunk(token as int, self.embed_dim as int)
    }

    /// The rows of the tokens, one below the other; bits of the table count as floats.
    pub fn forward(&self, token_ids: &[u32]) -> (t: Tensor)
        requires
            self.wf(),
            forall|i: int| 0 <= i < token_ids@.len() ==> (#[trigger] token_ids@[i]) < self.vocab_size,
            tensor::storable(seq![token_ids@.len() as usize, self.embed_dim], DType::F32),
        ensures
            t@.wf(),
            t@.shape == seq![token_ids@.len() as usize, self.embed_dim],
            t@.dtype is F32,
            t@.device == Device::Cpu,
            forall|i: int| 0 <= i < token_ids@.len() ==> #[trigger] t@.chunk(i, self.embed_dim as int) == self.row(token_ids@[i]),
    {
        let seq_len: usize = token_ids.len();
        let dim: usize = self.embed_dim;
        let mut flat: Vec<u32> = Vec::new();
        let mut i: usize = 0;
        while i < seq_len
            invariant
                self.wf(),
                seq_len == token_ids@.len(),
                dim == self.embed_dim,
                forall|i: int| 0 <= i < token_ids@.len() ==> (#[trigger] token_ids@[i]) < self.vocab_size,
                i <= seq_len,
                flat@.len() == i * dim,
                forall|a: int| 0 <= a < i ==> #[trigger] rows::row_of(flat@, a, dim as int) == self.row(token_ids@[a]),
            decreases seq_len - i,
        {
            let id: usize = token_ids[i] as usize;
            proof {
                assert(token_ids@[i as int] < self.vocab_size);
                assert((id + 1) * dim <= self.vocab_size * dim) by (nonlinear_arith)
                    requires
                        id < self.vocab_size,
                ;
            }
            let row: Vec<u32> = self.weight.chunk_lanes(id, dim);
            proof {
                rows::row_added(flat@, row@, i as int, dim as int);
            }
            rows::push_row(&mut flat, row.as_slice());
            i = i + 1;
        }
        Tensor::from_rows(flat.as_slice(), seq_len, dim)
    }
}

} // verus!
