//! Transformer layers: attention and feed-forward, each with a norm and a residual.
use super::attention;
use super::attention::Attention;
use super::cache;
use super::cache::KvCache;
use super::config::{Activation, ModelConfig, Real};
use super::layers::{Linear, RmsNorm};
use super::unit;
use super::unit::Op;
use crate::tensor::rows;
use crate::tensor::shape;
use crate::tensor::tensor;
use crate::tensor::tensor::{Tensor, TensorModel};
use crate::tensor::types::{DType, Device};
use vstd::prelude::*;

verus! {

/// One layer.
pub struct TransformerLayer {
    pub attention: Attention,
    pub attn_norm: RmsNorm,
    pub ffn_up: Linear,
    pub ffn_gate: Linear,
    pub ffn_down: Linear,
    pub ffn_norm: RmsNorm,
    /// The norm of the feed-forward output, applied before it is added.
    pub post_ffn_norm: Option<RmsNorm>,
    /// Where it is present, attention and the feed-forward block take a row less its norm in
    /// place of the row normalized.
    pub sub_ln: Option<RmsNorm>,
    pub config: ModelConfig,
}

/// The sum of two rows.
pub open spec fn plus<F: Fn(Op, &[u32], &[u32], &[u32]) -> Vec<u32>>(unit: F, x: Seq<u32>, y: Seq<u32>) -> Seq<u32> {
    unit::value(unit, Op::Plus, x, y, Seq::empty())
}

/// The rows of a matrix, each `k` wide.
pub open spec fn tensor_rows(t: TensorModel, k: int) -> Seq<Seq<u32>> {
    Seq::new(t.shape[0] as nat, |i: int| t.chunk(i, k))
}

/// Applies an operation of two rows to the rows of two matrices, pair by pair.
pub fn pair_rows<F: Fn(Op, &[u32], &[u32], &[u32]) -> Vec<u32>>(op: Op, x: &Tensor, y: &Tensor, unit: &F) -> (t: Tensor)
    requires
        unit::lawful(*unit),
        op !is Dot,
        op !is BitDot,
        x@.wf(),
        x@.dtype is F32,
        x@.shape.len() == 2,
        y@.wf(),
        y@.shape == x@.shape,
    ensures
        t@.wf(),
        t@.shape == x@.shape,
        t@.dtype is F32,
        t@.device == Device::Cpu,
        forall|i: int| 0 <= i < x@.shape[0] ==> #[trigger] t@.chunk(i, x@.shape[1] as int) == unit::value(
            *unit,
            op,
            x@.chunk(i, x@.shape[1] as int),
            y@.chunk(i, x@.shape[1] as int),
            Seq::empty(),
        ),
{
    let m: usize = x.shape()[0];
    let k: usize = x.shape()[1];
    proof {
        assert(x@.shape =~= seq![m, k]);
        shape::product_two(m, k);
        x@.sizes();
    }
    let none: Vec<u32> = Vec::new();
    let mut flat: Vec<u32> = Vec::new();
    let mut i: usize = 0;
    while i < m
        invariant
            unit::lawful(*unit),
            op !is Dot,
            op !is BitDot,
            x@.wf(),
            y@.wf(),
            x@.count() == m * k,
            y@.count() == m * k,
            none@ == Seq::<u32>::empty(),
            i <= m,
            flat@.len() == i * k,
            forall|a: int| 0 <= a < i ==> #[trigger] rows::row_of(flat@, a, k as int) == unit::value(
                *unit,
                op,
                x@.chunk(a, k as int),
                y@.chunk(a, k as int),
                Seq::empty(),
            ),
        decreases m - i,
    {
        proof {
            assert((i + 1) * k <= m * k) by (nonlinear_arith)
                requires
                    i < m,
            ;
        }
        let a: Vec<u32> = x.chunk_lanes(i, k);
        let b: Vec<u32> = y.chunk_lanes(i, k);
        let row: Vec<u32> = unit::run(unit, op, a.as_slice(), b.as_slice(), none.as_slice());
        proof {
            rows::row_added(flat@, row@, i as int, k as int);
        }
        rows::push_row(&mut flat, row.as_slice());
        i = i + 1;
    }
    Tensor::from_rows(flat.as_slice(), m, k)
}

/// Applies an operation of one row to each row of a matrix.
pub fn each_row<F: Fn(Op, &[u32], &[u32], &[u32]) -> Vec<u32>>(op: Op, x: &Tensor, unit: &F) -> (t: Tensor)
    requires
        unit::lawful(*unit),
        op !is Dot,
        op !is BitDot,
        x@.wf(),
        x@.dtype is F32,
        x@.shape.len() == 2,
    ensures
        t@.wf(),
        t@.shape == x@.shape,
        t@.dtype is F32,
        t@.device == Device::Cpu,
        forall|i: int| 0 <= i < x@.shape[0] ==> #[trigger] t@.chunk(i, x@.shape[1] as int) == unit::value(
            *unit,
            op,
            x@.chunk(i, x@.shape[1] as int),
            Seq::empty(),
            Seq::empty(),
        ),
{
    let m: usize = x.shape()[0];
    let k: usize = x.shape()[1];
    proof {
        assert(x@.shape =~= seq![m, k]);
        shape::product_two(m, k);
        x@.sizes();
    }
    let none: Vec<u32> = Vec::new();
    let mut flat: Vec<u32> = Vec::new();
    let mut i: usize = 0;
    while i < m
        invariant
            unit::lawful(*unit),
            op !is Dot,
            op !is BitDot,
            x@.wf(),
            x@.count() == m * k,
            none@ == Seq::<u32>::empty(),
            i <= m,
            flat@.len() == i * k,
            forall|a: int| 0 <= a < i ==> #[trigger] rows::row_of(flat@, a, k as int) == unit::value(
                *unit,
                op,
                x@.chunk(a, k as int),
                Seq::empty(),
                Seq::empty(),
            ),
        decreases m - i,
    {
        proof {
            assert((i + 1) * k <= m * k) by (nonlinear_arith)
                requires
                    i < m,
            ;
        }
        let a: Vec<u32> = x.chunk_lanes(i, k);
        let row: Vec<u32> = unit::run(unit, op, a.as_slice(), none.as_slice(), none.as_slice());
        proof {
            rows::row_added(flat@, row@, i as int, k as int);
        }
        rows::push_row(&mut flat, row.as_slice());
        i = i + 1;
    }
    Tensor::from_rows(flat.as_slice(), m, k)
}

/// The inner row of a feed-forward block.
pub open spec fn activated<F: Fn(Op, &[u32], &[u32], &[u32]) -> Vec<u32>>(
    unit: F,
    activation: Activation,
    up: Linear,
    gate: Linear,
    x: Seq<u32>,
) -> Seq<u32> {
    let op = Op::Gate(activation);
    match activation {
        Activation::Gelu => unit::value(unit, op, up.sole_image(unit, x), Seq::empty(), Seq::empty()),
        _ => unit::value(unit, op, gate.sole_image(unit, x), up.sole_image(unit, x), Seq::empty()),
    }
}

/// The inner rows of a feed-forward block, with the rows that went into them; there are no gate
/// rows where the activation has no gate.
pub fn ffn_record_activations<F: Fn(Op, &[u32], &[u32], &[u32]) -> Vec<u32>>(
    config: &ModelConfig,
    normed2: &Tensor,
    up: &Linear,
    gate: &Linear,
    unit: &F,
) -> (r: (Tensor, Tensor, Option<Tensor>))
    requires
        unit::lawful(*unit),
        normed2@.wf(),
        normed2@.dtype is F32,
        normed2@.shape.len() == 2,
        up.weight@.shape.len() >= 1,
        up.maps(normed2@.shape[1] as int, up.weight@.shape[0] as int),
        config.activation !is Gelu ==> gate.maps(normed2@.shape[1] as int, up.weight@.shape[0] as int),
        tensor::storable(seq![normed2@.shape[0], up.weight@.shape[0]], DType::F32),
    ensures
        r.0@.wf(),
        r.0@.dtype is F32,
        r.0@.shape == seq![normed2@.shape[0], up.weight@.shape[0]],
        r.1@.wf(),
        r.1@.dtype is F32,
        r.1@.shape == seq![normed2@.shape[0], up.weight@.shape[0]],
        r.2 is None <==> config.activation is Gelu,
        r.2 matches Some(g) ==> g@.wf() && g@.dtype is F32 && g@.shape == seq![normed2@.shape[0], up.weight@.shape[0]],
        forall|i: int| 0 <= i < normed2@.shape[0] ==> #[trigger] r.0@.chunk(i, up.weight@.shape[0] as int) == activated(
            *unit,
            config.activation,
            *up,
            *gate,
            normed2@.chunk(i, normed2@.shape[1] as int),
        ),
        forall|i: int| 0 <= i < normed2@.shape[0] ==> #[trigger] r.1@.chunk(i, up.weight@.shape[0] as int) == up.sole_image(
            *unit,
            normed2@.chunk(i, normed2@.shape[1] as int),
        ),
        r.2 matches Some(g) ==> forall|i: int| 0 <= i < normed2@.shape[0] ==> #[trigger] g@.chunk(i, up.weight@.shape[0] as int)
            == gate.sole_image(*unit, normed2@.chunk(i, normed2@.shape[1] as int)),
{
    let op: Op = Op::Gate(config.default_activation());
    let ghost n = up.weight@.shape[0] as int;
    let ghost k = normed2@.shape[1] as int;
    let up_out: Tensor = up.forward(normed2, unit);
    assert forall|i: int| 0 <= i < normed2@.shape[0] implies #[trigger] up_out@.chunk(i, n) == up.sole_image(*unit, normed2@.chunk(i, k)) by {
        up.image_is_sole(*unit, normed2@.chunk(i, k), i, k, n);
    }
    if matches!(config.default_activation(), Activation::Gelu) {
        let inner: Tensor = each_row(op, &up_out, unit);
        (inner, up_out, None)
    } else {
        let gate_out: Tensor = gate.forward(normed2, unit);
        assert forall|i: int| 0 <= i < normed2@.shape[0] implies #[trigger] gate_out@.chunk(i, n) == gate.sole_image(
            *unit,
            normed2@.chunk(i, k),
        ) by {
            gate.image_is_sole(*unit, normed2@.chunk(i, k), i, k, n);
        }
        let inner: Tensor = pair_rows(op, &gate_out, &up_out, unit);
        (inner, up_out, Some(gate_out))
    }
}

impl TransformerLayer {
    /// The width of the inner rows of the feed-forward block.
    pub open spec fn inner(self) -> int {
        self.ffn_up.weight@.shape[0] as int
    }

    /// What a block takes for a row: the row normalized, or the row less its norm.
    pub open spec fn entered<F: Fn(Op, &[u32], &[u32], &[u32]) -> Vec<u32>>(self, unit: F, norm: RmsNorm, x: Seq<u32>) -> Seq<u32> {
        match self.sub_ln {
            None => norm.image(unit, x),
            Some(s) => unit::value(unit, Op::Minus, x, s.image(unit, x), Seq::empty()),
        }
    }

    /// The parts fit rows of width `hidden`.
    pub open spec fn fits(self, hidden: int) -> bool {
        &&& 0 < hidden
        &&& self.attention.fits(hidden)
        &&& self.attention.o_proj.weight@.shape[0] == hidden
        &&& self.attn_norm.accepts(hidden)
        &&& self.ffn_norm.accepts(hidden)
        &&& self.post_ffn_norm matches Some(n) ==> n.accepts(hidden)
        &&& self.sub_ln matches Some(n) ==> n.accepts(hidden)
        &&& self.ffn_up.weight@.shape.len() >= 1
        &&& self.ffn_up.maps(hidden, self.inner())
        &&& self.config.activation !is Gelu ==> self.ffn_gate.maps(hidden, self.inner())
        &&& self.ffn_down.maps(self.inner(), hidden)
    }

    /// The tensors for so many rows can be stored.
    pub open spec fn room(self, count: usize) -> bool {
        &&& self.attention.room(count)
        &&& tensor::storable(seq![count, self.ffn_up.weight@.shape[0]], DType::F32)
    }

    /// The key row of a head at a position.
    pub open spec fn key_row<F: Fn(Op, &[u32], &[u32], &[u32]) -> Vec<u32>>(self, unit: F, factor: Real, x: Seq<u32>, g: int, p: int) -> Seq<u32> {
        self.attention.key(unit, factor, self.entered(unit, self.attn_norm, x), g, p)
    }

    /// The value row of a head.
    pub open spec fn value_row<F: Fn(Op, &[u32], &[u32], &[u32]) -> Vec<u32>>(self, unit: F, x: Seq<u32>, g: int) -> Seq<u32> {
        self.attention.value(unit, self.entered(unit, self.attn_norm, x), g)
    }

    /// What the feed-forward block makes of a row.
    pub open spec fn feed<F: Fn(Op, &[u32], &[u32], &[u32]) -> Vec<u32>>(self, unit: F, x: Seq<u32>) -> Seq<u32> {
        let down = self.ffn_down.sole_image(
            unit,
            activated(unit, self.config.activation, self.ffn_up, self.ffn_gate, self.entered(unit, self.ffn_norm, x)),
        );
        match self.post_ffn_norm {
            Some(n) => n.image(unit, down),
            None => down,
        }
    }

    /// What the layer makes of a row, given what attention made of it.
    pub open spec fn completed<F: Fn(Op, &[u32], &[u32], &[u32]) -> Vec<u32>>(self, unit: F, x: Seq<u32>, attended: Seq<u32>) -> Seq<u32> {
        let h = plus(unit, x, attended);
        plus(unit, h, self.feed(unit, h))
    }

    /// What the layer makes of a row at a position, given the keys and values that it sees.
    pub open spec fn step<F: Fn(Op, &[u32], &[u32], &[u32]) -> Vec<u32>>(
        self,
        unit: F,
        factor: Real,
        x: Seq<u32>,
        position: int,
        keys: Seq<Seq<u32>>,
        values: Seq<Seq<u32>>,
    ) -> Seq<u32> {
        self.completed(unit, x, self.attention.result(unit, factor, self.entered(unit, self.attn_norm, x), position, keys, values))
    }

    /// What the layer makes of a row at a position that sees only itself.
    pub open spec fn lone_step<F: Fn(Op, &[u32], &[u32], &[u32]) -> Vec<u32>>(self, unit: F, factor: Real, x: Seq<u32>, position: int) -> Seq<u32> {
        self.completed(unit, x, self.attention.lone_result(unit, factor, self.entered(unit, self.attn_norm, x), position))
    }

    /// The rows of the input, each normalized.
    pub(crate) fn normed<F: Fn(Op, &[u32], &[u32], &[u32]) -> Vec<u32>>(norm: &RmsNorm, input: &Tensor, unit: &F) -> (t: Tensor)
        requires
            unit::lawful(*unit),
            input@.wf(),
            input@.dtype is F32,
            input@.shape.len() == 2,
            input@.shape[1] > 0,
            norm.accepts(input@.shape[1] as int),
        ensures
            t@.wf(),
            t@.shape == input@.shape,
            t@.dtype is F32,
            forall|i: int| 0 <= i < input@.shape[0] ==> #[trigger] t@.chunk(i, input@.shape[1] as int) == norm.image(
                *unit,
                input@.chunk(i, input@.shape[1] as int),
            ),
    {
        proof {
            let m = input@.shape[0];
            let k = input@.shape[1];
            assert(input@.shape =~= seq![m, k]);
            shape::product_two(m, k);
            vstd::arithmetic::div_mod::lemma_div_by_multiple(m as int, k as int);
        }
        norm.forward(input, unit)
    }

    /// The rows that a block takes for the rows of its input.
    pub(crate) fn enter<F: Fn(Op, &[u32], &[u32], &[u32]) -> Vec<u32>>(&self, norm: &RmsNorm, input: &Tensor, unit: &F) -> (t: Tensor)
        requires
            unit::lawful(*unit),
            input@.wf(),
            input@.dtype is F32,
            input@.shape.len() == 2,
            input@.shape[1] > 0,
            norm.accepts(input@.shape[1] as int),
            self.sub_ln matches Some(n) ==> n.accepts(input@.shape[1] as int),
        ensures
            t@.wf(),
            t@.shape == input@.shape,
            t@.dtype is F32,
            forall|i: int| 0 <= i < input@.shape[0] ==> #[trigger] t@.chunk(i, input@.shape[1] as int) == self.entered(
                *unit,
                *norm,
                input@.chunk(i, input@.shape[1] as int),
            ),
    {
        match &self.sub_ln {
            None => TransformerLayer::normed(norm, input, unit),
            Some(s) => {
                let own: Tensor = TransformerLayer::normed(s, input, unit);
                pair_rows(Op::Minus, input, &own, unit)
            },
        }
    }

    /// Applies the norm of the feed-forward output, if there is one.
    pub(crate) fn post_ffn<F: Fn(Op, &[u32], &[u32], &[u32]) -> Vec<u32>>(&self, ffn_out: Tensor, unit: &F) -> (t: Tensor)
        requires
            unit::lawful(*unit),
            ffn_out@.wf(),
            ffn_out@.dtype is F32,
            ffn_out@.shape.len() == 2,
            ffn_out@.shape[1] > 0,
            self.post_ffn_norm matches Some(n) ==> n.accepts(ffn_out@.shape[1] as int),
        ensures
            t@.wf(),
            t@.shape == ffn_out@.shape,
            t@.dtype is F32,
            forall|i: int| 0 <= i < ffn_out@.shape[0] ==> #[trigger] t@.chunk(i, ffn_out@.shape[1] as int) == (match self.post_ffn_norm {
                Some(n) => n.image(*unit, ffn_out@.chunk(i, ffn_out@.shape[1] as int)),
                None => ffn_out@.chunk(i, ffn_out@.shape[1] as int),
            }),
    {
        match &self.post_ffn_norm {
            Some(n) => TransformerLayer::normed(n, &ffn_out, unit),
            None => ffn_out,
        }
    }

    /// Adds what attention made of the rows, then what the feed-forward block makes of the sums.
    fn complete<F: Fn(Op, &[u32], &[u32], &[u32]) -> Vec<u32>>(&self, input: &Tensor, attended: &Tensor, unit: &F) -> (t: Tensor)
        requires
            unit::lawful(*unit),
            input@.wf(),
            input@.dtype is F32,
            input@.shape.len() == 2,
            self.fits(input@.shape[1] as int),
            self.room(input@.shape[0]),
            attended@.wf(),
            attended@.dtype is F32,
            attended@.shape == input@.shape,
        ensures
            t@.wf(),
            t@.shape == input@.shape,
            t@.dtype is F32,
            t@.device == Device::Cpu,
            forall|i: int| 0 <= i < input@.shape[0] ==> #[trigger] t@.chunk(i, input@.shape[1] as int) == self.completed(
                *unit,
                input@.chunk(i, input@.shape[1] as int),
                attended@.chunk(i, input@.shape[1] as int),
            ),
    {
        let ghost k = input@.shape[1] as int;
        let ghost n = self.inner();
        let h: Tensor = pair_rows(Op::Plus, input, attended, unit);
        let normed2: Tensor = self.enter(&self.ffn_norm, &h, unit);
        let (inner, _, _) = ffn_record_activations(&self.config, &normed2, &self.ffn_up, &self.ffn_gate, unit);
        let down: Tensor = self.ffn_down.forward(&inner, unit);
        assert(down@.shape =~= input@.shape);
        let out: Tensor = self.post_ffn(down, unit);
        let t: Tensor = pair_rows(Op::Plus, &h, &out, unit);
        proof {
            assert forall|i: int| 0 <= i < input@.shape[0] implies #[trigger] t@.chunk(i, k) == self.completed(
                *unit,
                input@.chunk(i, k),
                attended@.chunk(i, k),
            ) by {
                let x = h@.chunk(i, k);
                assert(x == plus(*unit, input@.chunk(i, k), attended@.chunk(i, k)));
                assert(normed2@.chunk(i, k) == self.entered(*unit, self.ffn_norm, x));
                assert(inner@.chunk(i, n) == activated(*unit, self.config.activation, self.ffn_up, self.ffn_gate, normed2@.chunk(i, k)));
                assert(down@.chunk(i, k) == self.ffn_down.image(*unit, inner@.chunk(i, n), i));
                self.ffn_down.image_is_sole(*unit, inner@.chunk(i, n), i, n, k);
                assert(out@.chunk(i, k) == self.feed(*unit, x));
            }
        }
        t
    }

    /// The layer can take the rows, and the cache has room for them at the position.
    pub open spec fn takes(self, input: TensorModel, cache: KvCache, layer: int, slot: int, position: int) -> bool {
        let d = cache.k@[layer]@.shape;
        &&& input.wf()
        &&& input.dtype is F32
        &&& input.shape.len() == 2
        &&& self.fits(input.shape[1] as int)
        &&& self.room(input.shape[0])
        &&& 0 <= layer < cache.k@.len()
        &&& d.len() == 4
        &&& cache.wf(d[1], d[2], d[3])
        &&& d[1] == self.attention.kv()
        &&& d[3] == self.attention.width()
        &&& 0 <= slot < cache.batch
        &&& 0 <= position
        &&& position + input.shape[0] <= d[2]
        &&& cache.batch * d[1] * d[2] <= usize::MAX
        &&& attention::at_least_one(cache.seq_lens@[slot] as int) <= d[2]
    }

    /// The rows that the layer gives, and the cache that it leaves: the keys and values of the
    /// rows are in it, and each row has seen the filled positions up to its own, as far as the
    /// window reaches.
    pub open spec fn gives<F: Fn(Op, &[u32], &[u32], &[u32]) -> Vec<u32>>(
        self,
        unit: F,
        factor: Real,
        input: TensorModel,
        before: KvCache,
        after: KvCache,
        layer: int,
        slot: int,
        position: int,
        t: TensorModel,
    ) -> bool {
        let d = before.k@[layer]@.shape;
        let n = input.shape[0];
        let k = input.shape[1] as int;
        let filled = attention::at_least_one(before.seq_lens@[slot] as int);
        &&& cache::written(before, after, layer)
        &&& forall|b: int, g: int, p: int| 0 <= b < before.batch && 0 <= g < d[1] && 0 <= p < d[2] ==> #[trigger] after.rows(layer, b, g, p) == (if b == slot && position <= p < position + n {
                    (self.key_row(unit, factor, input.chunk(p - position, k), g, p), self.value_row(unit, input.chunk(p - position, k), g))
                } else {
                    before.rows(layer, b, g, p)
                })
        &&& t.wf()
        &&& t.dtype is F32
        &&& t.device == Device::Cpu
        &&& t.shape == input.shape
        &&& forall|i: int| 0 <= i < n ==> #[trigger] t.chunk(i, k) == self.step(
            unit,
            factor,
            input.chunk(i, k),
            position + i,
            self.attention.seen_by(after.k@[layer]@, slot, filled, position + i, d[2] as int),
            self.attention.seen_by(after.v@[layer]@, slot, filled, position + i, d[2] as int),
        )
    }

    /// The layer can take one row for each of the first slots, and the cache has room for them.
    pub open spec fn takes_batch(self, input: TensorModel, cache: KvCache, layer: int, positions: Seq<usize>) -> bool {
        let d = cache.k@[layer]@.shape;
        &&& input.wf()
        &&& input.dtype is F32
        &&& input.shape.len() == 2
        &&& input.shape[0] == positions.len()
        &&& self.fits(input.shape[1] as int)
        &&& self.room(input.shape[0])
        &&& 0 <= layer < cache.k@.len()
        &&& d.len() == 4
        &&& cache.wf(d[1], d[2], d[3])
        &&& d[1] == self.attention.kv()
        &&& 0 < d[2]
        &&& d[3] == self.attention.width()
        &&& positions.len() <= cache.batch
        &&& cache.batch * d[1] * d[2] <= usize::MAX
        &&& forall|i: int| 0 <= i < positions.len() ==> #[trigger] positions[i] < d[2]
    }

    /// The rows that the layer gives for the first slots, and the cache that it leaves: each row
    /// has seen all that is filled in its slot, as far as the window reaches.
    pub open spec fn gives_batch<F: Fn(Op, &[u32], &[u32], &[u32]) -> Vec<u32>>(
        self,
        unit: F,
        factor: Real,
        input: TensorModel,
        before: KvCache,
        after: KvCache,
        layer: int,
        positions: Seq<usize>,
        t: TensorModel,
    ) -> bool {
        let d = before.k@[layer]@.shape;
        let k = input.shape[1] as int;
        &&& cache::written(before, after, layer)
        &&& forall|b: int, g: int, p: int| 0 <= b < before.batch && 0 <= g < d[1] && 0 <= p < d[2] ==> #[trigger] after.rows(layer, b, g, p) == (if b < positions.len() && p == positions[b] {
                    (self.key_row(unit, factor, input.chunk(b, k), g, p), self.value_row(unit, input.chunk(b, k), g))
                } else {
                    before.rows(layer, b, g, p)
                })
        &&& t.wf()
        &&& t.dtype is F32
        &&& t.device == Device::Cpu
        &&& t.shape == input.shape
        &&& forall|b: int| 0 <= b < positions.len() ==> #[trigger] t.chunk(b, k) == {
            let filled = attention::batch_filled(before.seq_lens@[b] as int, d[2] as int);
            let start = attention::window_start(self.attention.config.sliding_window, filled);
            self.step(
                unit,
                factor,
                input.chunk(b, k),
                positions[b] as int,
                self.attention.seen(after.k@[layer]@, b, start, filled - start, d[2] as int),
                self.attention.seen(after.v@[layer]@, b, start, filled - start, d[2] as int),
            )
        }
    }

    /// The rows that the layer gives without a cache: each row has seen itself and the rows before
    /// it, as far as the window reaches.
    pub open spec fn gives_alone<F: Fn(Op, &[u32], &[u32], &[u32]) -> Vec<u32>>(
        self,
        unit: F,
        factor: Real,
        input: TensorModel,
        position: int,
        t: TensorModel,
    ) -> bool {
        let n = input.shape[0] as int;
        let k = input.shape[1] as int;
        &&& t.wf()
        &&& t.dtype is F32
        &&& t.device == Device::Cpu
        &&& t.shape == input.shape
        &&& forall|i: int| 0 <= i < n ==> #[trigger] t.chunk(i, k) == {
            let start = self.attention.first_seen(i);
            self.step(
                unit,
                factor,
                input.chunk(i, k),
                position + i,
                self.keys_between(unit, factor, tensor_rows(input, k), position, start, i + 1 - start),
                self.values_between(unit, tensor_rows(input, k), start, i + 1 - start),
            )
        }
    }

    /// Runs rows of one slot through the layer, from `position` on.
    pub fn forward_gpu<F: Fn(Op, &[u32], &[u32], &[u32]) -> Vec<u32>>(
        &self,
        input: &Tensor,
        cache: &mut KvCache,
        layer_idx: usize,
        slot: usize,
        position: usize,
        factor: Real,
        unit: &F,
    ) -> (t: Tensor)
        requires
            unit::lawful(*unit),
            self.takes(input@, *old(cache), layer_idx as int, slot as int, position as int),
        ensures
            self.gives(*unit, factor, input@, *old(cache), *final(cache), layer_idx as int, slot as int, position as int, t@),
    {
        let normed: Tensor = self.enter(&self.attn_norm, input, unit);
        let attended: Tensor = self.attention.forward_gpu_with_rope_cache(&normed, cache, layer_idx, slot, position, factor, unit);
        assert(attended@.shape =~= input@.shape);
        let t: Tensor = self.complete(input, &attended, unit);
        proof {
            let d = old(cache).k@[layer_idx as int]@.shape;
            let k = input@.shape[1] as int;
            assert forall|b: int, g: int, p: int| 0 <= b < old(cache).batch && 0 <= g < d[1] && 0 <= p < d[2] implies #[trigger] cache.rows(layer_idx as int, b, g, p) == (if b == slot && position <= p < position + input@.shape[0] {
                    (self.key_row(*unit, factor, input@.chunk(p - position, k), g, p), self.value_row(*unit, input@.chunk(p - position, k), g))
                } else {
                    old(cache).rows(layer_idx as int, b, g, p)
                }) by {
                assert(cache.rows(layer_idx as int, b, g, p) == (if b == slot && position <= p < position + normed@.shape[0] {
                    (self.attention.key(*unit, factor, normed@.chunk(p - position, k), g, p), self.attention.value(*unit, normed@.chunk(p - position, k), g))
                } else {
                    old(cache).rows(layer_idx as int, b, g, p)
                }));
                if b == slot && position <= p < position + input@.shape[0] {
                    assert(normed@.chunk(p - position, k) == self.entered(*unit, self.attn_norm, input@.chunk(p - position, k)));
                }
            }
            let filled = attention::at_least_one(old(cache).seq_lens@[slot as int] as int);
            assert forall|i: int| 0 <= i < input@.shape[0] implies #[trigger] t@.chunk(i, k) == self.step(
                *unit,
                factor,
                input@.chunk(i, k),
                position + i,
                self.attention.seen_by(cache.k@[layer_idx as int]@, slot as int, filled, position + i, d[2] as int),
                self.attention.seen_by(cache.v@[layer_idx as int]@, slot as int, filled, position + i, d[2] as int),
            ) by {
                assert(normed@.chunk(i, k) == self.entered(*unit, self.attn_norm, input@.chunk(i, k)));
                assert(attended@.chunk(i, k) == attended@.chunk(i, self.attention.o_proj.weight@.shape[0] as int));
            }
        }
        t
    }

    /// Runs one row for each of the first slots through the layer, each at its own position.
    pub fn forward_batch_gpu<F: Fn(Op, &[u32], &[u32], &[u32]) -> Vec<u32>>(
        &self,
        input: &Tensor,
        cache: &mut KvCache,
        layer_idx: usize,
        positions: &[usize],
        factor: Real,
        unit: &F,
    ) -> (t: Tensor)
        requires
            unit::lawful(*unit),
            self.takes_batch(input@, *old(cache), layer_idx as int, positions@),
        ensures
            self.gives_batch(*unit, factor, input@, *old(cache), *final(cache), layer_idx as int, positions@, t@),
    {
        let normed: Tensor = self.enter(&self.attn_norm, input, unit);
        let attended: Tensor = self.attention.forward_batch_gpu(&normed, cache, layer_idx, positions, factor, unit);
        assert(attended@.shape =~= input@.shape);
        let t: Tensor = self.complete(input, &attended, unit);
        proof {
            let d = old(cache).k@[layer_idx as int]@.shape;
            let k = input@.shape[1] as int;
            assert forall|b: int, g: int, p: int| 0 <= b < old(cache).batch && 0 <= g < d[1] && 0 <= p < d[2] implies #[trigger] cache.rows(layer_idx as int, b, g, p) == (if b < positions@.len() && p == positions@[b] {
                    (self.key_row(*unit, factor, input@.chunk(b, k), g, p), self.value_row(*unit, input@.chunk(b, k), g))
                } else {
                    old(cache).rows(layer_idx as int, b, g, p)
                }) by {
                assert(cache.rows(layer_idx as int, b, g, p) == (if b < positions@.len() && p == positions@[b] {
                    (self.attention.key(*unit, factor, normed@.chunk(b, k), g, p), self.attention.value(*unit, normed@.chunk(b, k), g))
                } else {
                    old(cache).rows(layer_idx as int, b, g, p)
                }));
                if b < positions@.len() && p == positions@[b] {
                    assert(normed@.chunk(b, k) == self.entered(*unit, self.attn_norm, input@.chunk(b, k)));
                }
            }
            assert forall|b: int| 0 <= b < positions@.len() implies #[trigger] t@.chunk(b, k) == {
                let filled = attention::batch_filled(old(cache).seq_lens@[b] as int, d[2] as int);
                let start = attention::window_start(self.attention.config.sliding_window, filled);
                self.step(
                    *unit,
                    factor,
                    input@.chunk(b, k),
                    positions@[b] as int,
                    self.attention.seen(cache.k@[layer_idx as int]@, b, start, filled - start, d[2] as int),
                    self.attention.seen(cache.v@[layer_idx as int]@, b, start, filled - start, d[2] as int),
                )
            } by {
                assert(normed@.chunk(b, k) == self.entered(*unit, self.attn_norm, input@.chunk(b, k)));
                assert(attended@.chunk(b, k) == attended@.chunk(b, self.attention.o_proj.weight@.shape[0] as int));
            }
        }
        t
    }

    /// Runs one row for each of some sequences through the layer without a cache, each at its own
    /// position: a row sees only itself.
    pub fn forward_batch_alone<F: Fn(Op, &[u32], &[u32], &[u32]) -> Vec<u32>>(
        &self,
        input: &Tensor,
        positions: &[usize],
        factor: Real,
        unit: &F,
    ) -> (t: Tensor)
        requires
            unit::lawful(*unit),
            input@.wf(),
            input@.dtype is F32,
            input@.shape.len() == 2,
            input@.shape[0] == positions@.len(),
            self.fits(input@.shape[1] as int),
            self.room(input@.shape[0]),
        ensures
            t@.wf(),
            t@.dtype is F32,
            t@.device == Device::Cpu,
            t@.shape == input@.shape,
            forall|b: int| 0 <= b < positions@.len() ==> #[trigger] t@.chunk(b, input@.shape[1] as int) == self.lone_step(
                *unit,
                factor,
                input@.chunk(b, input@.shape[1] as int),
                positions@[b] as int,
            ),
    {
        let normed: Tensor = self.enter(&self.attn_norm, input, unit);
        let attended: Tensor = self.attention.forward_batch_alone(&normed, positions, factor, unit);
        assert(attended@.shape =~= input@.shape);
        let t: Tensor = self.complete(input, &attended, unit);
        proof {
            let k = input@.shape[1] as int;
            assert forall|b: int| 0 <= b < positions@.len() implies #[trigger] t@.chunk(b, k) == self.lone_step(
                *unit,
                factor,
                input@.chunk(b, k),
                positions@[b] as int,
            ) by {
                assert(normed@.chunk(b, k) == self.entered(*unit, self.attn_norm, input@.chunk(b, k)));
                assert(attended@.chunk(b, k) == attended@.chunk(b, self.attention.o_proj.weight@.shape[0] as int));
            }
        }
        t
    }

    /// Runs rows through the layer without a cache: each row sees itself and the rows before it,
    /// as far as the window reaches.
    pub fn forward_alone<F: Fn(Op, &[u32], &[u32], &[u32]) -> Vec<u32>>(&self, input: &Tensor, position: usize, factor: Real, unit: &F) -> (t: Tensor)
        requires
            unit::lawful(*unit),
            input@.wf(),
            input@.dtype is F32,
            input@.shape.len() == 2,
            self.fits(input@.shape[1] as int),
            self.room(input@.shape[0]),
            position + input@.shape[0] <= usize::MAX,
        ensures
            self.gives_alone(*unit, factor, input@, position as int, t@),
    {
        let normed: Tensor = self.enter(&self.attn_norm, input, unit);
        let attended: Tensor = self.attention.forward(&normed, position, factor, unit);
        assert(attended@.shape =~= input@.shape);
        let t: Tensor = self.complete(input, &attended, unit);
        proof {
            let n = input@.shape[0] as int;
            let k = input@.shape[1] as int;
            assert forall|i: int| 0 <= i < n implies #[trigger] t@.chunk(i, k) == {
                let start = self.attention.first_seen(i);
                self.step(
                    *unit,
                    factor,
                    input@.chunk(i, k),
                    position + i,
                    self.keys_between(*unit, factor, tensor_rows(input@, k), position as int, start, i + 1 - start),
                    self.values_between(*unit, tensor_rows(input@, k), start, i + 1 - start),
                )
            } by {
                let start = self.attention.first_seen(i);
                assert(normed@.chunk(i, k) == self.entered(*unit, self.attn_norm, input@.chunk(i, k)));
                assert(attended@.chunk(i, k) == attended@.chunk(i, self.attention.o_proj.weight@.shape[0] as int));
                self.block_is_between(*unit, factor, input@, normed@, position as int, start, i + 1 - start);
            }
        }
        t
    }

    /// The keys and values of normalized rows are those of the rows that enter the layer.
    pub(crate) proof fn block_is_between<F: Fn(Op, &[u32], &[u32], &[u32]) -> Vec<u32>>(
        self,
        unit: F,
        factor: Real,
        input: TensorModel,
        normed: TensorModel,
        position: int,
        start: int,
        len: int,
    )
        requires
            input.shape.len() == 2,
            0 <= start,
            0 <= len,
            start + len <= input.shape[0],
            forall|i: int| 0 <= i < input.shape[0] ==> #[trigger] normed.chunk(i, input.shape[1] as int) == self.entered(
                unit,
                self.attn_norm,
                input.chunk(i, input.shape[1] as int),
            ),
        ensures
            self.attention.block_keys(unit, factor, normed, input.shape[1] as int, position, start, len) == self.keys_between(
                unit,
                factor,
                tensor_rows(input, input.shape[1] as int),
                position,
                start,
                len,
            ),
            self.attention.block_values(unit, normed, input.shape[1] as int, start, len) == self.values_between(
                unit,
                tensor_rows(input, input.shape[1] as int),
                start,
                len,
            ),
    {
        let k = input.shape[1] as int;
        let rows = tensor_rows(input, k);
        let keys = self.attention.block_keys(unit, factor, normed, k, position, start, len);
        let wanted = self.keys_between(unit, factor, rows, position, start, len);
        let values = self.attention.block_values(unit, normed, k, start, len);
        let wanted_values = self.values_between(unit, rows, start, len);
        assert forall|g: int| 0 <= g < self.attention.kv() implies keys[g] == wanted[g] && values[g] == wanted_values[g] by {
            let a = Seq::new(len as nat, |t: int| self.attention.key(unit, factor, normed.chunk(start + t, k), g, position + start + t));
            let b = Seq::new(len as nat, |t: int| self.key_row(unit, factor, rows[start + t], g, position + start + t));
            let c = Seq::new(len as nat, |t: int| self.attention.value(unit, normed.chunk(start + t, k), g));
            let e = Seq::new(len as nat, |t: int| self.value_row(unit, rows[start + t], g));
            assert forall|t: int| 0 <= t < len implies a[t] == b[t] && c[t] == e[t] by {
                assert(normed.chunk(start + t, k) == self.entered(unit, self.attn_norm, input.chunk(start + t, k)));
                assert(rows[start + t] == input.chunk(start + t, k));
            }
            assert(a =~= b);
            assert(c =~= e);
        }
        assert(keys =~= wanted);
        assert(values =~= wanted_values);
    }

    /// The keys of rows that enter the layer, head by head; row `j` stands at `position + j`.
    pub open spec fn keys_between<F: Fn(Op, &[u32], &[u32], &[u32]) -> Vec<u32>>(
        self,
        unit: F,
        factor: Real,
        entering: Seq<Seq<u32>>,
        position: int,
        start: int,
        len: int,
    ) -> Seq<Seq<u32>> {
        Seq::new(
            self.attention.kv() as nat,
            |g: int|
                attention::side_by_side(
                    Seq::new(len as nat, |t: int| self.key_row(unit, factor, entering[start + t], g, position + start + t)),
                    self.attention.width(),
                ),
        )
    }

    /// The values of rows that enter the layer, head by head.
    pub open spec fn values_between<F: Fn(Op, &[u32], &[u32], &[u32]) -> Vec<u32>>(
        self,
        unit: F,
        entering: Seq<Seq<u32>>,
        start: int,
        len: int,
    ) -> Seq<Seq<u32>> {
        Seq::new(
            self.attention.kv() as nat,
            |g: int|
                attention::side_by_side(
                    Seq::new(len as nat, |t: int| self.value_row(unit, entering[start + t], g)),
                    self.attention.width(),
                ),
        )
    }

    /// The keys and values of rows depend on nothing but those rows.
    pub proof fn between_local<F: Fn(Op, &[u32], &[u32], &[u32]) -> Vec<u32>>(
        self,
        unit: F,
        factor: Real,
        a: Seq<Seq<u32>>,
        b: Seq<Seq<u32>>,
        start: int,
        len: int,
    )
        requires
            0 <= len,
            forall|q: int| start <= q < start + len ==> #[trigger] a[q] == b[q],
        ensures
            self.keys_between(unit, factor, a, 0, start, len) == self.keys_between(unit, factor, b, 0, start, len),
            self.values_between(unit, a, start, len) == self.values_between(unit, b, start, len),
    {
        let ka = self.keys_between(unit, factor, a, 0, start, len);
        let kb = self.keys_between(unit, factor, b, 0, start, len);
        let va = self.values_between(unit, a, start, len);
        let vb = self.values_between(unit, b, start, len);
        assert forall|g: int| 0 <= g < self.attention.kv() implies ka[g] == kb[g] && va[g] == vb[g] by {
            let x = Seq::new(len as nat, |t: int| self.key_row(unit, factor, a[start + t], g, 0 + start + t));
            let y = Seq::new(len as nat, |t: int| self.key_row(unit, factor, b[start + t], g, 0 + start + t));
            let z = Seq::new(len as nat, |t: int| self.value_row(unit, a[start + t], g));
            let w = Seq::new(len as nat, |t: int| self.value_row(unit, b[start + t], g));
            assert forall|t: int| 0 <= t < len implies x[t] == y[t] && z[t] == w[t] by {
                assert(a[start + t] == b[start + t]);
            }
            assert(x =~= y);
            assert(z =~= w);
        }
        assert(ka =~= kb);
        assert(va =~= vb);
    }

    /// Runs rows of the first slot through the layer.
    pub fn forward<F: Fn(Op, &[u32], &[u32], &[u32]) -> Vec<u32>>(
        &self,
        input: &Tensor,
        cache: &mut KvCache,
        layer_idx: usize,
        position: usize,
        factor: Real,
        unit: &F,
    ) -> (t: Tensor)
        requires
            unit::lawful(*unit),
            self.takes(input@, *old(cache), layer_idx as int, 0, position as int),
        ensures
            self.gives(*unit, factor, input@, *old(cache), *final(cache), layer_idx as int, 0, position as int, t@),
    {
        self.forward_gpu(input, cache, layer_idx, 0, position, factor, unit)
    }
}

} // verus!
