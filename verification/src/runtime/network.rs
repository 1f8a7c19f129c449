//! What a model computes, as a function of the tokens alone.
//!
//! A row enters the first layer for each token; each layer turns the rows that enter it into the
//! rows that enter the next. A cache only keeps the keys and values of rows that have been
//! computed: [`Network::run_extends`] says that running a block of tokens against a cache gives
//! the rows that the tokens have by themselves.
use super::attention;
use super::cache;
use super::cache::KvCache;
use super::config::{ModelConfig, Real};
use super::layers::{Embedding, Linear, RmsNorm};
use super::transformer;
use super::transformer::TransformerLayer;
use super::unit;
use super::unit::Op;
use crate::tensor::shape;
use crate::tensor::tensor;
use crate::tensor::tensor::{Tensor, TensorModel};
use crate::tensor::types::DType;
use vstd::prelude::*;

verus! {

/// The parts of a model that do not change while it runs.
pub struct Network {
    pub config: ModelConfig,
    pub embedding: Embedding,
    pub pos_embedding: Option<Tensor>,
    pub layers: Seq<TransformerLayer>,
    pub norm: RmsNorm,
    pub lm_head: Linear,
}

/// The key and value rows of a layer, a slot, a head and a position are what they were.
pub open spec fn row_kept(before: KvCache, after: KvCache, l: int, slot: int, g: int, p: int) -> bool {
    &&& after.key(l, slot, g, p) == before.key(l, slot, g, p)
    &&& after.value(l, slot, g, p) == before.value(l, slot, g, p)
}

impl Network {
    /// The width of the rows between layers.
    pub open spec fn hidden(self) -> int {
        self.config.hidden_size as int
    }

    /// The number of scores in a row of logits.
    pub open spec fn scores(self) -> int {
        self.lm_head.weight@.shape[0] as int
    }

    /// The factor by which rotary positions are stretched.
    pub open spec fn factor(self) -> Real {
        self.config.stretch()
    }

    /// The row of the table of learned positions that stands for a position.
    pub open spec fn placed(self, position: int) -> int {
        let len = match self.config.position_embeddings {
            Some(n) => n as int,
            None => 0,
        };
        let last = if len > 0 {
            len - 1
        } else {
            0
        };
        if position < last {
            position
        } else {
            last
        }
    }

    /// The parts fit together.
    pub open spec fn fits(self) -> bool {
        &&& 0 < self.hidden()
        &&& self.embedding.wf()
        &&& self.embedding.embed_dim == self.hidden()
        &&& self.pos_embedding matches Some(t) ==> {
            &&& t@.wf()
            &&& t@.dtype is F32
            &&& (self.placed(usize::MAX as int) + 1) * self.hidden() <= t@.count()
        }
        &&& forall|l: int| 0 <= l < self.layers.len() ==> self.layer_fits(#[trigger] self.layers[l])
        &&& self.norm.accepts(self.hidden())
        &&& self.lm_head.weight@.shape.len() >= 1
        &&& self.lm_head.maps(self.hidden(), self.scores())
    }

    /// A layer fits the width of the rows and the heads of the cache.
    pub open spec fn layer_fits(self, layer: TransformerLayer) -> bool {
        &&& layer.fits(self.hidden())
        &&& layer.attention.kv() == self.config.kv_heads()
        &&& layer.attention.width() == self.config.head_width()
    }

    /// The tensors for so many rows can be stored.
    pub open spec fn room(self, count: usize) -> bool {
        &&& forall|l: int| 0 <= l < self.layers.len() ==> (#[trigger] self.layers[l]).room(count)
        &&& tensor::storable(seq![count, self.config.hidden_size], DType::F32)
        &&& tensor::storable(seq![count, self.lm_head.weight@.shape[0]], DType::F32)
    }

    /// The tokens have rows in the table of embeddings.
    pub open spec fn knows(self, tokens: Seq<u32>) -> bool {
        forall|i: int| 0 <= i < tokens.len() ==> (#[trigger] tokens[i]) < self.embedding.vocab_size
    }

    /// The cache has the dimensions of the model.
    pub open spec fn cache_fits(self, cache: KvCache) -> bool {
        &&& cache.wf(self.config.kv_heads(), self.config.max_seq_len, self.config.head_width())
        &&& cache.k@.len() == self.layers.len()
        &&& cache.batch * self.config.kv_heads() * self.config.max_seq_len <= usize::MAX
    }

    /// The row of a token at a position that enters the first layer.
    pub open spec fn entry<F: Fn(Op, &[u32], &[u32], &[u32]) -> Vec<u32>>(self, unit: F, token: u32, position: int) -> Seq<u32> {
        let row = self.embedding.row(token);
        match self.pos_embedding {
            Some(t) => transformer::plus(unit, row, t@.chunk(self.placed(position), self.hidden())),
            None => row,
        }
    }

    /// The scores of the next token, given the row that leaves the last layer.
    pub open spec fn logits<F: Fn(Op, &[u32], &[u32], &[u32]) -> Vec<u32>>(self, unit: F, x: Seq<u32>) -> Seq<u32> {
        self.scored(unit, self.norm.image(unit, x))
    }

    /// The scores of the next token, given the row that has been normalized.
    pub open spec fn scored<F: Fn(Op, &[u32], &[u32], &[u32]) -> Vec<u32>>(self, unit: F, x: Seq<u32>) -> Seq<u32> {
        let row = self.lm_head.sole_image(unit, x);
        match self.config.final_logit_softcap {
            Some(cap) => unit::value(unit, Op::Softcap { cap }, row, Seq::empty(), Seq::empty()),
            None => row,
        }
    }

    /// The row that enters layer `l` at position `p` of a sequence: each row sees those at its own
    /// position and before it, the last of them where the layer has a window.
    #[verifier::opaque]
    pub open spec fn state<F: Fn(Op, &[u32], &[u32], &[u32]) -> Vec<u32>>(self, unit: F, tokens: Seq<u32>, l: int, p: int) -> Seq<u32>
        decreases l, 0int,
    {
        if l <= 0 {
            self.entry(unit, tokens[p], p)
        } else {
            let layer = self.layers[l - 1];
            let start = layer.attention.first_seen(p);
            let entering = self.entering(unit, tokens, l - 1, (p + 1) as nat);
            layer.step(
                unit,
                self.factor(),
                self.state(unit, tokens, l - 1, p),
                p,
                layer.keys_between(unit, self.factor(), entering, 0, start, p + 1 - start),
                layer.values_between(unit, entering, start, p + 1 - start),
            )
        }
    }

    /// The rows that enter layer `l` at the first `n` positions of a sequence.
    pub open spec fn entering<F: Fn(Op, &[u32], &[u32], &[u32]) -> Vec<u32>>(self, unit: F, tokens: Seq<u32>, l: int, n: nat) -> Seq<Seq<u32>>
        decreases l, 1int,
    {
        Seq::new(n, |q: int| self.state(unit, tokens, l, q))
    }

    /// The row that enters layer `l` for a token that is run at a position and sees only itself.
    #[verifier::opaque]
    pub open spec fn lone_state<F: Fn(Op, &[u32], &[u32], &[u32]) -> Vec<u32>>(self, unit: F, token: u32, position: int, l: int) -> Seq<u32>
        decreases l,
    {
        if l <= 0 {
            self.entry(unit, token, position)
        } else {
            self.layers[l - 1].lone_step(unit, self.factor(), self.lone_state(unit, token, position, l - 1), position)
        }
    }

    /// The row that enters layer `l` for token `i` of a block that was run in a slot from
    /// position `pos` on, given the cache that the run left behind.
    #[verifier::opaque]
    pub open spec fn slot_state<F: Fn(Op, &[u32], &[u32], &[u32]) -> Vec<u32>>(
        self,
        unit: F,
        cache: KvCache,
        slot: int,
        tokens: Seq<u32>,
        pos: int,
        l: int,
        i: int,
    ) -> Seq<u32>
        decreases l,
    {
        if l <= 0 {
            self.entry(unit, tokens[i], pos + i)
        } else {
            let layer = self.layers[l - 1];
            let start = layer.attention.first_seen(pos + i);
            let len = pos + i + 1 - start;
            layer.step(
                unit,
                self.factor(),
                self.slot_state(unit, cache, slot, tokens, pos, l - 1, i),
                pos + i,
                layer.attention.seen(cache.k@[l - 1]@, slot, start, len, self.config.max_seq_len as int),
                layer.attention.seen(cache.v@[l - 1]@, slot, start, len, self.config.max_seq_len as int),
            )
        }
    }

    /// The key and value rows of a layer, a head and a position after a run: those of the block,
    /// or those that were there.
    pub open spec fn row_ran<F: Fn(Op, &[u32], &[u32], &[u32]) -> Vec<u32>>(
        self,
        unit: F,
        before: KvCache,
        after: KvCache,
        slot: int,
        tokens: Seq<u32>,
        pos: int,
        l: int,
        g: int,
        p: int,
    ) -> bool {
        let layer = self.layers[l];
        let x = self.slot_state(unit, after, slot, tokens, pos, l, p - pos);
        &&& after.key(l, slot, g, p) == (if pos <= p < pos + tokens.len() {
            layer.key_row(unit, self.factor(), x, g, p)
        } else {
            before.key(l, slot, g, p)
        })
        &&& after.value(l, slot, g, p) == (if pos <= p < pos + tokens.len() {
            layer.value_row(unit, x, g)
        } else {
            before.value(l, slot, g, p)
        })
    }

    /// A block was run in a slot from position `pos` on.
    pub open spec fn slot_ran<F: Fn(Op, &[u32], &[u32], &[u32]) -> Vec<u32>>(
        self,
        unit: F,
        before: KvCache,
        after: KvCache,
        slot: int,
        tokens: Seq<u32>,
        pos: int,
    ) -> bool {
        forall|l: int, g: int, p: int|
            0 <= l < self.layers.len() && 0 <= g < self.config.kv_heads() && 0 <= p < self.config.max_seq_len ==> #[trigger] self.row_ran(
                unit,
                before,
                after,
                slot,
                tokens,
                pos,
                l,
                g,
                p,
            )
    }

    /// Nothing that is kept for a slot changed.
    pub open spec fn slot_kept(self, before: KvCache, after: KvCache, slot: int) -> bool {
        forall|l: int, g: int, p: int|
            0 <= l < self.layers.len() && 0 <= g < self.config.kv_heads() && 0 <= p < self.config.max_seq_len ==> #[trigger] row_kept(before, after, l, slot, g, p)
    }

    /// The key and value rows of a layer, a head and a position are those of a sequence.
    pub open spec fn row_holds<F: Fn(Op, &[u32], &[u32], &[u32]) -> Vec<u32>>(
        self,
        unit: F,
        cache: KvCache,
        slot: int,
        past: Seq<u32>,
        l: int,
        g: int,
        p: int,
    ) -> bool {
        &&& cache.key(l, slot, g, p) == self.layers[l].key_row(unit, self.factor(), self.state(unit, past, l, p), g, p)
        &&& cache.value(l, slot, g, p) == self.layers[l].value_row(unit, self.state(unit, past, l, p), g)
    }

    /// A slot of the cache holds the keys and values of a sequence.
    pub open spec fn holds<F: Fn(Op, &[u32], &[u32], &[u32]) -> Vec<u32>>(self, unit: F, cache: KvCache, slot: int, past: Seq<u32>) -> bool {
        &&& past.len() <= self.config.max_seq_len
        &&& forall|l: int, g: int, p: int|
            0 <= l < self.layers.len() && 0 <= g < self.config.kv_heads() && 0 <= p < past.len() ==> #[trigger] self.row_holds(unit, cache, slot, past, l, g, p)
    }

    /// The row at a position depends on no later token.
    pub proof fn state_looks_back<F: Fn(Op, &[u32], &[u32], &[u32]) -> Vec<u32>>(self, unit: F, a: Seq<u32>, b: Seq<u32>, l: int, p: int)
        requires
            0 <= p < a.len(),
            p < b.len(),
            forall|q: int| 0 <= q <= p ==> #[trigger] a[q] == b[q],
        ensures
            self.state(unit, a, l, p) == self.state(unit, b, l, p),
        decreases l,
    {
        reveal(Network::state);
        assert(a[p] == b[p]);
        if l > 0 {
            let x = self.entering(unit, a, l - 1, (p + 1) as nat);
            let y = self.entering(unit, b, l - 1, (p + 1) as nat);
            assert forall|q: int| 0 <= q <= p implies x[q] == y[q] by {
                self.state_looks_back(unit, a, b, l - 1, q);
            }
            assert(x =~= y);
            self.state_looks_back(unit, a, b, l - 1, p);
        }
    }

    /// The rows of a run depend only on the layers of the cache below.
    pub proof fn slot_state_local<F: Fn(Op, &[u32], &[u32], &[u32]) -> Vec<u32>>(
        self,
        unit: F,
        a: KvCache,
        b: KvCache,
        slot: int,
        tokens: Seq<u32>,
        pos: int,
        l: int,
        i: int,
    )
        requires
            forall|j: int| 0 <= j < l ==> #[trigger] a.k@[j] == b.k@[j],
            forall|j: int| 0 <= j < l ==> #[trigger] a.v@[j] == b.v@[j],
        ensures
            self.slot_state(unit, a, slot, tokens, pos, l, i) == self.slot_state(unit, b, slot, tokens, pos, l, i),
        decreases l,
    {
        reveal(Network::slot_state);
        if l > 0 {
            self.slot_state_local(unit, a, b, slot, tokens, pos, l - 1, i);
            assert(a.k@[l - 1] == b.k@[l - 1]);
            assert(a.v@[l - 1] == b.v@[l - 1]);
        }
    }

    /// Writing to one layer keeps the dimensions of the cache.
    pub proof fn written_fits(self, before: KvCache, after: KvCache, l: int)
        requires
            self.cache_fits(before),
            0 <= l < self.layers.len(),
            cache::written(before, after, l),
        ensures
            self.cache_fits(after),
    {
        let g_count = self.config.kv_heads();
        let max_len = self.config.max_seq_len;
        let width = self.config.head_width();
        assert forall|j: int| 0 <= j < after.k@.len() implies cache::shaped((#[trigger] after.k@[j])@, after.batch, g_count, max_len, width) by {
            assert(cache::shaped(before.k@[j]@, before.batch, g_count, max_len, width));
            if j != l {
                assert(after.k@[j] == before.k@[j]);
            }
        }
        assert forall|j: int| 0 <= j < after.v@.len() implies cache::shaped((#[trigger] after.v@[j])@, after.batch, g_count, max_len, width) by {
            assert(cache::shaped(before.v@[j]@, before.batch, g_count, max_len, width));
            if j != l {
                assert(after.v@[j] == before.v@[j]);
            }
        }
    }

    /// The layers below `l` have run a block in a slot, and nothing else has changed.
    pub open spec fn ran_below<F: Fn(Op, &[u32], &[u32], &[u32]) -> Vec<u32>>(
        self,
        unit: F,
        before: KvCache,
        mid: KvCache,
        slot: int,
        tokens: Seq<u32>,
        pos: int,
        l: int,
    ) -> bool {
        &&& self.cache_fits(mid)
        &&& mid.batch == before.batch
        &&& mid.seq_lens == before.seq_lens
        &&& forall|j: int| l <= j < self.layers.len() ==> #[trigger] mid.k@[j] == before.k@[j]
        &&& forall|j: int| l <= j < self.layers.len() ==> #[trigger] mid.v@[j] == before.v@[j]
        &&& forall|j: int, g: int, p: int|
            0 <= j < l && 0 <= g < self.config.kv_heads() && 0 <= p < self.config.max_seq_len ==> #[trigger] self.row_ran(
                unit,
                before,
                mid,
                slot,
                tokens,
                pos,
                j,
                g,
                p,
            )
        &&& forall|j: int, b: int, g: int, p: int|
            0 <= j < l && 0 <= b < before.batch && b != slot && 0 <= g < self.config.kv_heads() && 0 <= p < self.config.max_seq_len ==> #[trigger] row_kept(before, mid, j, b, g, p)
    }

    /// The rows of a matrix are those of a run that enter layer `l`.
    pub open spec fn rows_enter<F: Fn(Op, &[u32], &[u32], &[u32]) -> Vec<u32>>(
        self,
        unit: F,
        cache: KvCache,
        slot: int,
        tokens: Seq<u32>,
        pos: int,
        l: int,
        t: TensorModel,
    ) -> bool {
        forall|i: int| 0 <= i < tokens.len() ==> #[trigger] t.chunk(i, self.hidden()) == self.slot_state(unit, cache, slot, tokens, pos, l, i)
    }

    /// The rows that leave a layer are those that enter the next.
    pub proof fn rows_leave<F: Fn(Op, &[u32], &[u32], &[u32]) -> Vec<u32>>(
        self,
        unit: F,
        mid: KvCache,
        after: KvCache,
        slot: int,
        tokens: Seq<u32>,
        pos: int,
        l: int,
        input: TensorModel,
        output: TensorModel,
    )
        requires
            self.cache_fits(mid),
            0 <= l < self.layers.len(),
            mid.seq_lens@[slot] == pos + tokens.len(),
            0 <= pos,
            tokens.len() <= usize::MAX,
            input.shape == seq![tokens.len() as usize, self.config.hidden_size],
            self.layers[l].gives(unit, self.factor(), input, mid, after, l, slot, pos, output),
            self.rows_enter(unit, mid, slot, tokens, pos, l, input),
        ensures
            self.rows_enter(unit, after, slot, tokens, pos, l + 1, output),
    {
        reveal(Network::slot_state);
        assert(cache::shaped(
            mid.k@[l]@,
            mid.batch,
            self.config.kv_heads(),
            self.config.max_seq_len,
            self.config.head_width(),
        ));
        assert forall|i: int| 0 <= i < tokens.len() implies #[trigger] output.chunk(i, self.hidden()) == self.slot_state(
            unit,
            after,
            slot,
            tokens,
            pos,
            l + 1,
            i,
        ) by {
            self.slot_state_local(unit, after, mid, slot, tokens, pos, l, i);
            assert(input.chunk(i, self.hidden()) == self.slot_state(unit, after, slot, tokens, pos, l, i));
        }
    }

    /// After a layer has run, all layers up to it have.
    pub proof fn layer_ran<F: Fn(Op, &[u32], &[u32], &[u32]) -> Vec<u32>>(
        self,
        unit: F,
        before: KvCache,
        mid: KvCache,
        after: KvCache,
        slot: int,
        tokens: Seq<u32>,
        pos: int,
        l: int,
        input: TensorModel,
        output: TensorModel,
    )
        requires
            0 <= l < self.layers.len(),
            0 <= slot < before.batch,
            tokens.len() <= usize::MAX,
            input.shape == seq![tokens.len() as usize, self.config.hidden_size],
            self.layers[l].gives(unit, self.factor(), input, mid, after, l, slot, pos, output),
            self.rows_enter(unit, mid, slot, tokens, pos, l, input),
            self.ran_below(unit, before, mid, slot, tokens, pos, l),
        ensures
            self.ran_below(unit, before, after, slot, tokens, pos, l + 1),
    {
        let layer = self.layers[l];
        let k = self.hidden();
        let g_count = self.config.kv_heads();
        let max_len = self.config.max_seq_len;
        assert(mid.k@[l] == before.k@[l] && mid.v@[l] == before.v@[l]);
        assert(cache::shaped(mid.k@[l]@, mid.batch, g_count, max_len, self.config.head_width()));
        self.written_fits(mid, after, l);
        assert forall|j: int| l + 1 <= j < self.layers.len() implies #[trigger] after.k@[j] == before.k@[j] by {
            assert(after.k@[j] == mid.k@[j]);
        }
        assert forall|j: int| l + 1 <= j < self.layers.len() implies #[trigger] after.v@[j] == before.v@[j] by {
            assert(after.v@[j] == mid.v@[j]);
        }
        assert forall|j: int, g: int, p: int| 0 <= j < l + 1 && 0 <= g < g_count && 0 <= p < max_len implies #[trigger] self.row_ran(
            unit,
            before,
            after,
            slot,
            tokens,
            pos,
            j,
            g,
            p,
        ) by {
            self.slot_state_local(unit, after, mid, slot, tokens, pos, j, p - pos);
            if j < l {
                assert(self.row_ran(unit, before, mid, slot, tokens, pos, j, g, p));
                assert(after.k@[j] == mid.k@[j] && after.v@[j] == mid.v@[j]);
            } else {
                assert(after.rows(l, slot, g, p) == (if pos <= p < pos + tokens.len() {
                    (layer.key_row(unit, self.factor(), input.chunk(p - pos, k), g, p), layer.value_row(unit, input.chunk(p - pos, k), g))
                } else {
                    mid.rows(l, slot, g, p)
                }));
                if pos <= p < pos + tokens.len() {
                    assert(input.chunk(p - pos, k) == self.slot_state(unit, mid, slot, tokens, pos, l, p - pos));
                }
            }
        }
        assert forall|j: int, b: int, g: int, p: int|
            0 <= j < l + 1 && 0 <= b < before.batch && b != slot && 0 <= g < g_count && 0 <= p < max_len implies #[trigger] row_kept(before, after, j, b, g, p) by {
            if j < l {
                assert(after.k@[j] == mid.k@[j] && after.v@[j] == mid.v@[j]);
                assert(row_kept(before, mid, j, b, g, p));
            } else {
                assert(after.rows(l, b, g, p) == mid.rows(l, b, g, p));
            }
        }
    }

    /// The layers below `l` have run one token in each of the first slots, and nothing else has
    /// changed.
    pub open spec fn batch_ran_below<F: Fn(Op, &[u32], &[u32], &[u32]) -> Vec<u32>>(
        self,
        unit: F,
        before: KvCache,
        mid: KvCache,
        tokens: Seq<u32>,
        positions: Seq<usize>,
        l: int,
    ) -> bool {
        &&& self.cache_fits(mid)
        &&& mid.batch == before.batch
        &&& mid.seq_lens == before.seq_lens
        &&& forall|j: int| l <= j < self.layers.len() ==> #[trigger] mid.k@[j] == before.k@[j]
        &&& forall|j: int| l <= j < self.layers.len() ==> #[trigger] mid.v@[j] == before.v@[j]
        &&& forall|b: int, j: int, g: int, p: int|
            0 <= b < tokens.len() && 0 <= j < l && 0 <= g < self.config.kv_heads() && 0 <= p < self.config.max_seq_len ==> #[trigger] self.row_ran(
                unit,
                before,
                mid,
                b,
                seq![tokens[b]],
                positions[b] as int,
                j,
                g,
                p,
            )
        &&& forall|j: int, b: int, g: int, p: int|
            0 <= j < l && tokens.len() <= b < before.batch && 0 <= g < self.config.kv_heads() && 0 <= p < self.config.max_seq_len ==> #[trigger] row_kept(before, mid, j, b, g, p)
    }

    /// The rows of a matrix are those of one token in each of the first slots.
    pub open spec fn batch_enters<F: Fn(Op, &[u32], &[u32], &[u32]) -> Vec<u32>>(
        self,
        unit: F,
        cache: KvCache,
        tokens: Seq<u32>,
        positions: Seq<usize>,
        l: int,
        t: TensorModel,
    ) -> bool {
        forall|b: int| 0 <= b < tokens.len() ==> #[trigger] t.chunk(b, self.hidden()) == self.slot_state(
            unit,
            cache,
            b,
            seq![tokens[b]],
            positions[b] as int,
            l,
            0,
        )
    }

    /// The rows that leave a layer are those that enter the next.
    pub proof fn batch_leaves<F: Fn(Op, &[u32], &[u32], &[u32]) -> Vec<u32>>(
        self,
        unit: F,
        mid: KvCache,
        after: KvCache,
        tokens: Seq<u32>,
        positions: Seq<usize>,
        l: int,
        input: TensorModel,
        output: TensorModel,
    )
        requires
            self.cache_fits(mid),
            0 <= l < self.layers.len(),
            positions.len() == tokens.len(),
            tokens.len() <= mid.batch,
            forall|b: int| 0 <= b < tokens.len() ==> #[trigger] positions[b] < self.config.max_seq_len,
            forall|b: int| 0 <= b < tokens.len() ==> #[trigger] mid.seq_lens@[b] == positions[b] + 1,
            input.shape == seq![tokens.len() as usize, self.config.hidden_size],
            self.layers[l].gives_batch(unit, self.factor(), input, mid, after, l, positions, output),
            self.batch_enters(unit, mid, tokens, positions, l, input),
        ensures
            self.batch_enters(unit, after, tokens, positions, l + 1, output),
    {
        reveal(Network::slot_state);
        assert(cache::shaped(
            mid.k@[l]@,
            mid.batch,
            self.config.kv_heads(),
            self.config.max_seq_len,
            self.config.head_width(),
        ));
        assert forall|b: int| 0 <= b < tokens.len() implies #[trigger] output.chunk(b, self.hidden()) == self.slot_state(
            unit,
            after,
            b,
            seq![tokens[b]],
            positions[b] as int,
            l + 1,
            0,
        ) by {
            self.slot_state_local(unit, after, mid, b, seq![tokens[b]], positions[b] as int, l, 0);
            assert(input.chunk(b, self.hidden()) == self.slot_state(unit, after, b, seq![tokens[b]], positions[b] as int, l, 0));
            assert(mid.seq_lens@[b] == positions[b] + 1);
            assert(seq![tokens[b]].len() == 1);
        }
    }

    /// After a layer has run, all layers up to it have.
    pub proof fn batch_layer_ran<F: Fn(Op, &[u32], &[u32], &[u32]) -> Vec<u32>>(
        self,
        unit: F,
        before: KvCache,
        mid: KvCache,
        after: KvCache,
        tokens: Seq<u32>,
        positions: Seq<usize>,
        l: int,
        input: TensorModel,
        output: TensorModel,
    )
        requires
            0 <= l < self.layers.len(),
            positions.len() == tokens.len(),
            tokens.len() <= before.batch,
            input.shape == seq![tokens.len() as usize, self.config.hidden_size],
            self.layers[l].gives_batch(unit, self.factor(), input, mid, after, l, positions, output),
            self.batch_enters(unit, mid, tokens, positions, l, input),
            self.batch_ran_below(unit, before, mid, tokens, positions, l),
        ensures
            self.batch_ran_below(unit, before, after, tokens, positions, l + 1),
    {
        let layer = self.layers[l];
        let k = self.hidden();
        let g_count = self.config.kv_heads();
        let max_len = self.config.max_seq_len;
        assert(mid.k@[l] == before.k@[l] && mid.v@[l] == before.v@[l]);
        assert(cache::shaped(mid.k@[l]@, mid.batch, g_count, max_len, self.config.head_width()));
        self.written_fits(mid, after, l);
        assert forall|j: int| l + 1 <= j < self.layers.len() implies #[trigger] after.k@[j] == before.k@[j] by {
            assert(after.k@[j] == mid.k@[j]);
        }
        assert forall|j: int| l + 1 <= j < self.layers.len() implies #[trigger] after.v@[j] == before.v@[j] by {
            assert(after.v@[j] == mid.v@[j]);
        }
        assert forall|b: int, j: int, g: int, p: int|
            0 <= b < tokens.len() && 0 <= j < l + 1 && 0 <= g < g_count && 0 <= p < max_len implies #[trigger] self.row_ran(
            unit,
            before,
            after,
            b,
            seq![tokens[b]],
            positions[b] as int,
            j,
            g,
            p,
        ) by {
            let pos = positions[b] as int;
            let one = seq![tokens[b]];
            self.slot_state_local(unit, after, mid, b, one, pos, j, p - pos);
            if j < l {
                assert(self.row_ran(unit, before, mid, b, one, pos, j, g, p));
                assert(after.k@[j] == mid.k@[j] && after.v@[j] == mid.v@[j]);
            } else {
                assert(after.rows(l, b, g, p) == (if b < positions.len() && p == positions[b] {
                    (layer.key_row(unit, self.factor(), input.chunk(b, k), g, p), layer.value_row(unit, input.chunk(b, k), g))
                } else {
                    mid.rows(l, b, g, p)
                }));
                if p == pos {
                    assert(input.chunk(b, k) == self.slot_state(unit, mid, b, one, pos, l, 0));
                }
            }
        }
        assert forall|j: int, b: int, g: int, p: int|
            0 <= j < l + 1 && tokens.len() <= b < before.batch && 0 <= g < g_count && 0 <= p < max_len implies #[trigger] row_kept(before, after, j, b, g, p) by {
            if j < l {
                assert(after.k@[j] == mid.k@[j] && after.v@[j] == mid.v@[j]);
                assert(row_kept(before, mid, j, b, g, p));
            } else {
                assert(after.rows(l, b, g, p) == mid.rows(l, b, g, p));
            }
        }
    }

    /// A run says the same of two caches that keep the same keys and values.
    pub proof fn slot_ran_from<F: Fn(Op, &[u32], &[u32], &[u32]) -> Vec<u32>>(
        self,
        unit: F,
        a: KvCache,
        b: KvCache,
        after: KvCache,
        slot: int,
        tokens: Seq<u32>,
        pos: int,
    )
        requires
            a.k == b.k,
            a.v == b.v,
            self.slot_ran(unit, a, after, slot, tokens, pos),
        ensures
            self.slot_ran(unit, b, after, slot, tokens, pos),
    {
        assert forall|l: int, g: int, p: int|
            0 <= l < self.layers.len() && 0 <= g < self.config.kv_heads() && 0 <= p < self.config.max_seq_len implies #[trigger] self.row_ran(
            unit,
            b,
            after,
            slot,
            tokens,
            pos,
            l,
            g,
            p,
        ) by {
            assert(self.row_ran(unit, a, after, slot, tokens, pos, l, g, p));
        }
    }

    /// A slot is kept from one of two caches that keep the same keys and values as from the other.
    pub proof fn slot_kept_from(self, a: KvCache, b: KvCache, after: KvCache, slot: int)
        requires
            a.k == b.k,
            a.v == b.v,
            self.slot_kept(a, after, slot),
        ensures
            self.slot_kept(b, after, slot),
    {
        assert forall|l: int, g: int, p: int|
            0 <= l < self.layers.len() && 0 <= g < self.config.kv_heads() && 0 <= p < self.config.max_seq_len implies #[trigger] row_kept(
            b,
            after,
            l,
            slot,
            g,
            p,
        ) by {
            assert(row_kept(a, after, l, slot, g, p));
        }
    }

    /// Two caches that keep the same keys and values hold the same sequences.
    pub proof fn same_rows_hold<F: Fn(Op, &[u32], &[u32], &[u32]) -> Vec<u32>>(
        self,
        unit: F,
        a: KvCache,
        b: KvCache,
        slot: int,
        past: Seq<u32>,
    )
        requires
            a.k == b.k,
            a.v == b.v,
            self.holds(unit, a, slot, past),
        ensures
            self.holds(unit, b, slot, past),
    {
        assert forall|l: int, g: int, p: int|
            0 <= l < self.layers.len() && 0 <= g < self.config.kv_heads() && 0 <= p < past.len() implies #[trigger] self.row_holds(
            unit,
            b,
            slot,
            past,
            l,
            g,
            p,
        ) by {
            assert(self.row_holds(unit, a, slot, past, l, g, p));
        }
    }

    /// Every cache holds the empty sequence.
    pub proof fn nothing_holds<F: Fn(Op, &[u32], &[u32], &[u32]) -> Vec<u32>>(self, unit: F, cache: KvCache, slot: int)
        ensures
            self.holds(unit, cache, slot, Seq::empty()),
    {
    }

    /// A block was run in a slot, from the end of what is filled there: its keys and values were
    /// added, it counts as filled, and no other slot changed.
    pub open spec fn advanced<F: Fn(Op, &[u32], &[u32], &[u32]) -> Vec<u32>>(
        self,
        unit: F,
        before: KvCache,
        after: KvCache,
        slot: int,
        tokens: Seq<u32>,
    ) -> bool {
        let pos = before.seq_lens@[slot] as int;
        &&& self.cache_fits(after)
        &&& after.batch == before.batch
        &&& after.seq_lens@ == before.seq_lens@.update(slot, (pos + tokens.len()) as usize)
        &&& self.slot_ran(unit, before, after, slot, tokens, pos)
        &&& forall|b: int| 0 <= b < before.batch && b != slot ==> #[trigger] self.slot_kept(before, after, b)
    }

    /// One token was run in each of the first slots, each at its own position: its keys and
    /// values were added, it counts as the last that is filled, and no other slot changed.
    pub open spec fn batch_advanced<F: Fn(Op, &[u32], &[u32], &[u32]) -> Vec<u32>>(
        self,
        unit: F,
        before: KvCache,
        after: KvCache,
        tokens: Seq<u32>,
        positions: Seq<usize>,
    ) -> bool {
        &&& self.cache_fits(after)
        &&& after.batch == before.batch
        &&& forall|b: int| 0 <= b < tokens.len() ==> #[trigger] after.seq_lens@[b] == positions[b] + 1
        &&& forall|b: int| tokens.len() <= b < before.batch ==> #[trigger] after.seq_lens@[b] == before.seq_lens@[b]
        &&& forall|b: int| 0 <= b < tokens.len() ==> #[trigger] self.token_ran(unit, before, after, b, tokens[b], positions[b] as int)
        &&& forall|b: int| tokens.len() <= b < before.batch ==> #[trigger] self.slot_kept(before, after, b)
    }

    /// One token was run in a slot.
    pub open spec fn token_ran<F: Fn(Op, &[u32], &[u32], &[u32]) -> Vec<u32>>(
        self,
        unit: F,
        before: KvCache,
        after: KvCache,
        slot: int,
        token: u32,
        pos: int,
    ) -> bool {
        self.slot_ran(unit, before, after, slot, seq![token], pos)
    }

    /// After all layers have run one token in each of the first slots, each slot has run its own.
    pub proof fn batch_done<F: Fn(Op, &[u32], &[u32], &[u32]) -> Vec<u32>>(
        self,
        unit: F,
        before: KvCache,
        reserved: KvCache,
        after: KvCache,
        tokens: Seq<u32>,
        positions: Seq<usize>,
    )
        requires
            reserved.k == before.k,
            reserved.v == before.v,
            reserved.batch == before.batch,
            self.batch_ran_below(unit, reserved, after, tokens, positions, self.layers.len() as int),
            forall|b: int| 0 <= b < tokens.len() ==> #[trigger] reserved.seq_lens@[b] == positions[b] + 1,
            forall|b: int| tokens.len() <= b < before.batch ==> #[trigger] reserved.seq_lens@[b] == before.seq_lens@[b],
        ensures
            self.batch_advanced(unit, before, after, tokens, positions),
    {
        assert forall|b: int| 0 <= b < tokens.len() implies #[trigger] self.token_ran(unit, before, after, b, tokens[b], positions[b] as int) by {
            assert forall|l: int, g: int, p: int|
                0 <= l < self.layers.len() && 0 <= g < self.config.kv_heads() && 0 <= p < self.config.max_seq_len implies #[trigger] self.row_ran(
                unit,
                reserved,
                after,
                b,
                seq![tokens[b]],
                positions[b] as int,
                l,
                g,
                p,
            ) by {}
            self.slot_ran_from(unit, reserved, before, after, b, seq![tokens[b]], positions[b] as int);
        }
        assert forall|b: int| tokens.len() <= b < before.batch implies #[trigger] self.slot_kept(before, after, b) by {
            assert forall|l: int, g: int, p: int|
                0 <= l < self.layers.len() && 0 <= g < self.config.kv_heads() && 0 <= p < self.config.max_seq_len implies #[trigger] row_kept(
                reserved,
                after,
                l,
                b,
                g,
                p,
            ) by {}
            self.slot_kept_from(reserved, before, after, b);
        }
    }

    /// The rows that leave a layer without a cache are those that enter the next.
    pub proof fn alone_leaves<F: Fn(Op, &[u32], &[u32], &[u32]) -> Vec<u32>>(
        self,
        unit: F,
        tokens: Seq<u32>,
        l: int,
        input: TensorModel,
        output: TensorModel,
    )
        requires
            0 <= l < self.layers.len(),
            tokens.len() <= usize::MAX,
            input.shape == seq![tokens.len() as usize, self.config.hidden_size],
            forall|i: int| 0 <= i < tokens.len() ==> #[trigger] input.chunk(i, self.hidden()) == self.state(unit, tokens, l, i),
            self.layers[l].gives_alone(unit, self.factor(), input, 0, output),
        ensures
            forall|i: int| 0 <= i < tokens.len() ==> #[trigger] output.chunk(i, self.hidden()) == self.state(
                unit,
                tokens,
                l + 1,
                i,
            ),
    {
        reveal(Network::state);
        let n = tokens.len() as int;
        let layer = self.layers[l];
        let rows = transformer::tensor_rows(input, self.hidden());
        assert forall|i: int| 0 <= i < n implies #[trigger] output.chunk(i, self.hidden()) == self.state(unit, tokens, l + 1, i) by {
            let start = layer.attention.first_seen(i);
            let len = i + 1 - start;
            let below = self.entering(unit, tokens, l, (i + 1) as nat);
            assert forall|q: int| 0 <= q <= i implies #[trigger] rows[q] == below[q] by {
                assert(input.chunk(q, self.hidden()) == self.state(unit, tokens, l, q));
            }
            layer.between_local(unit, self.factor(), rows, below, start, len);
            assert(input.chunk(i, self.hidden()) == self.state(unit, tokens, l, i));
        }
    }

    /// A layer of a slot holds the keys and values of a sequence.
    pub open spec fn layer_holds<F: Fn(Op, &[u32], &[u32], &[u32]) -> Vec<u32>>(
        self,
        unit: F,
        cache: KvCache,
        slot: int,
        past: Seq<u32>,
        l: int,
    ) -> bool {
        forall|g: int, p: int|
            0 <= g < self.config.kv_heads() && 0 <= p < past.len() ==> #[trigger] self.row_holds(unit, cache, slot, past, l, g, p)
    }

    /// What a row sees in the cache is what it sees of the sequence.
    proof fn seen_is_between<F: Fn(Op, &[u32], &[u32], &[u32]) -> Vec<u32>>(
        self,
        unit: F,
        cache: KvCache,
        slot: int,
        past: Seq<u32>,
        l: int,
        p: int,
        start: int,
        len: int,
    )
        requires
            self.fits(),
            self.cache_fits(cache),
            0 <= slot < cache.batch,
            0 <= l < self.layers.len(),
            self.layer_holds(unit, cache, slot, past, l),
            0 <= p < past.len() <= self.config.max_seq_len,
            0 <= start,
            0 <= len,
            start + len <= p + 1 || len == 0,
            start + len <= self.config.max_seq_len,
        ensures
            self.layers[l].attention.seen(cache.k@[l]@, slot, start, len, self.config.max_seq_len as int) == self.layers[l].keys_between(
                unit,
                self.factor(),
                self.entering(unit, past, l, (p + 1) as nat),
                0,
                start,
                len,
            ),
            self.layers[l].attention.seen(cache.v@[l]@, slot, start, len, self.config.max_seq_len as int) == self.layers[l].values_between(
                unit,
                self.entering(unit, past, l, (p + 1) as nat),
                start,
                len,
            ),
    {
        reveal(Network::state);
        let layer = self.layers[l];
        let max_len = self.config.max_seq_len;
        let g_count = self.config.kv_heads();
        let width = self.config.head_width();
        let kt = cache.k@[l]@;
        let vt = cache.v@[l]@;
        assert(self.layer_fits(layer));
        assert(cache::shaped(kt, cache.batch, g_count, max_len, width));
        assert(cache::shaped(vt, cache.batch, g_count, max_len, width));
        let rows = self.entering(unit, past, l, (p + 1) as nat);
        let ks = layer.attention.seen(kt, slot, start, len, max_len as int);
        let vs = layer.attention.seen(vt, slot, start, len, max_len as int);
        let kb = layer.keys_between(unit, self.factor(), rows, 0, start, len);
        let vb = layer.values_between(unit, rows, start, len);
        assert forall|g: int| 0 <= g < g_count implies ks[g] == kb[g] by {
            let x = Seq::new(len as nat, |t: int| layer.key_row(unit, self.factor(), rows[start + t], g, 0 + start + t));
            assert forall|t: int| 0 <= t < len implies kt.chunk(
                #[trigger] cache::row_number(slot, g, start + t, g_count as int, max_len as int),
                width as int,
            ) == x[t] by {
                assert(self.row_holds(unit, cache, slot, past, l, g, start + t));
                assert(rows[start + t] == self.state(unit, past, l, start + t));
            }
            attention::slot_span_is_rows(kt, slot, g, start, x, cache.batch, g_count, max_len, width);
        }
        assert forall|g: int| 0 <= g < g_count implies vs[g] == vb[g] by {
            let y = Seq::new(len as nat, |t: int| layer.value_row(unit, rows[start + t], g));
            assert forall|t: int| 0 <= t < len implies vt.chunk(
                #[trigger] cache::row_number(slot, g, start + t, g_count as int, max_len as int),
                width as int,
            ) == y[t] by {
                assert(self.row_holds(unit, cache, slot, past, l, g, start + t));
                assert(rows[start + t] == self.state(unit, past, l, start + t));
            }
            attention::slot_span_is_rows(vt, slot, g, start, y, cache.batch, g_count, max_len, width);
        }
        assert(ks =~= kb);
        assert(vs =~= vb);
    }

    /// One layer of [`Network::run_extends`]: where the rows that enter a layer are those of the
    /// sequence, the layer holds the sequence.
    proof fn layer_extends<F: Fn(Op, &[u32], &[u32], &[u32]) -> Vec<u32>>(
        self,
        unit: F,
        before: KvCache,
        after: KvCache,
        slot: int,
        past: Seq<u32>,
        tokens: Seq<u32>,
        l: int,
    )
        requires
            0 <= l < self.layers.len(),
            self.slot_ran(unit, before, after, slot, tokens, past.len() as int),
            self.holds(unit, before, slot, past),
            past.len() + tokens.len() <= self.config.max_seq_len,
            forall|i: int| 0 <= i < tokens.len() ==> #[trigger] self.slot_state(unit, after, slot, tokens, past.len() as int, l, i) == self.state(
                unit,
                past + tokens,
                l,
                past.len() + i,
            ),
        ensures
            self.layer_holds(unit, after, slot, past + tokens, l),
    {
        let pos = past.len() as int;
        let all = past + tokens;
        assert forall|g: int, p: int| 0 <= g < self.config.kv_heads() && 0 <= p < all.len() implies #[trigger] self.row_holds(unit, after, slot, all, l, g, p) by {
            assert(self.row_ran(unit, before, after, slot, tokens, pos, l, g, p));
            if p < pos {
                self.state_looks_back(unit, past, all, l, p);
                assert(self.row_holds(unit, before, slot, past, l, g, p));
            } else {
                assert(self.slot_state(unit, after, slot, tokens, pos, l, p - pos) == self.state(unit, all, l, pos + (p - pos)));
            }
        }
    }

    /// The rows of a run are those of the sequence, layer by layer.
    proof fn rows_extend<F: Fn(Op, &[u32], &[u32], &[u32]) -> Vec<u32>>(
        self,
        unit: F,
        before: KvCache,
        after: KvCache,
        slot: int,
        past: Seq<u32>,
        tokens: Seq<u32>,
        l: int,
    )
        requires
            self.fits(),
            self.cache_fits(after),
            0 <= slot < after.batch,
            0 <= l <= self.layers.len(),
            self.slot_ran(unit, before, after, slot, tokens, past.len() as int),
            self.holds(unit, before, slot, past),
            past.len() + tokens.len() <= self.config.max_seq_len,
        ensures
            forall|i: int| 0 <= i < tokens.len() ==> #[trigger] self.slot_state(unit, after, slot, tokens, past.len() as int, l, i) == self.state(
                unit,
                past + tokens,
                l,
                past.len() + i,
            ),
        decreases l,
    {
        reveal(Network::state);
        reveal(Network::slot_state);
        let pos = past.len() as int;
        let all = past + tokens;
        if l > 0 {
            self.rows_extend(unit, before, after, slot, past, tokens, l - 1);
            self.layer_extends(unit, before, after, slot, past, tokens, l - 1);
            let layer = self.layers[l - 1];
            assert forall|i: int| 0 <= i < tokens.len() implies #[trigger] self.slot_state(unit, after, slot, tokens, pos, l, i) == self.state(
                unit,
                all,
                l,
                pos + i,
            ) by {
                let start = layer.attention.first_seen(pos + i);
                let len = pos + i + 1 - start;
                assert(self.slot_state(unit, after, slot, tokens, pos, l - 1, i) == self.state(unit, all, l - 1, pos + i));
                self.seen_is_between(unit, after, slot, all, l - 1, pos + i, start, len);
            }
        }
    }

    /// Running a block of tokens against a cache that holds a sequence gives the rows that the
    /// longer sequence has by itself, and leaves a cache that holds the longer sequence.
    pub proof fn run_extends<F: Fn(Op, &[u32], &[u32], &[u32]) -> Vec<u32>>(
        self,
        unit: F,
        before: KvCache,
        after: KvCache,
        slot: int,
        past: Seq<u32>,
        tokens: Seq<u32>,
    )
        requires
            self.fits(),
            self.cache_fits(after),
            0 <= slot < after.batch,
            self.slot_ran(unit, before, after, slot, tokens, past.len() as int),
            self.holds(unit, before, slot, past),
            past.len() + tokens.len() <= self.config.max_seq_len,
        ensures
            self.holds(unit, after, slot, past + tokens),
            forall|i: int| 0 <= i < tokens.len() ==> #[trigger] self.slot_state(
                unit,
                after,
                slot,
                tokens,
                past.len() as int,
                self.layers.len() as int,
                i,
            ) == self.state(unit, past + tokens, self.layers.len() as int, past.len() + i),
    {
        let all = past + tokens;
        self.rows_extend(unit, before, after, slot, past, tokens, self.layers.len() as int);
        assert forall|l: int, g: int, p: int| 0 <= l < self.layers.len() && 0 <= g < self.config.kv_heads() && 0 <= p < all.len() implies #[trigger] self.row_holds(unit, after, slot, all, l, g, p) by {
            self.rows_extend(unit, before, after, slot, past, tokens, l);
            self.layer_extends(unit, before, after, slot, past, tokens, l);
        }
    }

    /// A slot that nothing was written to holds what it held.
    pub proof fn kept_holds<F: Fn(Op, &[u32], &[u32], &[u32]) -> Vec<u32>>(
        self,
        unit: F,
        before: KvCache,
        after: KvCache,
        slot: int,
        past: Seq<u32>,
    )
        requires
            self.slot_kept(before, after, slot),
            self.holds(unit, before, slot, past),
        ensures
            self.holds(unit, after, slot, past),
    {
        assert forall|l: int, g: int, p: int| 0 <= l < self.layers.len() && 0 <= g < self.config.kv_heads() && 0 <= p < past.len() implies #[trigger] self.row_holds(unit, after, slot, past, l, g, p) by {
            assert(row_kept(before, after, l, slot, g, p));
            assert(self.row_holds(unit, before, slot, past, l, g, p));
        }
    }

    /// A cache that holds a sequence holds each of its beginnings.
    pub proof fn beginning_holds<F: Fn(Op, &[u32], &[u32], &[u32]) -> Vec<u32>>(
        self,
        unit: F,
        cache: KvCache,
        slot: int,
        past: Seq<u32>,
        n: int,
    )
        requires
            0 <= n <= past.len(),
            self.holds(unit, cache, slot, past),
        ensures
            self.holds(unit, cache, slot, past.take(n)),
    {
        let short = past.take(n);
        assert forall|l: int, g: int, p: int| 0 <= l < self.layers.len() && 0 <= g < self.config.kv_heads() && 0 <= p < n implies #[trigger] self.row_holds(unit, cache, slot, short, l, g, p) by {
            self.state_looks_back(unit, short, past, l, p);
            assert(self.row_holds(unit, cache, slot, past, l, g, p));
        }
    }

    /// How a sequence is cut into blocks makes no difference: run in two blocks, one after the
    /// other, or in one, its tokens leave the same rows behind.
    pub proof fn blocks_do_not_matter<F: Fn(Op, &[u32], &[u32], &[u32]) -> Vec<u32>>(
        self,
        unit: F,
        before: KvCache,
        mid: KvCache,
        after: KvCache,
        whole: KvCache,
        slot: int,
        past: Seq<u32>,
        first: Seq<u32>,
        second: Seq<u32>,
    )
        requires
            self.fits(),
            self.cache_fits(mid),
            self.cache_fits(after),
            self.cache_fits(whole),
            0 <= slot < mid.batch,
            slot < after.batch,
            slot < whole.batch,
            self.holds(unit, before, slot, past),
            self.slot_ran(unit, before, mid, slot, first, past.len() as int),
            self.slot_ran(unit, mid, after, slot, second, (past + first).len() as int),
            self.slot_ran(unit, before, whole, slot, first + second, past.len() as int),
            past.len() + first.len() + second.len() <= self.config.max_seq_len,
        ensures
            self.holds(unit, after, slot, past + first + second),
            self.holds(unit, whole, slot, past + first + second),
            forall|i: int| 0 <= i < second.len() ==> #[trigger] self.slot_state(
                unit,
                after,
                slot,
                second,
                (past + first).len() as int,
                self.layers.len() as int,
                i,
            ) == self.slot_state(unit, whole, slot, first + second, past.len() as int, self.layers.len() as int, first.len() + i),
    {
        self.run_extends(unit, before, mid, slot, past, first);
        self.run_extends(unit, mid, after, slot, past + first, second);
        self.run_extends(unit, before, whole, slot, past, first + second);
        assert(past + (first + second) =~= past + first + second);
        assert forall|i: int| 0 <= i < second.len() implies #[trigger] self.slot_state(
            unit,
            after,
            slot,
            second,
            (past + first).len() as int,
            self.layers.len() as int,
            i,
        ) == self.slot_state(unit, whole, slot, first + second, past.len() as int, self.layers.len() as int, first.len() + i) by {
            assert(self.slot_state(unit, whole, slot, first + second, past.len() as int, self.layers.len() as int, first.len() + i) == self.state(
                unit,
                past + (first + second),
                self.layers.len() as int,
                past.len() + (first.len() + i),
            ));
        }
    }
}

} // verus!
