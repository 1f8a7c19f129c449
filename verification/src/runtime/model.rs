//! A model: embedding, layers, readout, and the cache that carries a sequence from one call to
//! the next.
use super::cache::KvCache;
use super::config::{ModelConfig, Real};
use super::layers::{Embedding, Linear, RmsNorm};
use super::network;
use super::network::Network;
use super::transformer;
use super::transformer::TransformerLayer;
use super::unit;
use super::unit::Op;
use crate::tensor::rows;
use crate::tensor::shape;
use crate::tensor::tensor;
use crate::tensor::tensor::Tensor;
use crate::tensor::types::DType;
use vstd::prelude::*;

verus! {

/// A model with layers of floats, or with packed layers in their place.
pub struct Model {
    pub config: ModelConfig,
    pub embedding: Embedding,
    /// The table of learned positions, for models that do not rotate.
    pub pos_embedding: Option<Tensor>,
    /// The layers of floats; used while there are no packed ones.
    pub layers: Vec<TransformerLayer>,
    /// The packed layers, if the model has been quantized.
    pub bit_layers: Option<Vec<TransformerLayer>>,
    pub norm: RmsNorm,
    pub lm_head: Linear,
    pub cache: Option<KvCache>,
}

impl Model {
    /// The parts that weights are loaded into.
    pub open spec fn parts(self) -> Network {
        Network {
            config: self.config,
            embedding: self.embedding,
            pos_embedding: self.pos_embedding,
            layers: self.layers@,
            norm: self.norm,
            lm_head: self.lm_head,
        }
    }

    /// The layers that the model runs: the packed ones, if there are any.
    pub open spec fn live(self) -> Seq<TransformerLayer> {
        match self.bit_layers {
            Some(list) => list@,
            None => self.layers@,
        }
    }

    /// The parts that do not change while the model runs.
    pub open spec fn network(self) -> Network {
        Network {
            config: self.config,
            embedding: self.embedding,
            pos_embedding: self.pos_embedding,
            layers: self.live(),
            norm: self.norm,
            lm_head: self.lm_head,
        }
    }

    /// The layers that the model runs.
    pub(crate) fn live_layers(&self) -> (r: &Vec<TransformerLayer>)
        ensures
            r@ == self.live(),
    {
        match &self.bit_layers {
            Some(list) => list,
            None => &self.layers,
        }
    }

    /// Where the positions of a slot end.
    pub open spec fn end(self, slot: int) -> int {
        match self.cache {
            Some(c) => c.seq_lens@[slot] as int,
            None => 0,
        }
    }

    /// The model can run so many more tokens in a slot.
    pub open spec fn ready(self, slot: int, tokens: Seq<u32>) -> bool {
        let net = self.network();
        &&& net.fits()
        &&& net.knows(tokens)
        &&& net.room(tokens.len() as usize)
        &&& self.cache matches Some(c) ==> {
            &&& net.cache_fits(c)
            &&& 0 <= slot < c.batch
            &&& 0 < self.config.max_seq_len
            &&& self.end(slot) + tokens.len() <= self.config.max_seq_len
        }
    }

    /// The rows of tokens at positions that enter the first layer.
    pub(crate) fn embed<F: Fn(Op, &[u32], &[u32], &[u32]) -> Vec<u32>>(&self, tokens: &[u32], positions: &[usize], unit: &F) -> (t: Tensor)
        requires
            unit::lawful(*unit),
            self.network().fits(),
            self.network().knows(tokens@),
            tensor::storable(seq![tokens@.len() as usize, self.config.hidden_size], DType::F32),
            positions@.len() == tokens@.len(),
        ensures
            t@.wf(),
            t@.dtype is F32,
            t@.shape == seq![tokens@.len() as usize, self.config.hidden_size],
            forall|i: int| 0 <= i < tokens@.len() ==> #[trigger] t@.chunk(i, self.config.hidden_size as int) == self.network().entry(
                *unit,
                tokens@[i],
                positions@[i] as int,
            ),
    {
        let ghost net = self.network();
        let rows: Tensor = self.embedding.forward(tokens);
        match &self.pos_embedding {
            None => rows,
            Some(table) => {
                let n: usize = tokens.len();
                let width: usize = self.config.hidden_size;
                let len: usize = match self.config.position_embeddings {
                    Some(len) => len,
                    None => 0,
                };
                let last: usize = if len > 0 { len - 1 } else { 0 };
                let mut flat: Vec<u32> = Vec::new();
                let mut i: usize = 0;
                while i < n
                    invariant
                        net == self.network(),
                        net.fits(),
                        net.pos_embedding == Some(*table),
                        n == positions@.len(),
                        width == net.config.hidden_size,
                        last == net.placed(usize::MAX as int),
                        i <= n,
                        flat@.len() == i * width,
                        forall|a: int| 0 <= a < i ==> #[trigger] rows::row_of(flat@, a, width as int) == table@.chunk(
                            net.placed(positions@[a] as int),
                            width as int,
                        ),
                    decreases n - i,
                {
                    let row_number: usize = if positions[i] < last { positions[i] } else { last };
                    proof {
                        assert(row_number == net.placed(positions@[i as int] as int));
                        assert((row_number + 1) * width <= (last + 1) * width) by (nonlinear_arith)
                            requires
                                row_number <= last,
                        ;
                    }
                    let row: Vec<u32> = table.chunk_lanes(row_number, width);
                    proof {
                        rows::row_added(flat@, row@, i as int, width as int);
                    }
                    rows::push_row(&mut flat, row.as_slice());
                    i = i + 1;
                }
                let places: Tensor = Tensor::from_rows(flat.as_slice(), n, width);
                transformer::pair_rows(Op::Plus, &rows, &places, unit)
            },
        }
    }

    /// Runs the rows of a block through all layers, against a cache whose slot already counts
    /// the block as filled.
    fn run_block<F: Fn(Op, &[u32], &[u32], &[u32]) -> Vec<u32>>(
        &self,
        rows: Tensor,
        cache: &mut KvCache,
        slot: usize,
        pos: usize,
        Ghost(tokens): Ghost<Seq<u32>>,
        unit: &F,
    ) -> (t: Tensor)
        requires
            unit::lawful(*unit),
            self.network().fits(),
            self.network().room(tokens.len() as usize),
            self.network().cache_fits(*old(cache)),
            tokens.len() <= usize::MAX,
            slot < old(cache).batch,
            0 < self.config.max_seq_len,
            pos + tokens.len() <= self.config.max_seq_len,
            old(cache).seq_lens@[slot as int] == pos + tokens.len(),
            rows@.wf(),
            rows@.dtype is F32,
            rows@.shape == seq![tokens.len() as usize, self.config.hidden_size],
            forall|i: int| 0 <= i < tokens.len() ==> #[trigger] rows@.chunk(i, self.config.hidden_size as int) == self.network().entry(
                *unit,
                tokens[i],
                pos + i,
            ),
        ensures
            self.network().cache_fits(*final(cache)),
            final(cache).batch == old(cache).batch,
            final(cache).seq_lens == old(cache).seq_lens,
            self.network().slot_ran(*unit, *old(cache), *final(cache), slot as int, tokens, pos as int),
            forall|b: int| 0 <= b < old(cache).batch && b != slot ==> #[trigger] self.network().slot_kept(*old(cache), *final(cache), b),
            t@.wf(),
            t@.dtype is F32,
            t@.shape == seq![tokens.len() as usize, self.config.hidden_size],
            forall|i: int| 0 <= i < tokens.len() ==> #[trigger] t@.chunk(i, self.config.hidden_size as int) == self.network().slot_state(
                *unit,
                *final(cache),
                slot as int,
                tokens,
                pos as int,
                self.live().len() as int,
                i,
            ),
    {
        let ghost net = self.network();
        let ghost before = *cache;
        let ghost k = self.config.hidden_size as int;
        let factor: Real = self.config.rope_factor();
        let layers: &Vec<TransformerLayer> = self.live_layers();
        let count: usize = layers.len();
        let mut hidden: Tensor = rows;
        proof {
            reveal(Network::state);
            reveal(Network::slot_state);
        }
        let mut l: usize = 0;
        while l < count
            invariant
                unit::lawful(*unit),
                net == self.network(),
                net.fits(),
                net.room(tokens.len() as usize),
                net.cache_fits(*cache),
                net.cache_fits(before),
                k == self.config.hidden_size,
                factor == net.factor(),
                count == layers@.len(),
                layers@ == net.layers,
                l <= count,
                tokens.len() <= usize::MAX,
                slot < cache.batch,
                cache.batch == before.batch,
                cache.seq_lens == before.seq_lens,
                0 < self.config.max_seq_len,
                pos + tokens.len() <= self.config.max_seq_len,
                before.seq_lens@[slot as int] == pos + tokens.len(),
                hidden@.wf(),
                hidden@.dtype is F32,
                hidden@.shape == seq![tokens.len() as usize, self.config.hidden_size],
                net.rows_enter(*unit, *cache, slot as int, tokens, pos as int, l as int, hidden@),
                net.ran_below(*unit, before, *cache, slot as int, tokens, pos as int, l as int),
            decreases count - l,
        {
            let ghost mid = *cache;
            let ghost entering = hidden@;
            proof {
                assert(net.layer_fits(net.layers[l as int]));
                assert(net.layers[l as int].room(tokens.len() as usize));
            }
            hidden = layers[l].forward_gpu(&hidden, cache, l, slot, pos, factor, unit);
            proof {
                net.rows_leave(*unit, mid, *cache, slot as int, tokens, pos as int, l as int, entering, hidden@);
                net.layer_ran(*unit, before, mid, *cache, slot as int, tokens, pos as int, l as int, entering, hidden@);
            }
            l = l + 1;
        }
        assert forall|b: int| 0 <= b < old(cache).batch && b != slot implies #[trigger] net.slot_kept(before, *cache, b) by {
            assert forall|j: int, g: int, p: int|
                0 <= j < net.layers.len() && 0 <= g < net.config.kv_heads() && 0 <= p
                    < net.config.max_seq_len implies #[trigger] network::row_kept(before, *cache, j, b, g, p) by {}
        }
        hidden
    }

    /// Runs one row for each of the first slots through all layers, against a cache whose slots
    /// already count them as filled.
    fn run_batch<F: Fn(Op, &[u32], &[u32], &[u32]) -> Vec<u32>>(
        &self,
        rows: Tensor,
        cache: &mut KvCache,
        tokens: &[u32],
        positions: &[usize],
        unit: &F,
    ) -> (t: Tensor)
        requires
            unit::lawful(*unit),
            self.network().fits(),
            self.network().room(tokens@.len() as usize),
            self.network().cache_fits(*old(cache)),
            0 < self.config.max_seq_len,
            positions@.len() == tokens@.len(),
            tokens@.len() <= old(cache).batch,
            forall|b: int| 0 <= b < tokens@.len() ==> #[trigger] positions@[b] < self.config.max_seq_len,
            forall|b: int| 0 <= b < tokens@.len() ==> #[trigger] old(cache).seq_lens@[b] == positions@[b] + 1,
            rows@.wf(),
            rows@.dtype is F32,
            rows@.shape == seq![tokens@.len() as usize, self.config.hidden_size],
            forall|b: int| 0 <= b < tokens@.len() ==> #[trigger] rows@.chunk(b, self.config.hidden_size as int) == self.network().entry(
                *unit,
                tokens@[b],
                positions@[b] as int,
            ),
        ensures
            self.network().batch_ran_below(*unit, *old(cache), *final(cache), tokens@, positions@, self.live().len() as int),
            t@.wf(),
            t@.dtype is F32,
            t@.shape == seq![tokens@.len() as usize, self.config.hidden_size],
            self.network().batch_enters(*unit, *final(cache), tokens@, positions@, self.live().len() as int, t@),
    {
        let ghost net = self.network();
        let ghost before = *cache;
        let factor: Real = self.config.rope_factor();
        let layers: &Vec<TransformerLayer> = self.live_layers();
        let count: usize = layers.len();
        let mut hidden: Tensor = rows;
        proof {
            reveal(Network::state);
            reveal(Network::slot_state);
        }
        let mut l: usize = 0;
        while l < count
            invariant
                unit::lawful(*unit),
                net == self.network(),
                net.fits(),
                net.room(tokens@.len() as usize),
                factor == net.factor(),
                count == layers@.len(),
                layers@ == net.layers,
                l <= count,
                0 < self.config.max_seq_len,
                positions@.len() == tokens@.len(),
                tokens@.len() <= before.batch,
                forall|b: int| 0 <= b < tokens@.len() ==> #[trigger] positions@[b] < self.config.max_seq_len,
                forall|b: int| 0 <= b < tokens@.len() ==> #[trigger] before.seq_lens@[b] == positions@[b] + 1,
                hidden@.wf(),
                hidden@.dtype is F32,
                hidden@.shape == seq![tokens@.len() as usize, self.config.hidden_size],
                net.batch_enters(*unit, *cache, tokens@, positions@, l as int, hidden@),
                net.batch_ran_below(*unit, before, *cache, tokens@, positions@, l as int),
            decreases count - l,
        {
            let ghost mid = *cache;
            let ghost entering = hidden@;
            proof {
                assert(net.layer_fits(net.layers[l as int]));
                assert(net.layers[l as int].room(tokens@.len() as usize));
                assert(tokens.len() == tokens@.len());
            }
            hidden = layers[l].forward_batch_gpu(&hidden, cache, l, positions, factor, unit);
            proof {
                net.batch_leaves(*unit, mid, *cache, tokens@, positions@, l as int, entering, hidden@);
                net.batch_layer_ran(*unit, before, mid, *cache, tokens@, positions@, l as int, entering, hidden@);
            }
            l = l + 1;
        }
        hidden
    }

    /// The scores of the next token for each row that leaves the last layer.
    fn read_out<F: Fn(Op, &[u32], &[u32], &[u32]) -> Vec<u32>>(&self, rows: &Tensor, unit: &F) -> (t: Tensor)
        requires
            unit::lawful(*unit),
            self.network().fits(),
            rows@.wf(),
            rows@.dtype is F32,
            rows@.shape.len() == 2,
            rows@.shape[1] == self.config.hidden_size,
            self.network().room(rows@.shape[0]),
        ensures
            t@.wf(),
            t@.dtype is F32,
            t@.shape == seq![rows@.shape[0], self.lm_head.weight@.shape[0]],
            forall|i: int| 0 <= i < rows@.shape[0] ==> #[trigger] t@.chunk(i, self.network().scores()) == self.network().scored(
                *unit,
                rows@.chunk(i, self.network().hidden()),
            ),
    {
        let ghost net = self.network();
        let logits: Tensor = self.lm_head.forward(rows, unit);
        proof {
            assert forall|i: int| 0 <= i < rows@.shape[0] implies #[trigger] logits@.chunk(i, net.scores()) == net.lm_head.sole_image(
                *unit,
                rows@.chunk(i, net.hidden()),
            ) by {
                net.lm_head.image_is_sole(*unit, rows@.chunk(i, net.hidden()), i, net.hidden(), net.scores());
            }
        }
        self.apply_final_softcap(logits, unit)
    }

    /// Limits the scores softly, where the model has a limit.
    fn apply_final_softcap<F: Fn(Op, &[u32], &[u32], &[u32]) -> Vec<u32>>(&self, logits: Tensor, unit: &F) -> (t: Tensor)
        requires
            unit::lawful(*unit),
            logits@.wf(),
            logits@.dtype is F32,
            logits@.shape.len() == 2,
        ensures
            t@.wf(),
            t@.dtype is F32,
            t@.shape == logits@.shape,
            forall|i: int| 0 <= i < logits@.shape[0] ==> #[trigger] t@.chunk(i, logits@.shape[1] as int) == (match self.config.final_logit_softcap {
                Some(cap) => unit::value(*unit, Op::Softcap { cap }, logits@.chunk(i, logits@.shape[1] as int), Seq::empty(), Seq::empty()),
                None => logits@.chunk(i, logits@.shape[1] as int),
            }),
    {
        match self.config.final_logit_softcap {
            Some(cap) => transformer::each_row(Op::Softcap { cap }, &logits, unit),
            None => logits,
        }
    }

    /// Runs one row of each of some sequences through all layers without a cache.
    fn run_batch_alone<F: Fn(Op, &[u32], &[u32], &[u32]) -> Vec<u32>>(&self, rows: Tensor, tokens: &[u32], positions: &[usize], unit: &F) -> (t: Tensor)
        requires
            unit::lawful(*unit),
            self.network().fits(),
            self.network().room(tokens@.len() as usize),
            positions@.len() == tokens@.len(),
            rows@.wf(),
            rows@.dtype is F32,
            rows@.shape == seq![tokens@.len() as usize, self.config.hidden_size],
            forall|b: int| 0 <= b < tokens@.len() ==> #[trigger] rows@.chunk(b, self.config.hidden_size as int) == self.network().entry(
                *unit,
                tokens@[b],
                positions@[b] as int,
            ),
        ensures
            t@.wf(),
            t@.dtype is F32,
            t@.shape == seq![tokens@.len() as usize, self.config.hidden_size],
            forall|b: int| 0 <= b < tokens@.len() ==> #[trigger] t@.chunk(b, self.config.hidden_size as int) == self.network().lone_state(
                *unit,
                tokens@[b],
                positions@[b] as int,
                self.live().len() as int,
            ),
    {
        let ghost net = self.network();
        let ghost k = net.hidden();
        let factor: Real = self.config.rope_factor();
        let layers: &Vec<TransformerLayer> = self.live_layers();
        let count: usize = layers.len();
        let mut hidden: Tensor = rows;
        proof {
            assert(tokens.len() == tokens@.len());
            reveal(Network::lone_state);
        }
        let mut l: usize = 0;
        while l < count
            invariant
                unit::lawful(*unit),
                net == self.network(),
                net.fits(),
                net.room(tokens@.len() as usize),
                positions@.len() == tokens@.len(),
                tokens@.len() <= usize::MAX,
                k == net.hidden(),
                factor == net.factor(),
                count == layers@.len(),
                layers@ == net.layers,
                l <= count,
                hidden@.wf(),
                hidden@.dtype is F32,
                hidden@.shape == seq![tokens@.len() as usize, self.config.hidden_size],
                forall|b: int| 0 <= b < tokens@.len() ==> #[trigger] hidden@.chunk(b, k) == net.lone_state(
                    *unit,
                    tokens@[b],
                    positions@[b] as int,
                    l as int,
                ),
            decreases count - l,
        {
            let ghost entering = hidden@;
            proof {
                assert(net.layer_fits(net.layers[l as int]));
                assert(net.layers[l as int].room(tokens@.len() as usize));
            }
            let next: Tensor = layers[l].forward_batch_alone(&hidden, positions, factor, unit);
            proof {
                reveal(Network::lone_state);
                assert forall|b: int| 0 <= b < tokens@.len() implies #[trigger] next@.chunk(b, k) == net.lone_state(
                    *unit,
                    tokens@[b],
                    positions@[b] as int,
                    l + 1,
                ) by {
                    assert(entering.chunk(b, k) == net.lone_state(*unit, tokens@[b], positions@[b] as int, l as int));
                }
            }
            hidden = next;
            l = l + 1;
        }
        hidden
    }

    /// Runs the rows of a block through all layers without a cache.
    fn run_alone<F: Fn(Op, &[u32], &[u32], &[u32]) -> Vec<u32>>(&self, rows: Tensor, Ghost(tokens): Ghost<Seq<u32>>, unit: &F) -> (t: Tensor)
        requires
            unit::lawful(*unit),
            self.network().fits(),
            self.network().room(tokens.len() as usize),
            tokens.len() <= usize::MAX,
            rows@.wf(),
            rows@.dtype is F32,
            rows@.shape == seq![tokens.len() as usize, self.config.hidden_size],
            forall|i: int| 0 <= i < tokens.len() ==> #[trigger] rows@.chunk(i, self.config.hidden_size as int) == self.network().entry(
                *unit,
                tokens[i],
                i,
            ),
        ensures
            t@.wf(),
            t@.dtype is F32,
            t@.shape == seq![tokens.len() as usize, self.config.hidden_size],
            forall|i: int| 0 <= i < tokens.len() ==> #[trigger] t@.chunk(i, self.config.hidden_size as int) == self.network().state(
                *unit,
                tokens,
                self.live().len() as int,
                i,
            ),
    {
        let ghost net = self.network();
        let ghost k = net.hidden();
        let factor: Real = self.config.rope_factor();
        let layers: &Vec<TransformerLayer> = self.live_layers();
        let count: usize = layers.len();
        let mut hidden: Tensor = rows;
        proof {
            reveal(Network::state);
            reveal(Network::slot_state);
        }
        let mut l: usize = 0;
        while l < count
            invariant
                unit::lawful(*unit),
                net == self.network(),
                net.fits(),
                net.room(tokens.len() as usize),
                k == net.hidden(),
                factor == net.factor(),
                count == layers@.len(),
                layers@ == net.layers,
                l <= count,
                tokens.len() <= usize::MAX,
                hidden@.wf(),
                hidden@.dtype is F32,
                hidden@.shape == seq![tokens.len() as usize, self.config.hidden_size],
                forall|i: int| 0 <= i < tokens.len() ==> #[trigger] hidden@.chunk(i, k) == net.state(
                    *unit,
                    tokens,
                    l as int,
                    i,
                ),
            decreases count - l,
        {
            let ghost entering = hidden@;
            proof {
                assert(net.layer_fits(net.layers[l as int]));
                assert(net.layers[l as int].room(tokens.len() as usize));
            }
            hidden = layers[l].forward_alone(&hidden, 0, factor, unit);
            proof {
                net.alone_leaves(*unit, tokens, l as int, entering, hidden@);
            }
            l = l + 1;
        }
        hidden
    }

    /// The row that leaves the last layer for token `i` of a block: the row of the run against
    /// the cache, or, where there is none, the row of the block by itself.
    pub open spec fn last_row<F: Fn(Op, &[u32], &[u32], &[u32]) -> Vec<u32>>(
        self,
        unit: F,
        slot: int,
        tokens: Seq<u32>,
        after: Option<KvCache>,
        i: int,
    ) -> Seq<u32> {
        let net = self.network();
        match after {
            Some(c) => net.slot_state(unit, c, slot, tokens, self.end(slot), net.layers.len() as int, i),
            None => net.state(unit, tokens, net.layers.len() as int, i),
        }
    }

    /// The model after a block was run in a slot: only the cache is another.
    pub open spec fn stepped<F: Fn(Op, &[u32], &[u32], &[u32]) -> Vec<u32>>(self, unit: F, after: Self, slot: int, tokens: Seq<u32>) -> bool {
        &&& after.network() == self.network()
        &&& after.layers == self.layers
        &&& after.bit_layers == self.bit_layers
        &&& match (self.cache, after.cache) {
            (Some(c), Some(d)) => self.network().advanced(unit, c, d, slot, tokens),
            (None, None) => true,
            _ => false,
        }
    }

    /// Runs a block of tokens in a slot and normalizes the rows that come out.
    fn forward_normed<F: Fn(Op, &[u32], &[u32], &[u32]) -> Vec<u32>>(&mut self, token_ids: &[u32], slot: usize, unit: &F) -> (t: Tensor)
        requires
            unit::lawful(*unit),
            old(self).ready(slot as int, token_ids@),
        ensures
            old(self).stepped(*unit, *final(self), slot as int, token_ids@),
            t@.wf(),
            t@.dtype is F32,
            t@.shape == seq![token_ids@.len() as usize, old(self).config.hidden_size],
            forall|i: int| 0 <= i < token_ids@.len() ==> #[trigger] t@.chunk(i, old(self).network().hidden()) == old(self).norm.image(
                *unit,
                old(self).last_row(*unit, slot as int, token_ids@, final(self).cache, i),
            ),
    {
        let ghost start = *self;
        let ghost net = self.network();
        let n: usize = token_ids.len();
        let pos: usize = match &self.cache {
            Some(c) => c.seq_len(slot),
            None => 0,
        };
        proof {
            assert(n == token_ids@.len());
        }
        let mut positions: Vec<usize> = Vec::new();
        let mut i: usize = 0;
        while i < n
            invariant
                i <= n,
                pos + n <= usize::MAX,
                positions@.len() == i,
                forall|j: int| 0 <= j < i ==> #[trigger] positions@[j] == pos + j,
            decreases n - i,
        {
            positions.push(pos + i);
            i = i + 1;
        }
        let rows: Tensor = self.embed(token_ids, positions.as_slice(), unit);
        let out: Tensor = match self.cache.take() {
            Some(mut cache) => {
                let ghost before = cache;
                cache.reserve(slot, pos, n);
                let ghost reserved = cache;
                proof {
                    assert(self.network() == net);
                    assert(net.cache_fits(reserved));
                }
                let out: Tensor = self.run_block(rows, &mut cache, slot, pos, Ghost(token_ids@), unit);
                proof {
                    net.slot_ran_from(*unit, reserved, before, cache, slot as int, token_ids@, pos as int);
                    assert forall|b: int| 0 <= b < before.batch && b != slot implies #[trigger] net.slot_kept(before, cache, b) by {
                        net.slot_kept_from(reserved, before, cache, b);
                    }
                    assert(net.advanced(*unit, before, cache, slot as int, token_ids@));
                }
                self.cache = Some(cache);
                out
            },
            None => self.run_alone(rows, Ghost(token_ids@), unit),
        };
        proof {
            assert(self.network() == net);
            shape::product_two(n, self.config.hidden_size);
            vstd::arithmetic::div_mod::lemma_div_by_multiple(n as int, self.config.hidden_size as int);
        }
        self.norm.forward(&out, unit)
    }

    /// Runs a block of tokens in a slot and gives the normalized rows from which the scores are
    /// read.
    pub fn forward_hidden<F: Fn(Op, &[u32], &[u32], &[u32]) -> Vec<u32>>(&mut self, token_ids: &[u32], slot: usize, unit: &F) -> (t: Tensor)
        requires
            unit::lawful(*unit),
            old(self).ready(slot as int, token_ids@),
        ensures
            old(self).stepped(*unit, *final(self), slot as int, token_ids@),
            t@.wf(),
            t@.dtype is F32,
            t@.shape == seq![token_ids@.len() as usize, old(self).config.hidden_size],
            forall|i: int| 0 <= i < token_ids@.len() ==> #[trigger] t@.chunk(i, old(self).network().hidden()) == old(self).norm.image(
                *unit,
                old(self).last_row(*unit, slot as int, token_ids@, final(self).cache, i),
            ),
    {
        self.forward_normed(token_ids, slot, unit)
    }

    /// Runs a block of tokens in a slot and gives the scores of the token after each of them.
    pub fn forward_slot<F: Fn(Op, &[u32], &[u32], &[u32]) -> Vec<u32>>(&mut self, token_ids: &[u32], slot: usize, unit: &F) -> (t: Tensor)
        requires
            unit::lawful(*unit),
            old(self).ready(slot as int, token_ids@),
        ensures
            old(self).stepped(*unit, *final(self), slot as int, token_ids@),
            t@.wf(),
            t@.dtype is F32,
            t@.shape == seq![token_ids@.len() as usize, old(self).lm_head.weight@.shape[0]],
            forall|i: int| 0 <= i < token_ids@.len() ==> #[trigger] t@.chunk(i, old(self).network().scores()) == old(self).network().logits(
                *unit,
                old(self).last_row(*unit, slot as int, token_ids@, final(self).cache, i),
            ),
    {
        let ghost net = self.network();
        let ghost first = *self;
        let normed: Tensor = self.forward_normed(token_ids, slot, unit);
        let t: Tensor = self.read_out(&normed, unit);
        proof {
            assert(token_ids.len() == token_ids@.len());
            assert forall|i: int| 0 <= i < token_ids@.len() implies #[trigger] t@.chunk(i, net.scores()) == net.logits(
                *unit,
                first.last_row(*unit, slot as int, token_ids@, self.cache, i),
            ) by {
                assert(t@.chunk(i, net.scores()) == net.scored(*unit, normed@.chunk(i, net.hidden())));
                assert(normed@.chunk(i, net.hidden()) == net.norm.image(*unit, first.last_row(*unit, slot as int, token_ids@, self.cache, i)));
            }
        }
        t
    }

    /// Runs a block of tokens in the first slot and gives the scores of the token after each.
    pub fn forward<F: Fn(Op, &[u32], &[u32], &[u32]) -> Vec<u32>>(&mut self, token_ids: &[u32], unit: &F) -> (t: Tensor)
        requires
            unit::lawful(*unit),
            old(self).ready(0, token_ids@),
        ensures
            old(self).stepped(*unit, *final(self), 0, token_ids@),
            t@.wf(),
            t@.dtype is F32,
            t@.shape == seq![token_ids@.len() as usize, old(self).lm_head.weight@.shape[0]],
            forall|i: int| 0 <= i < token_ids@.len() ==> #[trigger] t@.chunk(i, old(self).network().scores()) == old(self).network().logits(
                *unit,
                old(self).last_row(*unit, 0, token_ids@, final(self).cache, i),
            ),
    {
        self.forward_slot(token_ids, 0, unit)
    }

    /// The model can run one token in each of the first slots, each at its own position.
    pub open spec fn ready_batch(self, tokens: Seq<u32>, positions: Seq<usize>) -> bool {
        let net = self.network();
        &&& net.fits()
        &&& net.knows(tokens)
        &&& net.room(tokens.len() as usize)
        &&& 0 < self.config.max_seq_len
        &&& positions.len() == tokens.len()
        &&& forall|b: int| 0 <= b < tokens.len() ==> #[trigger] positions[b] < self.config.max_seq_len
        &&& self.cache matches Some(c) ==> net.cache_fits(c) && tokens.len() <= c.batch
    }

    /// The model after one token was run in each of the first slots: only the cache is another,
    /// where there is one.
    pub open spec fn stepped_batch<F: Fn(Op, &[u32], &[u32], &[u32]) -> Vec<u32>>(
        self,
        unit: F,
        after: Self,
        tokens: Seq<u32>,
        positions: Seq<usize>,
    ) -> bool {
        &&& after.network() == self.network()
        &&& after.layers == self.layers
        &&& after.bit_layers == self.bit_layers
        &&& after.cache is Some <==> self.cache is Some
        &&& self.cache matches Some(c) ==> self.network().batch_advanced(unit, c, after.cache.unwrap(), tokens, positions)
    }

    /// The row that leaves the last layer for the token of a slot that was run with others,
    /// given the cache that the run left behind. Without a cache the token sees only itself.
    pub open spec fn batch_row<F: Fn(Op, &[u32], &[u32], &[u32]) -> Vec<u32>>(
        self,
        unit: F,
        token: u32,
        position: int,
        after: Option<KvCache>,
        b: int,
    ) -> Seq<u32> {
        let net = self.network();
        match after {
            Some(c) => net.slot_state(unit, c, b, seq![token], position, net.layers.len() as int, 0),
            None => net.lone_state(unit, token, position, net.layers.len() as int),
        }
    }

    /// Runs one token in each of the first slots, written at its own position, and gives the
    /// scores of the next token of each slot. Without a cache each token sees only itself.
    pub fn forward_batch_decode<F: Fn(Op, &[u32], &[u32], &[u32]) -> Vec<u32>>(
        &mut self,
        next_tokens: &[u32],
        positions: &[usize],
        unit: &F,
    ) -> (t: Tensor)
        requires
            unit::lawful(*unit),
            old(self).ready_batch(next_tokens@, positions@),
        ensures
            old(self).stepped_batch(*unit, *final(self), next_tokens@, positions@),
            t@.wf(),
            t@.dtype is F32,
            t@.shape == seq![next_tokens@.len() as usize, old(self).lm_head.weight@.shape[0]],
            forall|b: int| 0 <= b < next_tokens@.len() ==> #[trigger] t@.chunk(b, old(self).network().scores()) == old(self).network().logits(
                *unit,
                old(self).batch_row(*unit, next_tokens@[b], positions@[b] as int, final(self).cache, b),
            ),
    {
        let ghost net = self.network();
        let n: usize = next_tokens.len();
        proof {
            assert(n == next_tokens@.len());
        }
        let rows: Tensor = self.embed(next_tokens, positions, unit);
        let ghost first = *self;
        let out: Tensor = match self.cache.take() {
            Some(mut cache) => {
                let ghost before = cache;
                let mut b: usize = 0;
                while b < n
                    invariant
                        n == next_tokens@.len(),
                        positions@.len() == n,
                        n <= before.batch,
                        net.cache_fits(before),
                        forall|j: int| 0 <= j < n ==> #[trigger] positions@[j] < net.config.max_seq_len,
                        b <= n,
                        cache.k == before.k,
                        cache.v == before.v,
                        cache.batch == before.batch,
                        cache.seq_lens@.len() == before.batch,
                        forall|j: int| 0 <= j < b ==> #[trigger] cache.seq_lens@[j] == positions@[j] + 1,
                        forall|j: int| b <= j < before.batch ==> #[trigger] cache.seq_lens@[j] == before.seq_lens@[j],
                    decreases n - b,
                {
                    cache.reserve(b, positions[b], 1);
                    b = b + 1;
                }
                let ghost reserved = cache;
                proof {
                    assert(self.network() == net);
                    assert(net.cache_fits(reserved));
                }
                let out: Tensor = self.run_batch(rows, &mut cache, next_tokens, positions, unit);
                proof {
                    net.batch_done(*unit, before, reserved, cache, next_tokens@, positions@);
                }
                self.cache = Some(cache);
                out
            },
            None => self.run_batch_alone(rows, next_tokens, positions, unit),
        };
        proof {
            assert(self.network() == net);
            shape::product_two(n, self.config.hidden_size);
            vstd::arithmetic::div_mod::lemma_div_by_multiple(n as int, self.config.hidden_size as int);
        }
        let normed: Tensor = self.norm.forward(&out, unit);
        let t: Tensor = self.read_out(&normed, unit);
        proof {
            assert forall|b: int| 0 <= b < next_tokens@.len() implies #[trigger] t@.chunk(b, net.scores()) == net.logits(
                *unit,
                first.batch_row(*unit, next_tokens@[b], positions@[b] as int, self.cache, b),
            ) by {
                assert(t@.chunk(b, net.scores()) == net.scored(*unit, normed@.chunk(b, net.hidden())));
                assert(normed@.chunk(b, net.hidden()) == net.norm.image(*unit, out@.chunk(b, net.hidden())));
            }
        }
        t
    }

    /// The positions at which the first slots end.
    pub open spec fn ends(self, n: nat) -> Seq<usize> {
        Seq::new(n, |b: int| self.end(b) as usize)
    }

    /// Runs one token in each of the first slots, each where its slot ends, and gives the scores
    /// of the next token of each slot.
    pub fn decode_batch<F: Fn(Op, &[u32], &[u32], &[u32]) -> Vec<u32>>(&mut self, tokens: &[u32], unit: &F) -> (t: Tensor)
        requires
            unit::lawful(*unit),
            old(self).ready_batch(tokens@, old(self).ends(tokens@.len())),
        ensures
            old(self).stepped_batch(*unit, *final(self), tokens@, old(self).ends(tokens@.len())),
            t@.wf(),
            t@.dtype is F32,
            t@.shape == seq![tokens@.len() as usize, old(self).lm_head.weight@.shape[0]],
            forall|b: int| 0 <= b < tokens@.len() ==> #[trigger] t@.chunk(b, old(self).network().scores()) == old(self).network().logits(
                *unit,
                old(self).batch_row(*unit, tokens@[b], old(self).end(b), final(self).cache, b),
            ),
    {
        let n: usize = tokens.len();
        let ghost first = *self;
        let mut positions: Vec<usize> = Vec::new();
        let mut b: usize = 0;
        while b < n
            invariant
                *self == first,
                first.ready_batch(tokens@, first.ends(tokens@.len())),
                n == tokens@.len(),
                b <= n,
                positions@ == first.ends(tokens@.len()).take(b as int),
            decreases n - b,
        {
            let len: usize = match &self.cache {
                Some(c) => c.seq_len(b),
                None => 0,
            };
            positions.push(len);
            b = b + 1;
            assert(positions@ =~= first.ends(tokens@.len()).take(b as int));
        }
        assert(positions@ =~= first.ends(tokens@.len()));
        self.forward_batch_decode(tokens, positions.as_slice(), unit)
    }

    /// Counts nothing in the cache as filled.
    pub fn clear_cache(&mut self)
        ensures
            final(self).network() == old(self).network(),
            final(self).layers == old(self).layers,
            final(self).bit_layers == old(self).bit_layers,
            match (old(self).cache, final(self).cache) {
                (Some(c), Some(d)) => {
                    &&& d.k == c.k
                    &&& d.v == c.v
                    &&& d.batch == c.batch
                    &&& d.seq_lens@.len() == c.seq_lens@.len()
                    &&& forall|s: int| 0 <= s < c.seq_lens@.len() ==> #[trigger] d.seq_lens@[s] == 0
                },
                (None, None) => true,
                _ => false,
            },
    {
        let taken: Option<KvCache> = self.cache.take();
        match taken {
            Some(mut cache) => {
                cache.clear();
                self.cache = Some(cache);
            },
            None => {},
        }
    }

    /// An empty cache for so many sequences can be stored.
    pub open spec fn cache_storable(self, batch: usize) -> bool {
        tensor::storable(seq![batch, self.config.kv_heads(), self.config.max_seq_len, self.config.head_width()], DType::F32)
    }

    /// A cache for so many sequences with nothing filled in it.
    pub open spec fn fresh_cache(self, batch: usize) -> bool {
        self.cache matches Some(c) && {
            &&& c.wf(self.config.kv_heads(), self.config.max_seq_len, self.config.head_width())
            &&& c.batch == batch
            &&& forall|s: int| 0 <= s < batch ==> #[trigger] c.seq_lens@[s] == 0
        }
    }

    /// The cache is one for so many sequences with nothing filled in it: the one from before, where
    /// that was for as many, and else a new one.
    pub open spec fn recached(self, batch: usize, after: Self) -> bool {
        &&& after.fresh_cache(batch)
        &&& if self.cache is Some && self.cache.unwrap().batch == batch {
            after.cache.unwrap().k == self.cache.unwrap().k && after.cache.unwrap().v == self.cache.unwrap().v
        } else {
            after.cache.unwrap().k@.len() == self.config.num_layers && after.cache.unwrap().zeroed()
        }
    }

    /// Makes the cache one for `batch` sequences with nothing filled in it.
    pub fn ensure_cache_batch(&mut self, batch: usize)
        requires
            old(self).cache_storable(batch),
            old(self).config.num_heads > 0,
            old(self).cache matches Some(c) ==> c.wf(
                old(self).config.kv_heads(),
                old(self).config.max_seq_len,
                old(self).config.head_width(),
            ),
        ensures
            final(self).network() == old(self).network(),
            final(self).layers == old(self).layers,
            final(self).bit_layers == old(self).bit_layers,
            old(self).recached(batch, *final(self)),
    {
        let reusable: bool = match &self.cache {
            Some(c) => c.batch == batch,
            None => false,
        };
        if reusable {
            self.clear_cache();
        } else {
            self.cache = Some(
                KvCache::new(self.config.num_layers, batch, self.config.max_seq_len, self.config.num_kv_heads(), self.config.head_dim()),
            );
        }
    }

    /// Makes the cache one for `capacity` sequences, or for one if there are to be none, with
    /// nothing filled in it.
    pub fn reserve_cache_batch(&mut self, capacity: usize)
        requires
            old(self).cache_storable(if capacity > 1 { capacity } else { 1 }),
            old(self).config.num_heads > 0,
            old(self).cache matches Some(c) ==> c.wf(
                old(self).config.kv_heads(),
                old(self).config.max_seq_len,
                old(self).config.head_width(),
            ),
        ensures
            final(self).network() == old(self).network(),
            final(self).layers == old(self).layers,
            final(self).bit_layers == old(self).bit_layers,
            old(self).recached(if capacity > 1 { capacity } else { 1 }, *final(self)),
    {
        let batch: usize = if capacity > 1 { capacity } else { 1 };
        self.ensure_cache_batch(batch);
    }

    /// Counts no more than `len` positions of a slot as filled.
    pub fn truncate_cache(&mut self, slot: usize, len: usize)
        requires
            old(self).cache matches Some(c) ==> slot < c.seq_lens@.len(),
        ensures
            final(self).network() == old(self).network(),
            final(self).layers == old(self).layers,
            final(self).bit_layers == old(self).bit_layers,
            match (old(self).cache, final(self).cache) {
                (Some(c), Some(d)) => {
                    &&& d.k == c.k
                    &&& d.v == c.v
                    &&& d.batch == c.batch
                    &&& d.seq_lens@ == c.seq_lens@.update(
                        slot as int,
                        if len < c.seq_lens@[slot as int] { len } else { c.seq_lens@[slot as int] },
                    )
                },
                (None, None) => true,
                _ => false,
            },
    {
        let taken: Option<KvCache> = self.cache.take();
        match taken {
            Some(mut cache) => {
                cache.truncate(slot, len);
                self.cache = Some(cache);
            },
            None => {},
        }
    }
}

} // verus!
