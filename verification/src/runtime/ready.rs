//! Whether a model can run what it is given.
//!
//! The functions that run a model ask for parts that fit together, tokens that are known and room
//! in the cache. Here each of these is put to the test.
use super::attention::Attention;
use super::cache::KvCache;
use super::heads;
use super::layers::{Linear, NormKind, RmsNorm};
use super::model::Model;
use super::transformer::TransformerLayer;
use super::config::Activation;
use crate::tensor::shape;
use crate::tensor::tensor;
use crate::tensor::tensor::Tensor;
use crate::tensor::types::DType;
use vstd::prelude::*;

verus! {

/// Whether a product is no greater than a number.
fn test_product(a: usize, b: usize, limit: usize) -> (r: bool)
    ensures
        r == (a * b <= limit),
{
    match a.checked_mul(b) {
        Some(n) => n <= limit,
        None => false,
    }
}

/// Whether a matrix of floats can be stored.
fn test_matrix(rows: usize, columns: usize) -> (r: bool)
    ensures
        r == tensor::storable(seq![rows, columns], DType::F32),
{
    proof {
        shape::product_two(rows, columns);
    }
    match rows.checked_mul(columns) {
        Some(n) => n <= usize::MAX / 32,
        None => false,
    }
}

/// Whether a shape is a row of this width.
fn test_row(dims: &[usize], width: usize) -> (r: bool)
    ensures
        r == (dims@ == seq![width]),
{
    let r: bool = dims.len() == 1 && dims[0] == width;
    assert(r ==> dims@ =~= seq![width]);
    r
}

impl Tensor {
    /// Whether the storage is as long as the shape and the element type ask for.
    pub fn test_wf(&self) -> (r: bool)
        ensures
            r == self@.wf(),
    {
        let n: usize = match shape::checked_count(self.shape()) {
            Some(n) => n,
            None => {
                assert(self@.count() * self@.dtype.width() >= self@.count()) by (nonlinear_arith)
                    requires
                        self@.dtype.width() >= 1,
                ;
                return false;
            },
        };
        match self.dtype() {
            DType::F32 => n <= usize::MAX / 32 && self.nbytes() == 4 * n,
            DType::BIT1 => self.nbytes() == n / 8 + (if n % 8 == 0 { 0 } else { 1 }),
        }
    }

    /// Whether the tensor is one of floats, with as many elements as are asked for.
    fn test_floats(&self, least: usize) -> (r: bool)
        ensures
            r == (self@.wf() && self@.dtype is F32 && least <= self@.count()),
    {
        self.test_wf() && matches!(self.dtype(), DType::F32) && {
            proof {
                self@.sizes();
            }
            least <= self.num_elements()
        }
    }
}

impl Linear {
    /// Whether the map takes rows of width `k` to rows of width `n`, all with the same bias.
    pub fn test_maps(&self, k: usize, n: usize) -> (r: bool)
        ensures
            r == self.maps(k as int, n as int),
    {
        if !self.weight.test_wf() {
            return false;
        }
        proof {
            self.weight@.sizes();
        }
        let typed: bool = match (&self.bits, self.weight.dtype()) {
            (Some(_), DType::BIT1) => true,
            (None, DType::F32) => true,
            _ => false,
        };
        assert(typed == self.typed());
        typed && self.weight.ndim() >= 1 && self.weight.shape()[0] == n && test_product(n, k, self.weight.num_elements())
            && match &self.bias {
            None => true,
            Some(b) => b.test_wf() && matches!(b.dtype(), DType::F32) && test_row(b.shape(), n),
        }
    }
}

impl RmsNorm {
    /// Whether the norm has weights for rows of this width.
    pub fn test_accepts(&self, width: usize) -> (r: bool)
        ensures
            r == self.accepts(width as int),
    {
        self.weight.test_floats(width) && match (&self.bias, self.kind) {
            (Some(b), NormKind::Layer) => b.test_floats(width),
            _ => true,
        }
    }
}

/// Whether a norm, if there is one, has weights for rows of this width.
fn test_norm(n: &Option<RmsNorm>, width: usize) -> (r: bool)
    ensures
        r == (*n matches Some(n) ==> n.accepts(width as int)),
{
    match n {
        Some(n) => n.test_accepts(width),
        None => true,
    }
}

/// Whether a norm, if there is one, has a row of weights for each head.
fn test_heads(n: &Option<RmsNorm>, heads: usize, width: usize) -> (r: bool)
    ensures
        r == heads::norm_covers(*n, heads as int, width as int),
{
    match n {
        Some(n) => n.weight.test_wf() && {
            proof {
                n.weight@.sizes();
            }
            test_product(heads, width, n.weight.num_elements())
        },
        None => true,
    }
}

impl Attention {
    /// Whether the projections and norms fit rows of width `hidden`, and the heads can be shared
    /// out. Heads that cannot be counted do not fit.
    pub fn test_fits(&self, hidden: usize) -> (r: bool)
        ensures
            r == (self.fits(hidden as int) && self.heads() * self.width() <= usize::MAX && self.kv() * self.width() <= usize::MAX),
    {
        if self.config.num_heads == 0 {
            return false;
        }
        let heads: usize = self.config.num_heads;
        let kv: usize = self.config.num_kv_heads();
        let width: usize = self.config.head_dim();
        if kv == 0 {
            return false;
        }
        match (heads.checked_mul(width), kv.checked_mul(width)) {
            (Some(wide), Some(narrow)) => {
                heads % kv == 0 && self.q_proj.test_maps(hidden, wide) && self.k_proj.test_maps(hidden, narrow) && self.v_proj.test_maps(
                    hidden,
                    narrow,
                ) && self.o_proj.weight.ndim() >= 1 && self.o_proj.test_maps(wide, self.o_proj.weight.shape()[0]) && test_heads(
                    &self.q_norm,
                    heads,
                    width,
                ) && test_heads(&self.k_norm, kv, width)
            },
            _ => false,
        }
    }

    /// Whether the tensors for so many rows can be stored.
    fn test_room(&self, count: usize) -> (r: bool)
        requires
            self.heads() > 0,
            self.o_proj.weight@.shape.len() >= 1,
            self.kv() * self.width() <= usize::MAX,
        ensures
            r == self.room(count),
    {
        let heads: usize = self.config.num_heads;
        let width: usize = self.config.head_dim();
        let kv: usize = self.config.num_kv_heads();
        match heads.checked_mul(width) {
            Some(wide) => test_product(count, heads, usize::MAX) && test_matrix(count, wide) && test_matrix(count, kv * width) && test_matrix(
                count,
                self.o_proj.weight.shape()[0],
            ),
            None => false,
        }
    }
}

impl TransformerLayer {
    /// The layer fits, and its heads can be counted.
    pub open spec fn fits_counted(self, hidden: int) -> bool {
        &&& self.fits(hidden)
        &&& self.attention.heads() * self.attention.width() <= usize::MAX
        &&& self.attention.kv() * self.attention.width() <= usize::MAX
    }

    /// Whether the parts fit rows of width `hidden`.
    pub fn test_fits(&self, hidden: usize) -> (r: bool)
        ensures
            r == self.fits_counted(hidden as int),
    {
        if hidden == 0 || !self.attention.test_fits(hidden) || self.ffn_up.weight.ndim() == 0 {
            return false;
        }
        let inner: usize = self.ffn_up.weight.shape()[0];
        let gated: bool = match self.config.activation {
            Activation::Gelu => true,
            _ => self.ffn_gate.test_maps(hidden, inner),
        };
        gated && self.attention.o_proj.weight.shape()[0] == hidden && self.attn_norm.test_accepts(hidden) && self.ffn_norm.test_accepts(
            hidden,
        ) && test_norm(&self.post_ffn_norm, hidden) && test_norm(&self.sub_ln, hidden) && self.ffn_up.test_maps(hidden, inner)
            && self.ffn_down.test_maps(inner, hidden)
    }

    /// Whether the tensors for so many rows can be stored.
    pub fn test_room(&self, count: usize) -> (r: bool)
        requires
            exists|hidden: int| self.fits_counted(hidden),
        ensures
            r == self.room(count),
    {
        self.attention.test_room(count) && test_matrix(count, self.ffn_up.weight.shape()[0])
    }
}

impl KvCache {
    /// Whether the tensors of a cache have these dimensions.
    pub fn test_wf(&self, heads: usize, max_len: usize, width: usize) -> (r: bool)
        ensures
            r == self.wf(heads, max_len, width),
    {
        if self.v.len() != self.k.len() || self.seq_lens.len() != self.batch {
            return false;
        }
        test_all_shaped(&self.k, self.batch, heads, max_len, width) && test_all_shaped(&self.v, self.batch, heads, max_len, width)
    }
}

/// Whether the tensors of a list all have these dimensions.
fn test_all_shaped(list: &Vec<Tensor>, batch: usize, heads: usize, max_len: usize, width: usize) -> (r: bool)
    ensures
        r == forall|l: int| 0 <= l < list@.len() ==> super::cache::shaped((#[trigger] list@[l])@, batch, heads, max_len, width),
{
    let mut l: usize = 0;
    while l < list.len()
        invariant
            l <= list@.len(),
            forall|j: int| 0 <= j < l ==> super::cache::shaped((#[trigger] list@[j])@, batch, heads, max_len, width),
        decreases list@.len() - l,
    {
        let t: &Tensor = &list[l];
        let dims: &[usize] = t.shape();
        let fits: bool = dims.len() == 4 && dims[0] == batch && dims[1] == heads && dims[2] == max_len && dims[3] == width;
        assert(fits == (dims@ =~= seq![batch, heads, max_len, width]));
        if !(fits && t.test_wf() && matches!(t.dtype(), DType::F32)) {
            assert(!super::cache::shaped(list@[l as int]@, batch, heads, max_len, width));
            return false;
        }
        l = l + 1;
    }
    true
}

impl Model {
    /// The parts fit together, with heads that can be counted.
    pub open spec fn fits_counted(self) -> bool {
        &&& self.config.num_heads > 0
        &&& self.network().fits()
        &&& forall|l: int| 0 <= l < self.live().len() ==> (#[trigger] self.live()[l]).fits_counted(self.config.hidden_size as int)
        &&& self.network().placed(usize::MAX as int) < usize::MAX
    }

    /// Whether the parts fit together.
    pub fn test_fits(&self) -> (r: bool)
        ensures
            r == self.fits_counted(),
    {
        let hidden: usize = self.config.hidden_size;
        if hidden == 0 || self.config.num_heads == 0 || !self.embedding.weight.test_wf() {
            return false;
        }
        proof {
            self.embedding.weight@.sizes();
        }
        if !test_product(self.embedding.vocab_size, self.embedding.embed_dim, self.embedding.weight.num_elements()) {
            return false;
        }
        let last: usize = match self.config.position_embeddings {
            Some(n) => if n > 0 {
                n - 1
            } else {
                0
            },
            None => 0,
        };
        assert(last == self.network().placed(usize::MAX as int));
        if last == usize::MAX {
            return false;
        }
        let placed: bool = match &self.pos_embedding {
            Some(t) => t.test_floats(0) && {
                proof {
                    t@.sizes();
                }
                test_product(last + 1, hidden, t.num_elements())
            },
            None => true,
        };
        if !placed || self.embedding.embed_dim != hidden || !self.norm.test_accepts(hidden) || self.lm_head.weight.ndim() == 0
            || !self.lm_head.test_maps(hidden, self.lm_head.weight.shape()[0]) {
            return false;
        }
        let kv: usize = self.config.num_kv_heads();
        let width: usize = self.config.head_dim();
        let layers: &Vec<TransformerLayer> = self.live_layers();
        let mut l: usize = 0;
        while l < layers.len()
            invariant
                layers@ == self.live(),
                hidden == self.config.hidden_size,
                kv == self.config.kv_heads(),
                width == self.config.head_width(),
                l <= layers@.len(),
                forall|j: int| 0 <= j < l ==> self.network().layer_fits(#[trigger] self.live()[j]),
                forall|j: int| 0 <= j < l ==> (#[trigger] self.live()[j]).fits_counted(hidden as int),
            decreases layers@.len() - l,
        {
            let layer: &TransformerLayer = &layers[l];
            if !(layer.test_fits(hidden) && layer.attention.config.num_kv_heads() == kv && layer.attention.config.head_dim() == width) {
                assert(!self.live()[l as int].fits_counted(hidden as int) || !self.network().layer_fits(self.network().layers[l as int]));
                return false;
            }
            l = l + 1;
        }
        true
    }

    /// Whether the tensors for so many rows can be stored.
    pub fn test_room(&self, count: usize) -> (r: bool)
        requires
            self.fits_counted(),
        ensures
            r == self.network().room(count),
    {
        if !test_matrix(count, self.config.hidden_size) || !test_matrix(count, self.lm_head.weight.shape()[0]) {
            return false;
        }
        let layers: &Vec<TransformerLayer> = self.live_layers();
        let mut l: usize = 0;
        while l < layers.len()
            invariant
                layers@ == self.live(),
                self.fits_counted(),
                l <= layers@.len(),
                forall|j: int| 0 <= j < l ==> (#[trigger] self.live()[j]).room(count),
            decreases layers@.len() - l,
        {
            assert(self.live()[l as int].fits_counted(self.config.hidden_size as int));
            if !layers[l].test_room(count) {
                assert(!self.network().layers[l as int].room(count));
                return false;
            }
            l = l + 1;
        }
        true
    }

    /// Whether the tokens have rows in the table of embeddings.
    pub fn test_knows(&self, tokens: &[u32]) -> (r: bool)
        ensures
            r == self.network().knows(tokens@),
    {
        let mut i: usize = 0;
        while i < tokens.len()
            invariant
                i <= tokens@.len(),
                forall|j: int| 0 <= j < i ==> (#[trigger] tokens@[j]) < self.embedding.vocab_size,
            decreases tokens@.len() - i,
        {
            if tokens[i] as usize >= self.embedding.vocab_size {
                assert(!(tokens@[i as int] < self.embedding.vocab_size));
                return false;
            }
            i = i + 1;
        }
        true
    }

    /// Whether the model can run so many more tokens in a slot.
    pub fn test_ready(&self, slot: usize, tokens: &[u32]) -> (r: bool)
        ensures
            r == (self.fits_counted() && self.ready(slot as int, tokens@)),
    {
        if !self.test_fits() || !self.test_knows(tokens) || !self.test_room(tokens.len()) {
            return false;
        }
        match &self.cache {
            Some(c) => {
                let kv: usize = self.config.num_kv_heads();
                let max_len: usize = self.config.max_seq_len;
                if !c.test_wf(kv, max_len, self.config.head_dim()) || c.k.len() != self.live_layers().len() || slot >= c.batch || max_len == 0 {
                    return false;
                }
                let counted: bool = match c.batch.checked_mul(kv) {
                    Some(n) => test_product(n, max_len, usize::MAX),
                    None => {
                        assert(c.batch * kv * max_len > usize::MAX) by (nonlinear_arith)
                            requires
                                c.batch * kv > usize::MAX,
                                max_len >= 1,
                        ;
                        false
                    },
                };
                counted && c.seq_lens[slot] <= max_len && tokens.len() <= max_len - c.seq_lens[slot]
            },
            None => true,
        }
    }

    /// Whether the model can generate so many tokens after a prompt.
    pub fn test_generate(&self, prompt: &[u32], max_new_tokens: usize) -> (r: bool)
        ensures
            r == {
                &&& self.fits_counted()
                &&& self.ready(0, prompt@)
                &&& self.network().room(1)
                &&& self.network().scores() == self.config.vocab_size
                &&& self.cache is Some ==> self.end(0) + prompt@.len() + max_new_tokens <= self.config.max_seq_len + 1
            },
    {
        if !self.test_ready(0, prompt) || !self.test_room(1) || self.lm_head.weight.shape()[0] != self.config.vocab_size {
            return false;
        }
        match &self.cache {
            Some(c) => {
                let left: usize = self.config.max_seq_len - c.seq_lens[0] - prompt.len();
                max_new_tokens <= left || max_new_tokens - 1 == left
            },
            None => true,
        }
    }
}

} // verus!
