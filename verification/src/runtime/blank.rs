//! Models as they are before weights are loaded: zeros, and norms that change nothing.
use super::attention::Attention;
use super::cache::KvCache;
use super::config::ModelConfig;
use super::heads;
use super::layers::{Embedding, Linear, NormKind, RmsNorm};
use super::model::Model;
use super::transformer::TransformerLayer;
use crate::tensor::bits;
use crate::tensor::shape;
use crate::tensor::tensor;
use crate::tensor::tensor::Tensor;
use crate::tensor::types::{DType, Device};
use vstd::prelude::*;

verus! {

/// A float tensor of zeros.
pub open spec fn blank(t: Tensor, dims: Seq<usize>) -> bool {
    &&& t@.wf()
    &&& t@.shape == dims
    &&& t@.dtype is F32
    &&& t@.device == Device::Cpu
    &&& forall|i: int| 0 <= i < t@.data.len() ==> #[trigger] t@.data[i] == 0
}

/// A linear map of zeros, without bias.
pub open spec fn blank_map(l: Linear, dims: Seq<usize>) -> bool {
    blank(l.weight, dims) && l.bias is None && l.bits is None
}

/// A norm of the configured kind with every weight one and every bias zero.
pub open spec fn plain_norm(n: RmsNorm, dims: Seq<usize>, config: ModelConfig) -> bool {
    &&& n.weight@.wf()
    &&& n.weight@.shape == dims
    &&& n.weight@.dtype is F32
    &&& forall|i: int| 0 <= i < n.weight@.count() ==> #[trigger] n.weight@.lane(i) == bits::ONE
    &&& n.eps == config.norm_eps
    &&& n.kind == (if config.norm_type is LayerNorm {
        NormKind::Layer
    } else {
        NormKind::Rms
    })
    &&& n.one_centered == (config.norm_type !is LayerNorm && config.one_centered_norm)
    &&& if config.norm_type is LayerNorm {
        n.bias matches Some(b) && blank(b, dims)
    } else {
        n.bias is None
    }
}

/// The norm of heads, where the model has one.
pub open spec fn plain_head_norm(n: Option<RmsNorm>, config: ModelConfig) -> bool {
    if config.qk_norm {
        n matches Some(m) && plain_norm(m, seq![config.num_heads, config.head_width()], config)
    } else {
        n is None
    }
}

/// A layer before its weights are loaded.
pub open spec fn blank_layer(l: TransformerLayer, config: ModelConfig) -> bool {
    let hidden = config.hidden_size;
    let kv = (config.kv_heads() * config.head_width()) as usize;
    &&& blank_map(l.attention.q_proj, seq![hidden, hidden])
    &&& blank_map(l.attention.k_proj, seq![hidden, kv])
    &&& blank_map(l.attention.v_proj, seq![hidden, kv])
    &&& blank_map(l.attention.o_proj, seq![hidden, hidden])
    &&& plain_head_norm(l.attention.q_norm, config)
    &&& plain_head_norm(l.attention.k_norm, config)
    &&& l.attention.config.same(config)
    &&& plain_norm(l.attn_norm, seq![hidden], config)
    &&& blank_map(l.ffn_up, seq![config.intermediate_size, hidden])
    &&& blank_map(l.ffn_gate, seq![config.intermediate_size, hidden])
    &&& blank_map(l.ffn_down, seq![hidden, config.intermediate_size])
    &&& plain_norm(l.ffn_norm, seq![hidden], config)
    &&& if config.post_ffn_norm {
        l.post_ffn_norm matches Some(n) && plain_norm(n, seq![hidden], config)
    } else {
        l.post_ffn_norm is None
    }
    &&& l.sub_ln is None
    &&& l.config.same(config)
}

impl ModelConfig {
    /// The tensors of a model with these dimensions can be stored.
    pub open spec fn buildable(self) -> bool {
        let kv = self.kv_heads() * self.head_width();
        &&& self.num_heads > 0
        &&& kv <= usize::MAX
        &&& tensor::storable(seq![self.vocab_size, self.hidden_size], DType::F32)
        &&& self.position_embeddings matches Some(n) ==> tensor::storable(seq![n, self.hidden_size], DType::F32)
        &&& tensor::storable(seq![self.hidden_size], DType::F32)
        &&& tensor::storable(seq![self.hidden_size, self.hidden_size], DType::F32)
        &&& tensor::storable(seq![self.hidden_size, kv as usize], DType::F32)
        &&& tensor::storable(seq![self.intermediate_size, self.hidden_size], DType::F32)
        &&& tensor::storable(seq![self.hidden_size, self.intermediate_size], DType::F32)
        &&& tensor::storable(seq![self.num_heads, self.head_width()], DType::F32)
        &&& tensor::storable(seq![1usize, self.kv_heads(), self.max_seq_len, self.head_width()], DType::F32)
    }
}

/// Whether a float tensor with these dimensions can be stored.
fn test_storable(dims: Vec<usize>) -> (r: bool)
    ensures
        r == tensor::storable(dims@, DType::F32),
{
    match shape::checked_count(dims.as_slice()) {
        Some(n) => n <= usize::MAX / 32,
        None => false,
    }
}

impl ModelConfig {
    /// Whether the tensors of a model with these dimensions can be stored.
    pub fn test_buildable(&self) -> (r: bool)
        ensures
            r == self.buildable(),
    {
        if self.num_heads == 0 {
            return false;
        }
        let heads: usize = self.num_kv_heads();
        let width: usize = self.head_dim();
        let kv: usize = match heads.checked_mul(width) {
            Some(n) => n,
            None => {
                return false;
            },
        };
        let hidden: usize = self.hidden_size;
        let vocab: usize = self.vocab_size;
        let inner: usize = self.intermediate_size;
        let positions: bool = match self.position_embeddings {
            Some(n) => {
                let v: Vec<usize> = vec![n, hidden];
                assert(v@ =~= seq![n, hidden]);
                test_storable(v)
            },
            None => true,
        };
        let a: Vec<usize> = vec![vocab, hidden];
        assert(a@ =~= seq![vocab, hidden]);
        let b: Vec<usize> = vec![hidden];
        assert(b@ =~= seq![hidden]);
        let c: Vec<usize> = vec![hidden, hidden];
        assert(c@ =~= seq![hidden, hidden]);
        let d: Vec<usize> = vec![hidden, kv];
        assert(d@ =~= seq![hidden, kv]);
        let e: Vec<usize> = vec![inner, hidden];
        assert(e@ =~= seq![inner, hidden]);
        let f: Vec<usize> = vec![hidden, inner];
        assert(f@ =~= seq![hidden, inner]);
        let g: Vec<usize> = vec![self.num_heads, width];
        assert(g@ =~= seq![self.num_heads, width]);
        let h: Vec<usize> = vec![1usize, heads, self.max_seq_len, width];
        assert(h@ =~= seq![1usize, heads, self.max_seq_len, width]);
        positions && test_storable(a) && test_storable(b) && test_storable(c) && test_storable(d) && test_storable(e) && test_storable(f)
            && test_storable(g) && test_storable(h)
    }
}

/// A float tensor of zeros with one or two dimensions.
fn zeros_of(dims: Vec<usize>) -> (t: Tensor)
    requires
        tensor::storable(dims@, DType::F32),
    ensures
        blank(t, dims@),
{
    Tensor::zeros(dims.as_slice(), DType::F32)
}

/// The norm before and after blocks, with every weight one.
fn make_norm(config: &ModelConfig) -> (r: RmsNorm)
    requires
        tensor::storable(seq![config.hidden_size], DType::F32),
    ensures
        plain_norm(r, seq![config.hidden_size], *config),
{
    let dims: Vec<usize> = vec![config.hidden_size];
    assert(dims@ =~= seq![config.hidden_size]);
    make_norm_shape(dims.as_slice(), config)
}

/// A norm of the configured kind, with every weight one.
fn make_norm_shape(dims: &[usize], config: &ModelConfig) -> (r: RmsNorm)
    requires
        tensor::storable(dims@, DType::F32),
    ensures
        plain_norm(r, dims@, *config),
{
    if config.uses_layer_norm() {
        RmsNorm::new_layer(Tensor::ones(dims, DType::F32), Some(Tensor::zeros(dims, DType::F32)), config.norm_eps)
    } else if config.one_centered_norm {
        RmsNorm::new_one_centered(Tensor::ones(dims, DType::F32), config.norm_eps)
    } else {
        RmsNorm::new(Tensor::ones(dims, DType::F32), config.norm_eps)
    }
}

/// A linear map of zeros.
fn zero_map(rows: usize, columns: usize) -> (r: Linear)
    requires
        tensor::storable(seq![rows, columns], DType::F32),
    ensures
        blank_map(r, seq![rows, columns]),
{
    let dims: Vec<usize> = vec![rows, columns];
    assert(dims@ =~= seq![rows, columns]);
    Linear::new(zeros_of(dims), None)
}

/// The norm of heads, where the model has one.
fn head_norm(config: &ModelConfig) -> (r: Option<RmsNorm>)
    requires
        config.num_heads > 0,
        tensor::storable(seq![config.num_heads, config.head_width()], DType::F32),
    ensures
        plain_head_norm(r, *config),
{
    if config.qk_norm {
        let dims: Vec<usize> = vec![config.num_heads, config.head_dim()];
        assert(dims@ =~= seq![config.num_heads, config.head_width()]);
        Some(make_norm_shape(dims.as_slice(), config))
    } else {
        None
    }
}

impl TransformerLayer {
    /// A layer before its weights are loaded.
    pub fn new_dummy(config: &ModelConfig) -> (r: TransformerLayer)
        requires
            config.buildable(),
        ensures
            blank_layer(r, *config),
    {
        let hidden: usize = config.hidden_size;
        let ff: usize = config.ff_dim();
        let kv: usize = config.num_kv_heads() * config.head_dim();
        TransformerLayer {
            attention: Attention::new_with_qk_norm(
                zero_map(hidden, hidden),
                zero_map(hidden, kv),
                zero_map(hidden, kv),
                zero_map(hidden, hidden),
                head_norm(config),
                head_norm(config),
                config.clone(),
            ),
            attn_norm: make_norm(config),
            ffn_up: zero_map(ff, hidden),
            ffn_gate: zero_map(ff, hidden),
            ffn_down: zero_map(hidden, ff),
            ffn_norm: make_norm(config),
            post_ffn_norm: if config.post_ffn_norm {
                Some(make_norm(config))
            } else {
                None
            },
            sub_ln: None,
            config: config.clone(),
        }
    }
}

/// A model before its weights are loaded, with an empty cache for one sequence.
pub open spec fn blank_model(m: Model, config: ModelConfig) -> bool {
    &&& m.config == config
    &&& blank(m.embedding.weight, seq![config.vocab_size, config.hidden_size])
    &&& m.embedding.vocab_size == config.vocab_size
    &&& m.embedding.embed_dim == config.hidden_size
    &&& match (m.pos_embedding, config.position_embeddings) {
        (Some(t), Some(n)) => blank(t, seq![n, config.hidden_size]),
        (None, None) => true,
        _ => false,
    }
    &&& m.layers@.len() == config.num_layers
    &&& forall|l: int| 0 <= l < m.layers@.len() ==> blank_layer(#[trigger] m.layers@[l], config)
    &&& m.bit_layers is None
    &&& plain_norm(m.norm, seq![config.hidden_size], config)
    &&& blank_map(m.lm_head, seq![config.vocab_size, config.hidden_size])
    &&& m.fresh_cache(1)
    &&& m.cache.unwrap().k@.len() == config.num_layers
}

impl Model {
    /// A model before its weights are loaded.
    pub fn new(config: ModelConfig) -> (r: Model)
        requires
            config.buildable(),
        ensures
            blank_model(r, config),
    {
        let table: Vec<usize> = vec![config.vocab_size, config.hidden_size];
        assert(table@ =~= seq![config.vocab_size, config.hidden_size]);
        let embedding: Embedding = Embedding::new(zeros_of(table), config.vocab_size, config.hidden_size);
        let pos_embedding: Option<Tensor> = match config.position_embeddings {
            Some(n) => {
                let dims: Vec<usize> = vec![n, config.hidden_size];
                assert(dims@ =~= seq![n, config.hidden_size]);
                Some(zeros_of(dims))
            },
            None => None,
        };
        let mut layers: Vec<TransformerLayer> = Vec::new();
        let mut l: usize = 0;
        while l < config.num_layers
            invariant
                config.buildable(),
                l <= config.num_layers,
                layers@.len() == l,
                forall|j: int| 0 <= j < l ==> blank_layer(#[trigger] layers@[j], config),
            decreases config.num_layers - l,
        {
            layers.push(TransformerLayer::new_dummy(&config));
            l = l + 1;
        }
        let cache: KvCache = KvCache::new(config.num_layers, 1, config.max_seq_len, config.num_kv_heads(), config.head_dim());
        let norm: RmsNorm = make_norm(&config);
        let lm_head: Linear = zero_map(config.vocab_size, config.hidden_size);
        Model { config, embedding, pos_embedding, layers, bit_layers: None, norm, lm_head, cache: Some(cache) }
    }

    /// Whether the layers have been packed.
    pub fn is_bit1(&self) -> (r: bool)
        ensures
            r == self.bit_layers is Some,
    {
        self.bit_layers.is_some()
    }

    /// Makes the readout use the table of embeddings.
    pub fn tie_embeddings(&mut self)
        ensures
            final(self).lm_head.weight@ == old(self).embedding.weight@,
            final(self).lm_head.bias == old(self).lm_head.bias,
            final(self).lm_head.bits == old(self).lm_head.bits,
            final(self).config == old(self).config,
            final(self).embedding == old(self).embedding,
            final(self).pos_embedding == old(self).pos_embedding,
            final(self).layers == old(self).layers,
            final(self).bit_layers == old(self).bit_layers,
            final(self).norm == old(self).norm,
            final(self).cache == old(self).cache,
    {
        let weight: Tensor = self.embedding.weight.clone();
        self.lm_head.weight = weight;
    }

    /// A model before its weights are loaded can run, where its heads fill its rows and share
    /// nothing.
    pub proof fn blank_model_fits(self, config: ModelConfig)
        requires
            blank_model(self, config),
            config.buildable(),
            0 < config.hidden_size,
            config.kv_heads() == config.num_heads,
            config.num_heads * config.head_width() == config.hidden_size,
            config.position_embeddings is None || config.position_embeddings.unwrap() > 0,
        ensures
            self.network().fits(),
    {
        let net = self.network();
        let h = config.hidden_size;
        let ff = config.intermediate_size;
        shape::product_one(h);
        shape::product_two(config.vocab_size, h);
        shape::product_two(h, h);
        shape::product_two(ff, h);
        shape::product_two(h, ff);
        shape::product_two(config.num_heads, config.head_width());
        if let Some(n) = config.position_embeddings {
            shape::product_two(n, h);
            assert((net.placed(usize::MAX as int) + 1) * h <= n * h) by (nonlinear_arith)
                requires
                    net.placed(usize::MAX as int) + 1 <= n,
            ;
        }
        assert forall|l: int| 0 <= l < net.layers.len() implies net.layer_fits(#[trigger] net.layers[l]) by {
            let layer = net.layers[l];
            assert(blank_layer(layer, config));
            assert(ff * h == h * ff) by (nonlinear_arith);
            assert(config.num_heads % config.kv_heads() == 0);
            assert(layer.attention.config.same(config));
            assert(layer.attention.kv() == config.kv_heads());
            assert(layer.attention.width() == config.head_width());
            assert(layer.attention.fits(h as int));
            assert(layer.fits(h as int));
        }
    }
}

} // verus!
