//! Putting loaded tensors where they belong in a model.
use super::attention::Attention;
use super::config::ModelConfig;
use super::layers::{Embedding, Linear, RmsNorm};
use super::model::Model;
use super::network::Network;
use super::transformer::TransformerLayer;
use super::weights::{Slot, WeightTarget};
use crate::tensor::rows;
use crate::tensor::shape;
use crate::tensor::tensor;
use crate::tensor::tensor::{Tensor, TensorModel};
use crate::tensor::types::DType;
use vstd::prelude::*;

verus! {

/// The slot and the layer that a target names, if it names a weight of a layer.
pub open spec fn slot_of(target: WeightTarget) -> Option<(Slot, usize)> {
    match target {
        WeightTarget::AttentionQ { layer_idx } => Some((Slot::AttentionQ, layer_idx)),
        WeightTarget::AttentionK { layer_idx } => Some((Slot::AttentionK, layer_idx)),
        WeightTarget::AttentionV { layer_idx } => Some((Slot::AttentionV, layer_idx)),
        WeightTarget::AttentionO { layer_idx } => Some((Slot::AttentionO, layer_idx)),
        WeightTarget::AttentionQBias { layer_idx } => Some((Slot::AttentionQBias, layer_idx)),
        WeightTarget::AttentionKBias { layer_idx } => Some((Slot::AttentionKBias, layer_idx)),
        WeightTarget::AttentionVBias { layer_idx } => Some((Slot::AttentionVBias, layer_idx)),
        WeightTarget::AttentionOBias { layer_idx } => Some((Slot::AttentionOBias, layer_idx)),
        WeightTarget::AttentionQkvSplit { layer_idx } => Some((Slot::AttentionQkvSplit, layer_idx)),
        WeightTarget::AttentionQkvBiasSplit { layer_idx } => Some((Slot::AttentionQkvBiasSplit, layer_idx)),
        WeightTarget::AttentionQNorm { layer_idx } => Some((Slot::AttentionQNorm, layer_idx)),
        WeightTarget::AttentionKNorm { layer_idx } => Some((Slot::AttentionKNorm, layer_idx)),
        WeightTarget::FfnGate { layer_idx } => Some((Slot::FfnGate, layer_idx)),
        WeightTarget::FfnGateBias { layer_idx } => Some((Slot::FfnGateBias, layer_idx)),
        WeightTarget::FfnDown { layer_idx } => Some((Slot::FfnDown, layer_idx)),
        WeightTarget::FfnDownBias { layer_idx } => Some((Slot::FfnDownBias, layer_idx)),
        WeightTarget::FfnUp { layer_idx } => Some((Slot::FfnUp, layer_idx)),
        WeightTarget::FfnUpBias { layer_idx } => Some((Slot::FfnUpBias, layer_idx)),
        WeightTarget::AttnNorm { layer_idx } => Some((Slot::AttnNorm, layer_idx)),
        WeightTarget::AttnNormBias { layer_idx } => Some((Slot::AttnNormBias, layer_idx)),
        WeightTarget::FfnNorm { layer_idx } => Some((Slot::FfnNorm, layer_idx)),
        WeightTarget::FfnNormBias { layer_idx } => Some((Slot::FfnNormBias, layer_idx)),
        _ => None,
    }
}

/// The dimensions of a vector of `n` elements.
pub open spec fn is_vector(dims: Seq<usize>, n: int) -> bool {
    dims.len() == 1 && dims[0] == n
}

/// The dimensions of a matrix of `m` rows of `n` elements.
pub open spec fn is_matrix(dims: Seq<usize>, m: int, n: int) -> bool {
    dims.len() == 2 && dims[0] == m && dims[1] == n
}

/// The dimensions fit a slot of a layer of a model: a projection has a row for each of its
/// results, a bias or a norm an element for each; the norms of heads have a row for each head.
/// A weight that is split has three parts of the size of a projection.
pub open spec fn slot_fits(slot: Slot, dims: Seq<usize>, config: ModelConfig) -> bool {
    let hidden = config.hidden_size as int;
    let inner = config.intermediate_size as int;
    let width = config.head_width();
    let q = config.num_heads * width;
    let kv = config.kv_heads() * width;
    &&& config.num_heads > 0
    &&& match slot {
        Slot::AttentionQ => is_matrix(dims, q, hidden),
        Slot::AttentionK | Slot::AttentionV => is_matrix(dims, kv, hidden),
        Slot::AttentionO => is_matrix(dims, hidden, q),
        Slot::AttentionQBias => is_vector(dims, q),
        Slot::AttentionKBias | Slot::AttentionVBias => is_vector(dims, kv),
        Slot::AttentionOBias => is_vector(dims, hidden),
        Slot::AttentionQkvSplit => is_matrix(dims, 3 * hidden, hidden) && q == hidden && kv == hidden,
        Slot::AttentionQkvBiasSplit => is_vector(dims, 3 * hidden) && q == hidden && kv == hidden,
        Slot::AttentionQNorm => is_matrix(dims, config.num_heads as int, width as int),
        Slot::AttentionKNorm => is_matrix(dims, config.num_heads as int, width as int) || is_matrix(dims, config.kv_heads() as int, width as int),
        Slot::FfnGate | Slot::FfnUp => is_matrix(dims, inner, hidden),
        Slot::FfnGateBias | Slot::FfnUpBias => is_vector(dims, inner),
        Slot::FfnDown => is_matrix(dims, hidden, inner),
        Slot::FfnDownBias => is_vector(dims, hidden),
        Slot::AttnNorm | Slot::AttnNormBias | Slot::FfnNorm | Slot::FfnNormBias => is_vector(dims, hidden),
    }
}

/// The dimensions fit a target in a model. Nothing fits an unknown one.
pub open spec fn fits(target: WeightTarget, dims: Seq<usize>, config: ModelConfig) -> bool {
    let hidden = config.hidden_size as int;
    match target {
        WeightTarget::Embedding | WeightTarget::LmHead => is_matrix(dims, config.vocab_size as int, hidden),
        WeightTarget::PositionEmbedding => match config.position_embeddings {
            Some(n) => is_matrix(dims, n as int, hidden),
            None => dims.len() == 2 && dims[1] == hidden,
        },
        WeightTarget::FinalNorm | WeightTarget::FinalNormBias => is_vector(dims, hidden),
        _ => slot_of(target) matches Some((slot, _)) && slot_fits(slot, dims, config),
    }
}

/// The map with another weight.
pub open spec fn with_weight(l: Linear, t: Tensor) -> Linear {
    Linear { weight: t, ..l }
}

/// The map with another bias.
pub open spec fn with_bias(l: Linear, t: Tensor) -> Linear {
    Linear { bias: Some(t), ..l }
}

/// The norm with another weight.
pub open spec fn with_gain(n: RmsNorm, t: Tensor) -> RmsNorm {
    RmsNorm { weight: t, ..n }
}

/// The norm with another bias.
pub open spec fn with_shift(n: RmsNorm, t: Tensor) -> RmsNorm {
    RmsNorm { bias: Some(t), ..n }
}

/// The layer with a tensor in a slot; nothing where the layer has no such slot, or where the
/// tensor is to be split up.
pub open spec fn filled(l: TransformerLayer, slot: Slot, t: Tensor) -> Option<TransformerLayer> {
    let a = l.attention;
    match slot {
        Slot::AttentionQ => Some(TransformerLayer { attention: Attention { q_proj: with_weight(a.q_proj, t), ..a }, ..l }),
        Slot::AttentionK => Some(TransformerLayer { attention: Attention { k_proj: with_weight(a.k_proj, t), ..a }, ..l }),
        Slot::AttentionV => Some(TransformerLayer { attention: Attention { v_proj: with_weight(a.v_proj, t), ..a }, ..l }),
        Slot::AttentionO => Some(TransformerLayer { attention: Attention { o_proj: with_weight(a.o_proj, t), ..a }, ..l }),
        Slot::AttentionQBias => Some(TransformerLayer { attention: Attention { q_proj: with_bias(a.q_proj, t), ..a }, ..l }),
        Slot::AttentionKBias => Some(TransformerLayer { attention: Attention { k_proj: with_bias(a.k_proj, t), ..a }, ..l }),
        Slot::AttentionVBias => Some(TransformerLayer { attention: Attention { v_proj: with_bias(a.v_proj, t), ..a }, ..l }),
        Slot::AttentionOBias => Some(TransformerLayer { attention: Attention { o_proj: with_bias(a.o_proj, t), ..a }, ..l }),
        Slot::AttentionQkvSplit | Slot::AttentionQkvBiasSplit => None,
        Slot::AttentionQNorm => match a.q_norm {
            Some(n) => Some(TransformerLayer { attention: Attention { q_norm: Some(with_gain(n, t)), ..a }, ..l }),
            None => None,
        },
        Slot::AttentionKNorm => match a.k_norm {
            Some(n) => Some(TransformerLayer { attention: Attention { k_norm: Some(with_gain(n, t)), ..a }, ..l }),
            None => None,
        },
        Slot::FfnGate => Some(TransformerLayer { ffn_gate: with_weight(l.ffn_gate, t), ..l }),
        Slot::FfnGateBias => Some(TransformerLayer { ffn_gate: with_bias(l.ffn_gate, t), ..l }),
        Slot::FfnDown => Some(TransformerLayer { ffn_down: with_weight(l.ffn_down, t), ..l }),
        Slot::FfnDownBias => Some(TransformerLayer { ffn_down: with_bias(l.ffn_down, t), ..l }),
        Slot::FfnUp => Some(TransformerLayer { ffn_up: with_weight(l.ffn_up, t), ..l }),
        Slot::FfnUpBias => Some(TransformerLayer { ffn_up: with_bias(l.ffn_up, t), ..l }),
        Slot::AttnNorm => Some(TransformerLayer { attn_norm: with_gain(l.attn_norm, t), ..l }),
        Slot::AttnNormBias => Some(TransformerLayer { attn_norm: with_shift(l.attn_norm, t), ..l }),
        Slot::FfnNorm => Some(TransformerLayer { ffn_norm: with_gain(l.ffn_norm, t), ..l }),
        Slot::FfnNormBias => Some(TransformerLayer { ffn_norm: with_shift(l.ffn_norm, t), ..l }),
    }
}

/// A float tensor with these dimensions and the elements of another from `from` on.
pub open spec fn part_of(p: TensorModel, t: TensorModel, dims: Seq<usize>, from: int) -> bool {
    &&& p.wf()
    &&& p.dtype is F32
    &&& p.shape == dims
    &&& p.lanes() == t.lanes().subrange(from, from + shape::product(dims))
}

/// The layer with the three parts of a tensor as the weights of queries, keys and values.
pub open spec fn split_weights(before: TransformerLayer, after: TransformerLayer, t: TensorModel, hidden: usize) -> bool {
    let a = before.attention;
    let b = after.attention;
    let dims = seq![hidden, hidden];
    &&& after == (TransformerLayer {
        attention: Attention {
            q_proj: with_weight(a.q_proj, b.q_proj.weight),
            k_proj: with_weight(a.k_proj, b.k_proj.weight),
            v_proj: with_weight(a.v_proj, b.v_proj.weight),
            ..a
        },
        ..before
    })
    &&& part_of(b.q_proj.weight@, t, dims, 0)
    &&& part_of(b.k_proj.weight@, t, dims, hidden * hidden)
    &&& part_of(b.v_proj.weight@, t, dims, 2 * (hidden * hidden))
}

/// The layer with the three parts of a tensor as the biases of queries, keys and values.
pub open spec fn split_biases(before: TransformerLayer, after: TransformerLayer, t: TensorModel, hidden: usize) -> bool {
    let a = before.attention;
    let b = after.attention;
    let dims = seq![hidden];
    &&& b.q_proj.bias is Some
    &&& b.k_proj.bias is Some
    &&& b.v_proj.bias is Some
    &&& after == (TransformerLayer {
        attention: Attention {
            q_proj: with_bias(a.q_proj, b.q_proj.bias.unwrap()),
            k_proj: with_bias(a.k_proj, b.k_proj.bias.unwrap()),
            v_proj: with_bias(a.v_proj, b.v_proj.bias.unwrap()),
            ..a
        },
        ..before
    })
    &&& part_of(b.q_proj.bias.unwrap()@, t, dims, 0)
    &&& part_of(b.k_proj.bias.unwrap()@, t, dims, hidden as int)
    &&& part_of(b.v_proj.bias.unwrap()@, t, dims, 2 * hidden)
}

/// The slot is filled with the parts of a tensor.
pub open spec fn splits(slot: Slot) -> bool {
    slot is AttentionQkvSplit || slot is AttentionQkvBiasSplit
}

/// What filling a slot of a layer does: whether it succeeds, and the layer after it.
pub open spec fn fills(before: TransformerLayer, after: TransformerLayer, slot: Slot, t: Tensor, hidden: usize, ok: bool) -> bool {
    match slot {
        Slot::AttentionQkvSplit => ok && split_weights(before, after, t@, hidden),
        Slot::AttentionQkvBiasSplit => ok && split_biases(before, after, t@, hidden),
        _ => match filled(before, slot, t) {
            Some(l) => ok && after == l,
            None => !ok && after == before,
        },
    }
}

/// Reads part of a float tensor as a tensor of its own.
fn part(t: &Tensor, dims: Vec<usize>, index: usize) -> (p: Tensor)
    requires
        t@.wf(),
        t@.dtype is F32,
        (index + 1) * shape::product(dims@) <= t@.count(),
        tensor::storable(dims@, DType::F32),
    ensures
        part_of(p@, t@, dims@, index * shape::product(dims@)),
{
    let n: usize = shape::count(dims.as_slice());
    let lanes: Vec<u32> = t.chunk_lanes(index, n);
    let p: Tensor = Tensor::from_slice(lanes.as_slice(), dims.as_slice());
    proof {
        rows::chunk_is_row(t@, index as int, index + 1, n as int);
    }
    p
}

/// Fills a slot of a layer with a tensor that fits, or says that the layer has no such slot.
fn fill(layer: &mut TransformerLayer, slot: Slot, t: Tensor, hidden: usize) -> (ok: bool)
    requires
        splits(slot) ==> t@.wf() && t@.dtype is F32,
        slot is AttentionQkvSplit ==> is_matrix(t@.shape, 3 * hidden, hidden as int),
        slot is AttentionQkvBiasSplit ==> is_vector(t@.shape, 3 * hidden),
    ensures
        fills(*old(layer), *final(layer), slot, t, hidden, ok),
{
    match slot {
        Slot::AttentionQ => {
            layer.attention.q_proj.weight = t;
        },
        Slot::AttentionK => {
            layer.attention.k_proj.weight = t;
        },
        Slot::AttentionV => {
            layer.attention.v_proj.weight = t;
        },
        Slot::AttentionO => {
            layer.attention.o_proj.weight = t;
        },
        Slot::AttentionQBias => {
            layer.attention.q_proj.bias = Some(t);
        },
        Slot::AttentionKBias => {
            layer.attention.k_proj.bias = Some(t);
        },
        Slot::AttentionVBias => {
            layer.attention.v_proj.bias = Some(t);
        },
        Slot::AttentionOBias => {
            layer.attention.o_proj.bias = Some(t);
        },
        Slot::AttentionQkvSplit => {
            proof {
                let rows = t@.shape[0];
                assert(t@.shape =~= seq![rows, hidden]);
                shape::product_two(rows, hidden);
                shape::product_two(hidden, hidden);
                t@.sizes();
                let n = hidden * hidden;
                assert(rows * hidden == 3 * n) by (nonlinear_arith)
                    requires
                        rows == 3 * hidden,
                        n == hidden * hidden,
                ;
                assert((0 + 1) * n <= 3 * n && (1 + 1) * n <= 3 * n && (2 + 1) * n <= 3 * n && 0 * n == 0 && 1 * n == n) by (nonlinear_arith)
                    requires
                        0 <= n,
                ;
            }
            let dims: Vec<usize> = vec![hidden, hidden];
            assert(dims@ =~= seq![hidden, hidden]);
            layer.attention.q_proj.weight = part(&t, dims.clone(), 0);
            layer.attention.k_proj.weight = part(&t, dims.clone(), 1);
            layer.attention.v_proj.weight = part(&t, dims, 2);
        },
        Slot::AttentionQkvBiasSplit => {
            proof {
                let count = t@.shape[0];
                assert(t@.shape =~= seq![count]);
                shape::product_one(count);
                shape::product_one(hidden);
                t@.sizes();
            }
            let dims: Vec<usize> = vec![hidden];
            assert(dims@ =~= seq![hidden]);
            layer.attention.q_proj.bias = Some(part(&t, dims.clone(), 0));
            layer.attention.k_proj.bias = Some(part(&t, dims.clone(), 1));
            layer.attention.v_proj.bias = Some(part(&t, dims, 2));
        },
        Slot::AttentionQNorm => {
            let taken: Option<RmsNorm> = layer.attention.q_norm.take();
            match taken {
                Some(mut n) => {
                    n.weight = t;
                    layer.attention.q_norm = Some(n);
                },
                None => {
                    return false;
                },
            }
        },
        Slot::AttentionKNorm => {
            let taken: Option<RmsNorm> = layer.attention.k_norm.take();
            match taken {
                Some(mut n) => {
                    n.weight = t;
                    layer.attention.k_norm = Some(n);
                },
                None => {
                    return false;
                },
            }
        },
        Slot::FfnGate => {
            layer.ffn_gate.weight = t;
        },
        Slot::FfnGateBias => {
            layer.ffn_gate.bias = Some(t);
        },
        Slot::FfnDown => {
            layer.ffn_down.weight = t;
        },
        Slot::FfnDownBias => {
            layer.ffn_down.bias = Some(t);
        },
        Slot::FfnUp => {
            layer.ffn_up.weight = t;
        },
        Slot::FfnUpBias => {
            layer.ffn_up.bias = Some(t);
        },
        Slot::AttnNorm => {
            layer.attn_norm.weight = t;
        },
        Slot::AttnNormBias => {
            layer.attn_norm.bias = Some(t);
        },
        Slot::FfnNorm => {
            layer.ffn_norm.weight = t;
        },
        Slot::FfnNormBias => {
            layer.ffn_norm.bias = Some(t);
        },
    }
    true
}

/// The slot of a layer that a target names, if it names one.
fn layer_slot(target: &WeightTarget) -> (r: Option<(Slot, usize)>)
    ensures
        r == slot_of(*target),
{
    match target {
        WeightTarget::AttentionQ { layer_idx } => Some((Slot::AttentionQ, *layer_idx)),
        WeightTarget::AttentionK { layer_idx } => Some((Slot::AttentionK, *layer_idx)),
        WeightTarget::AttentionV { layer_idx } => Some((Slot::AttentionV, *layer_idx)),
        WeightTarget::AttentionO { layer_idx } => Some((Slot::AttentionO, *layer_idx)),
        WeightTarget::AttentionQBias { layer_idx } => Some((Slot::AttentionQBias, *layer_idx)),
        WeightTarget::AttentionKBias { layer_idx } => Some((Slot::AttentionKBias, *layer_idx)),
        WeightTarget::AttentionVBias { layer_idx } => Some((Slot::AttentionVBias, *layer_idx)),
        WeightTarget::AttentionOBias { layer_idx } => Some((Slot::AttentionOBias, *layer_idx)),
        WeightTarget::AttentionQkvSplit { layer_idx } => Some((Slot::AttentionQkvSplit, *layer_idx)),
        WeightTarget::AttentionQkvBiasSplit { layer_idx } => Some((Slot::AttentionQkvBiasSplit, *layer_idx)),
        WeightTarget::AttentionQNorm { layer_idx } => Some((Slot::AttentionQNorm, *layer_idx)),
        WeightTarget::AttentionKNorm { layer_idx } => Some((Slot::AttentionKNorm, *layer_idx)),
        WeightTarget::FfnGate { layer_idx } => Some((Slot::FfnGate, *layer_idx)),
        WeightTarget::FfnGateBias { layer_idx } => Some((Slot::FfnGateBias, *layer_idx)),
        WeightTarget::FfnDown { layer_idx } => Some((Slot::FfnDown, *layer_idx)),
        WeightTarget::FfnDownBias { layer_idx } => Some((Slot::FfnDownBias, *layer_idx)),
        WeightTarget::FfnUp { layer_idx } => Some((Slot::FfnUp, *layer_idx)),
        WeightTarget::FfnUpBias { layer_idx } => Some((Slot::FfnUpBias, *layer_idx)),
        WeightTarget::AttnNorm { layer_idx } => Some((Slot::AttnNorm, *layer_idx)),
        WeightTarget::AttnNormBias { layer_idx } => Some((Slot::AttnNormBias, *layer_idx)),
        WeightTarget::FfnNorm { layer_idx } => Some((Slot::FfnNorm, *layer_idx)),
        WeightTarget::FfnNormBias { layer_idx } => Some((Slot::FfnNormBias, *layer_idx)),
        _ => None,
    }
}

/// Whether the dimensions are those of a vector of `n` elements; nothing is too long to compare.
fn test_vector(dims: &[usize], n: Option<usize>) -> (r: bool)
    ensures
        r == (n matches Some(k) && is_vector(dims@, k as int)),
{
    match n {
        Some(k) => dims.len() == 1 && dims[0] == k,
        None => false,
    }
}

/// Whether the dimensions are those of a matrix of `m` rows of `n` elements.
fn test_matrix(dims: &[usize], m: Option<usize>, n: Option<usize>) -> (r: bool)
    ensures
        r == (m matches Some(j) && n matches Some(k) && is_matrix(dims@, j as int, k as int)),
{
    match (m, n) {
        (Some(j), Some(k)) => dims.len() == 2 && dims[0] == j && dims[1] == k,
        _ => false,
    }
}

/// Whether the dimensions fit a slot of a layer of a model.
fn test_slot_fits(slot: Slot, dims: &[usize], config: &ModelConfig) -> (r: bool)
    ensures
        r == slot_fits(slot, dims@, *config),
{
    if config.num_heads == 0 {
        return false;
    }
    let hidden: usize = config.hidden_size;
    let inner: usize = config.intermediate_size;
    let heads: usize = config.num_heads;
    let kv_heads: usize = config.num_kv_heads();
    let width: usize = config.head_dim();
    let q: Option<usize> = heads.checked_mul(width);
    let kv: Option<usize> = kv_heads.checked_mul(width);
    let three: Option<usize> = hidden.checked_mul(3);
    proof {
        assert(0 <= heads * width && 0 <= kv_heads * width) by (nonlinear_arith);
    }
    match slot {
        Slot::AttentionQ => test_matrix(dims, q, Some(hidden)),
        Slot::AttentionK | Slot::AttentionV => test_matrix(dims, kv, Some(hidden)),
        Slot::AttentionO => test_matrix(dims, Some(hidden), q),
        Slot::AttentionQBias => test_vector(dims, q),
        Slot::AttentionKBias | Slot::AttentionVBias => test_vector(dims, kv),
        Slot::AttentionOBias => test_vector(dims, Some(hidden)),
        Slot::AttentionQkvSplit => test_matrix(dims, three, Some(hidden)) && same_size(q, hidden) && same_size(kv, hidden),
        Slot::AttentionQkvBiasSplit => test_vector(dims, three) && same_size(q, hidden) && same_size(kv, hidden),
        Slot::AttentionQNorm => test_matrix(dims, Some(heads), Some(width)),
        Slot::AttentionKNorm => test_matrix(dims, Some(heads), Some(width)) || test_matrix(dims, Some(kv_heads), Some(width)),
        Slot::FfnGate | Slot::FfnUp => test_matrix(dims, Some(inner), Some(hidden)),
        Slot::FfnGateBias | Slot::FfnUpBias => test_vector(dims, Some(inner)),
        Slot::FfnDown => test_matrix(dims, Some(hidden), Some(inner)),
        Slot::FfnDownBias => test_vector(dims, Some(hidden)),
        Slot::AttnNorm | Slot::AttnNormBias | Slot::FfnNorm | Slot::FfnNormBias => test_vector(dims, Some(hidden)),
    }
}

/// Whether a product that was tested for overflow is `n`.
fn same_size(product: Option<usize>, n: usize) -> (r: bool)
    ensures
        r == (product == Some(n)),
{
    match product {
        Some(k) => k == n,
        None => false,
    }
}

/// Whether the dimensions fit a target in a model.
pub fn test_fits(target: &WeightTarget, dims: &[usize], config: &ModelConfig) -> (r: bool)
    ensures
        r == fits(*target, dims@, *config),
{
    let hidden: usize = config.hidden_size;
    match target {
        WeightTarget::Embedding | WeightTarget::LmHead => test_matrix(dims, Some(config.vocab_size), Some(hidden)),
        WeightTarget::PositionEmbedding => match config.position_embeddings {
            Some(n) => test_matrix(dims, Some(n), Some(hidden)),
            None => dims.len() == 2 && dims[1] == hidden,
        },
        WeightTarget::FinalNorm | WeightTarget::FinalNormBias => test_vector(dims, Some(hidden)),
        _ => match layer_slot(target) {
            Some((slot, _)) => test_slot_fits(slot, dims, config),
            None => false,
        },
    }
}

/// What putting a tensor in its place does: whether it succeeds, and the parts after it. A tensor
/// that does not fit changes nothing.
pub open spec fn assigned(before: Network, after: Network, target: WeightTarget, t: Tensor, ok: bool) -> bool {
    if fits(target, t@.shape, before.config) {
        match target {
            WeightTarget::Embedding => ok && after == (Network { embedding: Embedding { weight: t, ..before.embedding }, ..before }),
            WeightTarget::PositionEmbedding => ok && after == (Network { pos_embedding: Some(t), ..before }),
            WeightTarget::FinalNorm => ok && after == (Network { norm: with_gain(before.norm, t), ..before }),
            WeightTarget::FinalNormBias => ok && after == (Network { norm: with_shift(before.norm, t), ..before }),
            WeightTarget::LmHead => ok && after == (Network { lm_head: with_weight(before.lm_head, t), ..before }),
            _ => slot_of(target) matches Some((slot, layer_idx)) && layer_assigned(before, after, slot, layer_idx, t, ok),
        }
    } else {
        !ok && after == before
    }
}

/// What putting a tensor in a slot of a layer does.
pub open spec fn layer_assigned(before: Network, after: Network, slot: Slot, layer_idx: usize, t: Tensor, ok: bool) -> bool {
    if layer_idx < before.layers.len() {
        &&& after == (Network { layers: before.layers.update(layer_idx as int, after.layers[layer_idx as int]), ..before })
        &&& fills(before.layers[layer_idx as int], after.layers[layer_idx as int], slot, t, before.config.hidden_size, ok)
    } else {
        !ok && after == before
    }
}

/// A tensor can be put in its place, or be refused: one that is split up holds floats.
pub open spec fn assignable(target: WeightTarget, t: TensorModel, config: ModelConfig) -> bool {
    fits(target, t.shape, config) && (slot_of(target) matches Some((slot, _)) && splits(slot)) ==> t.dtype is F32
}

/// The place that a target names exists: its layer, and the norm of heads where it is one.
pub open spec fn placeable(parts: Network, target: WeightTarget) -> bool {
    match slot_of(target) {
        Some((slot, layer_idx)) => {
            &&& layer_idx < parts.layers.len()
            &&& slot is AttentionQNorm ==> parts.layers[layer_idx as int].attention.q_norm is Some
            &&& slot is AttentionKNorm ==> parts.layers[layer_idx as int].attention.k_norm is Some
        },
        None => target !is Unknown,
    }
}

/// Puts a tensor in its place in a model. Says whether it could be placed: it cannot where the
/// name was unknown, where the layer or its slot does not exist, or where the shape does not fit.
pub fn apply_weight_target(model: &mut Model, target: &WeightTarget, tensor: Tensor) -> (ok: bool)
    requires
        tensor@.wf(),
        assignable(*target, tensor@, old(model).config),
    ensures
        ok <==> placeable(old(model).parts(), *target) && fits(*target, tensor@.shape, old(model).config),
        !ok ==> final(model).parts() == old(model).parts(),
        assigned(old(model).parts(), final(model).parts(), *target, tensor, ok),
        final(model).bit_layers == old(model).bit_layers,
        final(model).cache == old(model).cache,
        final(model).config == old(model).config,
{
    if !test_fits(target, tensor.shape(), &model.config) {
        return false;
    }
    match target {
        WeightTarget::Embedding => {
            model.embedding.weight = tensor;
            true
        },
        WeightTarget::PositionEmbedding => {
            model.pos_embedding = Some(tensor);
            true
        },
        WeightTarget::FinalNorm => {
            model.norm.weight = tensor;
            true
        },
        WeightTarget::FinalNormBias => {
            model.norm.bias = Some(tensor);
            true
        },
        WeightTarget::LmHead => {
            model.lm_head.weight = tensor;
            true
        },
        _ => {
            let ghost before = model.parts();
            match layer_slot(target) {
                Some((slot, layer_idx)) => {
                    if layer_idx >= model.layers.len() {
                        return false;
                    }
                    let hidden: usize = model.config.hidden_size;
                    let ok: bool = fill(&mut model.layers[layer_idx], slot, tensor, hidden);
                    proof {
                        let after = model.parts();
                        assert(after.layers =~= before.layers.update(layer_idx as int, after.layers[layer_idx as int]));
                        assert(layer_assigned(before, after, slot, layer_idx, tensor, ok));
                        if !ok {
                            assert(after.layers =~= before.layers);
                        }
                    }
                    ok
                },
                None => false,
            }
        },
    }
}

/// Two models have the same places for tensors.
pub open spec fn same_places(a: Network, b: Network) -> bool {
    &&& a.config == b.config
    &&& a.layers.len() == b.layers.len()
    &&& forall|l: int| 0 <= l < a.layers.len() ==> {
        &&& (#[trigger] a.layers[l]).attention.q_norm is Some <==> b.layers[l].attention.q_norm is Some
        &&& a.layers[l].attention.k_norm is Some <==> b.layers[l].attention.k_norm is Some
    }
}

/// Putting a tensor in its place leaves the configurations and the places alone.
pub proof fn assigned_keeps_configs(before: Network, after: Network, target: WeightTarget, t: Tensor, ok: bool)
    requires
        assigned(before, after, target, t, ok),
    ensures
        same_places(after, before),
        after.layers.len() == before.layers.len(),
        forall|l: int| 0 <= l < after.layers.len() ==> (#[trigger] after.layers[l]).config == before.layers[l].config,
{
    if let Some((slot, layer_idx)) = slot_of(target) {
        if fits(target, t@.shape, before.config) && layer_idx < before.layers.len() {
            assert(fills(before.layers[layer_idx as int], after.layers[layer_idx as int], slot, t, before.config.hidden_size, ok));
        }
    }
}

/// A tensor is put in its place where the place exists and the shape fits.
pub proof fn assigned_where_placeable(before: Network, after: Network, target: WeightTarget, t: Tensor, ok: bool)
    requires
        assigned(before, after, target, t, ok),
    ensures
        ok <==> placeable(before, target) && fits(target, t@.shape, before.config),
{
}

/// Whether a tensor can be put in its place, or be refused.
pub fn can_assign(target: &WeightTarget, tensor: &Tensor, config: &ModelConfig) -> (r: bool)
    ensures
        r == assignable(*target, tensor@, *config),
{
    if matches!(tensor.dtype(), DType::F32) {
        return true;
    }
    match target {
        WeightTarget::AttentionQkvSplit { .. } | WeightTarget::AttentionQkvBiasSplit { .. } => !test_fits(target, tensor.shape(), config),
        _ => true,
    }
}

} // verus!
