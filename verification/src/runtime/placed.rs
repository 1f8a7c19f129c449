//! Tensors in their places.
use super::assign;
use super::attention::Attention;
use super::config::ModelConfig;
use super::layers::{Embedding, Linear, RmsNorm};
use super::network::Network;
use super::transformer::TransformerLayer;
use super::weights::WeightTarget;
use crate::tensor::shape;
use crate::tensor::tensor::Tensor;
use vstd::prelude::*;

verus! {

/// The model with another layer.
pub open spec fn with_layer(n: Network, i: usize, l: TransformerLayer) -> Network {
    Network { layers: n.layers.update(i as int, l), ..n }
}

/// A tensor that is put in its place in a layer is there, and nothing else has changed.
pub proof fn layer_tensor_is_in_its_place(before: Network, after: Network, target: WeightTarget, t: Tensor, i: usize)
    requires
        assign::assigned(before, after, target, t, true),
        i < before.layers.len(),
    ensures
        ({
            let l = before.layers[i as int];
            let a = l.attention;
            &&& target == (WeightTarget::AttentionQ { layer_idx: i }) ==> after == with_layer(before, i, TransformerLayer { attention: Attention { q_proj: Linear { weight: t, ..a.q_proj }, ..a }, ..l })
            &&& target == (WeightTarget::AttentionQBias { layer_idx: i }) ==> after == with_layer(before, i, TransformerLayer { attention: Attention { q_proj: Linear { bias: Some(t), ..a.q_proj }, ..a }, ..l })
            &&& target == (WeightTarget::AttentionK { layer_idx: i }) ==> after == with_layer(before, i, TransformerLayer { attention: Attention { k_proj: Linear { weight: t, ..a.k_proj }, ..a }, ..l })
            &&& target == (WeightTarget::AttentionKBias { layer_idx: i }) ==> after == with_layer(before, i, TransformerLayer { attention: Attention { k_proj: Linear { bias: Some(t), ..a.k_proj }, ..a }, ..l })
            &&& target == (WeightTarget::AttentionV { layer_idx: i }) ==> after == with_layer(before, i, TransformerLayer { attention: Attention { v_proj: Linear { weight: t, ..a.v_proj }, ..a }, ..l })
            &&& target == (WeightTarget::AttentionVBias { layer_idx: i }) ==> after == with_layer(before, i, TransformerLayer { attention: Attention { v_proj: Linear { bias: Some(t), ..a.v_proj }, ..a }, ..l })
            &&& target == (WeightTarget::AttentionO { layer_idx: i }) ==> after == with_layer(before, i, TransformerLayer { attention: Attention { o_proj: Linear { weight: t, ..a.o_proj }, ..a }, ..l })
            &&& target == (WeightTarget::AttentionOBias { layer_idx: i }) ==> after == with_layer(before, i, TransformerLayer { attention: Attention { o_proj: Linear { bias: Some(t), ..a.o_proj }, ..a }, ..l })
            &&& target == (WeightTarget::FfnGate { layer_idx: i }) ==> after == with_layer(before, i, TransformerLayer { ffn_gate: Linear { weight: t, ..l.ffn_gate }, ..l })
            &&& target == (WeightTarget::FfnGateBias { layer_idx: i }) ==> after == with_layer(before, i, TransformerLayer { ffn_gate: Linear { bias: Some(t), ..l.ffn_gate }, ..l })
            &&& target == (WeightTarget::FfnDown { layer_idx: i }) ==> after == with_layer(before, i, TransformerLayer { ffn_down: Linear { weight: t, ..l.ffn_down }, ..l })
            &&& target == (WeightTarget::FfnDownBias { layer_idx: i }) ==> after == with_layer(before, i, TransformerLayer { ffn_down: Linear { bias: Some(t), ..l.ffn_down }, ..l })
            &&& target == (WeightTarget::FfnUp { layer_idx: i }) ==> after == with_layer(before, i, TransformerLayer { ffn_up: Linear { weight: t, ..l.ffn_up }, ..l })
            &&& target == (WeightTarget::FfnUpBias { layer_idx: i }) ==> after == with_layer(before, i, TransformerLayer { ffn_up: Linear { bias: Some(t), ..l.ffn_up }, ..l })
            &&& target == (WeightTarget::AttnNorm { layer_idx: i }) ==> after == with_layer(before, i, TransformerLayer { attn_norm: RmsNorm { weight: t, ..l.attn_norm }, ..l })
            &&& target == (WeightTarget::AttnNormBias { layer_idx: i }) ==> after == with_layer(before, i, TransformerLayer { attn_norm: RmsNorm { bias: Some(t), ..l.attn_norm }, ..l })
            &&& target == (WeightTarget::FfnNorm { layer_idx: i }) ==> after == with_layer(before, i, TransformerLayer { ffn_norm: RmsNorm { weight: t, ..l.ffn_norm }, ..l })
            &&& target == (WeightTarget::FfnNormBias { layer_idx: i }) ==> after == with_layer(before, i, TransformerLayer { ffn_norm: RmsNorm { bias: Some(t), ..l.ffn_norm }, ..l })
            &&& target == (WeightTarget::AttentionQNorm { layer_idx: i }) ==> after == with_layer(before, i, TransformerLayer { attention: Attention { q_norm: Some(RmsNorm { weight: t, ..a.q_norm.unwrap() }), ..a }, ..l })
            &&& target == (WeightTarget::AttentionKNorm { layer_idx: i }) ==> after == with_layer(before, i, TransformerLayer { attention: Attention { k_norm: Some(RmsNorm { weight: t, ..a.k_norm.unwrap() }), ..a }, ..l })
        }),
{
}

/// A tensor of the whole model that is put in its place is there, and nothing else has changed.
pub proof fn model_tensor_is_in_its_place(before: Network, after: Network, t: Tensor)
    ensures
        assign::assigned(before, after, WeightTarget::Embedding, t, true) ==> after == (Network {
            embedding: Embedding { weight: t, ..before.embedding },
            ..before
        }),
        assign::assigned(before, after, WeightTarget::PositionEmbedding, t, true) ==> after == (Network { pos_embedding: Some(t), ..before }),
        assign::assigned(before, after, WeightTarget::FinalNorm, t, true) ==> after == (Network {
            norm: RmsNorm { weight: t, ..before.norm },
            ..before
        }),
        assign::assigned(before, after, WeightTarget::FinalNormBias, t, true) ==> after == (Network {
            norm: RmsNorm { bias: Some(t), ..before.norm },
            ..before
        }),
        assign::assigned(before, after, WeightTarget::LmHead, t, true) ==> after == (Network {
            lm_head: Linear { weight: t, ..before.lm_head },
            ..before
        }),
{
}

/// A tensor that is refused changes nothing, and one of a layer that is not there is refused.
pub proof fn refused_tensor_changes_nothing(before: Network, after: Network, target: WeightTarget, t: Tensor, ok: bool)
    requires
        assign::assigned(before, after, target, t, ok),
    ensures
        !ok ==> after == before,
        !assign::fits(target, t@.shape, before.config) ==> !ok,
        target is Unknown ==> !ok,
        assign::slot_of(target) matches Some((_, i)) && i >= before.layers.len() ==> !ok,
{
    if let Some((slot, layer_idx)) = assign::slot_of(target) {
        if !ok && layer_idx < before.layers.len() {
            assert(before.layers.update(layer_idx as int, before.layers[layer_idx as int]) =~= before.layers);
        }
    }
}

/// A joint tensor of queries, keys and values falls into three equal parts, in this order; a layer
/// keeps all else.
pub proof fn joint_tensor_falls_into_three(before: Network, after: Network, t: Tensor, i: usize, k: int)
    requires
        assign::assigned(before, after, WeightTarget::AttentionQkvSplit { layer_idx: i }, t, true),
        i < before.layers.len(),
        t@.wf(),
    ensures
        ({
            let h = before.config.hidden_size;
            let a = after.layers[i as int].attention;
            let b = before.layers[i as int].attention;
            &&& a.q_proj.weight@.shape == seq![h, h] && a.k_proj.weight@.shape == seq![h, h] && a.v_proj.weight@.shape == seq![h, h]
            &&& 0 <= k < h * h ==> a.q_proj.weight@.lane(k) == t@.lane(k)
            &&& 0 <= k < h * h ==> a.k_proj.weight@.lane(k) == t@.lane(h * h + k)
            &&& 0 <= k < h * h ==> a.v_proj.weight@.lane(k) == t@.lane(2 * (h * h) + k)
            &&& a.q_proj.bias == b.q_proj.bias && a.k_proj.bias == b.k_proj.bias && a.v_proj.bias == b.v_proj.bias
            &&& a.o_proj == b.o_proj
            &&& after.layers[i as int].ffn_up == before.layers[i as int].ffn_up
            &&& forall|j: int| 0 <= j < before.layers.len() && j != i ==> after.layers[j] == #[trigger] before.layers[j]
        }),
{
    let h = before.config.hidden_size;
    let dims = seq![h, h];
    let b = after.layers[i as int].attention;
    reveal_with_fuel(shape::product, 3);
    assert(dims.drop_first() =~= seq![h]);
    assert(seq![h].drop_first() =~= Seq::<usize>::empty());
    assert(dims.drop_last() =~= seq![h]);
    assert(seq![h].drop_last() =~= Seq::<usize>::empty());
    assert(shape::product(dims) == h * h);
    assert(t@.shape =~= seq![(3 * h) as usize, h]);
    let all = t@.shape;
    assert(all.drop_first() =~= seq![h]);
    assert(all.drop_last() =~= seq![(3 * h) as usize]);
    assert(seq![(3 * h) as usize].drop_last() =~= Seq::<usize>::empty());
    assert(shape::product(all) == 3 * h * h);
    assert(3 * h * h == 3 * (h * h)) by (nonlinear_arith);
    b.q_proj.weight@.sizes();
    t@.sizes();
    if 0 <= k < h * h {
        let n = h * h;
        assert(b.q_proj.weight@.lanes()[k] == t@.lanes().subrange(0, n)[k]);
        assert(b.k_proj.weight@.lanes()[k] == t@.lanes().subrange(n, n + n)[k]);
        assert(b.v_proj.weight@.lanes()[k] == t@.lanes().subrange(2 * n, 2 * n + n)[k]);
    }
}

/// The shapes that tensors have to have: a projection has a row for each of its results.
pub proof fn tensors_have_their_shapes(c: ModelConfig, i: usize, dims: Seq<usize>)
    requires
        c.num_heads > 0,
    ensures
        assign::fits(WeightTarget::AttentionQ { layer_idx: i }, dims, c) <==> dims.len() == 2 && dims[0] == c.num_heads * c.head_width() && dims[1] == c.hidden_size,
        assign::fits(WeightTarget::AttentionK { layer_idx: i }, dims, c) <==> dims.len() == 2 && dims[0] == c.kv_heads() * c.head_width() && dims[1] == c.hidden_size,
        assign::fits(WeightTarget::AttentionV { layer_idx: i }, dims, c) <==> dims.len() == 2 && dims[0] == c.kv_heads() * c.head_width() && dims[1] == c.hidden_size,
        assign::fits(WeightTarget::AttentionO { layer_idx: i }, dims, c) <==> dims.len() == 2 && dims[0] == c.hidden_size && dims[1] == c.num_heads * c.head_width(),
        assign::fits(WeightTarget::AttentionQBias { layer_idx: i }, dims, c) <==> dims.len() == 1 && dims[0] == c.num_heads * c.head_width(),
        assign::fits(WeightTarget::AttentionKBias { layer_idx: i }, dims, c) <==> dims.len() == 1 && dims[0] == c.kv_heads() * c.head_width(),
        assign::fits(WeightTarget::AttentionVBias { layer_idx: i }, dims, c) <==> dims.len() == 1 && dims[0] == c.kv_heads() * c.head_width(),
        assign::fits(WeightTarget::AttentionOBias { layer_idx: i }, dims, c) <==> dims.len() == 1 && dims[0] == c.hidden_size,
        assign::fits(WeightTarget::FfnGate { layer_idx: i }, dims, c) <==> dims.len() == 2 && dims[0] == c.intermediate_size && dims[1] == c.hidden_size,
        assign::fits(WeightTarget::FfnUp { layer_idx: i }, dims, c) <==> dims.len() == 2 && dims[0] == c.intermediate_size && dims[1] == c.hidden_size,
        assign::fits(WeightTarget::FfnDown { layer_idx: i }, dims, c) <==> dims.len() == 2 && dims[0] == c.hidden_size && dims[1] == c.intermediate_size,
        assign::fits(WeightTarget::FfnGateBias { layer_idx: i }, dims, c) <==> dims.len() == 1 && dims[0] == c.intermediate_size,
        assign::fits(WeightTarget::FfnUpBias { layer_idx: i }, dims, c) <==> dims.len() == 1 && dims[0] == c.intermediate_size,
        assign::fits(WeightTarget::FfnDownBias { layer_idx: i }, dims, c) <==> dims.len() == 1 && dims[0] == c.hidden_size,
        assign::fits(WeightTarget::AttnNorm { layer_idx: i }, dims, c) <==> dims.len() == 1 && dims[0] == c.hidden_size,
        assign::fits(WeightTarget::AttnNormBias { layer_idx: i }, dims, c) <==> dims.len() == 1 && dims[0] == c.hidden_size,
        assign::fits(WeightTarget::FfnNorm { layer_idx: i }, dims, c) <==> dims.len() == 1 && dims[0] == c.hidden_size,
        assign::fits(WeightTarget::FfnNormBias { layer_idx: i }, dims, c) <==> dims.len() == 1 && dims[0] == c.hidden_size,
        assign::fits(WeightTarget::AttentionQNorm { layer_idx: i }, dims, c) <==> dims.len() == 2 && dims[0] == c.num_heads && dims[1] == c.head_width(),
        assign::fits(WeightTarget::AttentionQkvSplit { layer_idx: i }, dims, c) <==> dims.len() == 2 && dims[0] == 3 * c.hidden_size && dims[1] == c.hidden_size && c.num_heads * c.head_width() == c.hidden_size == c.kv_heads() * c.head_width(),
        assign::fits(WeightTarget::AttentionQkvBiasSplit { layer_idx: i }, dims, c) <==> dims.len() == 1 && dims[0] == 3 * c.hidden_size && c.num_heads * c.head_width() == c.hidden_size == c.kv_heads() * c.head_width(),
        assign::fits(WeightTarget::AttentionKNorm { layer_idx: i }, dims, c) <==> dims.len() == 2 && (dims[0] == c.num_heads || dims[0]
            == c.kv_heads()) && dims[1] == c.head_width(),
        assign::fits(WeightTarget::Embedding, dims, c) <==> dims.len() == 2 && dims[0] == c.vocab_size && dims[1] == c.hidden_size,
        assign::fits(WeightTarget::LmHead, dims, c) <==> dims.len() == 2 && dims[0] == c.vocab_size && dims[1] == c.hidden_size,
        assign::fits(WeightTarget::FinalNorm, dims, c) <==> dims.len() == 1 && dims[0] == c.hidden_size,
        assign::fits(WeightTarget::FinalNormBias, dims, c) <==> dims.len() == 1 && dims[0] == c.hidden_size,
        c.position_embeddings matches Some(n) ==> (assign::fits(WeightTarget::PositionEmbedding, dims, c) <==> dims.len() == 2 && dims[0] == n && dims[1] == c.hidden_size),
        c.position_embeddings is None ==> (assign::fits(WeightTarget::PositionEmbedding, dims, c) <==> dims.len() == 2 && dims[1] == c.hidden_size),
{
}

} // verus!
