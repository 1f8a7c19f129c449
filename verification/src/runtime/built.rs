//! Models before their weights are loaded, and models with packed weights.
use super::bits;
use super::bits::{QuantConfig, QuantizedTensor};
use super::blank;
use super::config::ModelConfig;
use super::layers::{Linear, RmsNorm};
use super::model::Model;
use super::transformer::TransformerLayer;
use super::worth;
use crate::tensor::tensor::{Tensor, TensorModel};
use vstd::prelude::*;

verus! {

/// Floats of this shape, all of them zero.
pub open spec fn zeros(t: TensorModel, dims: Seq<usize>) -> bool {
    &&& t.shape == dims
    &&& t.dtype is F32
    &&& forall|i: int| 0 <= i < t.count() ==> worth::worth(#[trigger] t.lane(i) as int) == 0
}

/// A norm that changes no size: as many floats as there are columns, all of them one; the mean is
/// taken off where the configuration says so.
pub open spec fn ones_norm(n: RmsNorm, dims: Seq<usize>, c: ModelConfig) -> bool {
    &&& n.weight@.shape == dims
    &&& forall|i: int| 0 <= i < n.weight@.count() ==> worth::worth(#[trigger] n.weight@.lane(i) as int) == worth::one()
    &&& n.eps == c.norm_eps
    &&& n.kind is Layer <==> c.norm_type is LayerNorm
    &&& n.bias is Some <==> c.norm_type is LayerNorm
    &&& n.bias matches Some(b) ==> zeros(b@, dims)
    &&& n.one_centered <==> c.one_centered_norm && c.norm_type is RmsNorm
}

proof fn blank_is_zero(t: Tensor, dims: Seq<usize>)
    requires
        blank::blank(t, dims),
    ensures
        zeros(t@, dims),
{
    t@.sizes();
    assert(0 * worth::spacing(0) == 0);
    assert(worth::exponent(0) == 0 && worth::mantissa(0) == 0);
    assert forall|i: int| 0 <= i < t@.count() implies worth::worth(#[trigger] t@.lane(i) as int) == 0 by {
        assert(t@.data[4 * i] == 0 && t@.data[4 * i + 1] == 0 && t@.data[4 * i + 2] == 0 && t@.data[4 * i + 3] == 0);
    }
}

proof fn plain_is_one(n: RmsNorm, dims: Seq<usize>, c: ModelConfig)
    requires
        blank::plain_norm(n, dims, c),
    ensures
        ones_norm(n, dims, c),
{
    crate::tensor::meant::signs_are_worth_one(true);
    if let Some(b) = n.bias {
        blank_is_zero(b, dims);
    }
}

/// A new model has the layers and the shapes that its configuration asks for: its maps and tables are
/// zero and have no biases, its norms are one, and it has the norms of heads, the norms after
/// feed-forward blocks and the table of positions just where the configuration says so.
pub proof fn new_model_is_as_configured(m: Model, c: ModelConfig, l: int)
    requires
        blank::blank_model(m, c),
        0 <= l < c.num_layers,
    ensures
        m.layers@.len() == c.num_layers,
        m.bit_layers is None,
        zeros(m.embedding.weight@, seq![c.vocab_size, c.hidden_size]),
        zeros(m.lm_head.weight@, seq![c.vocab_size, c.hidden_size]),
        m.lm_head.bias is None,
        ones_norm(m.norm, seq![c.hidden_size], c),
        m.pos_embedding is Some <==> c.position_embeddings is Some,
        m.pos_embedding matches Some(t) ==> zeros(t@, seq![c.position_embeddings.unwrap(), c.hidden_size]),
        ({
            let layer = m.layers@[l];
            let a = layer.attention;
            let kv = (c.kv_heads() * c.head_width()) as usize;
            &&& zeros(a.q_proj.weight@, seq![c.hidden_size, c.hidden_size])
            &&& zeros(a.k_proj.weight@, seq![c.hidden_size, kv])
            &&& zeros(a.v_proj.weight@, seq![c.hidden_size, kv])
            &&& zeros(a.o_proj.weight@, seq![c.hidden_size, c.hidden_size])
            &&& zeros(layer.ffn_up.weight@, seq![c.intermediate_size, c.hidden_size])
            &&& zeros(layer.ffn_gate.weight@, seq![c.intermediate_size, c.hidden_size])
            &&& zeros(layer.ffn_down.weight@, seq![c.hidden_size, c.intermediate_size])
            &&& a.q_proj.bias is None && a.k_proj.bias is None && a.v_proj.bias is None && a.o_proj.bias is None
            &&& layer.ffn_up.bias is None && layer.ffn_gate.bias is None && layer.ffn_down.bias is None
            &&& ones_norm(layer.attn_norm, seq![c.hidden_size], c)
            &&& ones_norm(layer.ffn_norm, seq![c.hidden_size], c)
            &&& layer.post_ffn_norm is Some <==> c.post_ffn_norm
            &&& layer.post_ffn_norm matches Some(n) ==> ones_norm(n, seq![c.hidden_size], c)
            &&& a.q_norm is Some <==> c.qk_norm
            &&& a.k_norm is Some <==> c.qk_norm
            &&& a.q_norm matches Some(n) ==> ones_norm(n, seq![c.num_heads, c.head_width()], c)
            &&& a.k_norm matches Some(n) ==> ones_norm(n, seq![c.num_heads, c.head_width()], c)
            &&& layer.sub_ln is None
        }),
{
    let h = seq![c.hidden_size];
    let layer = m.layers@[l];
    let a = layer.attention;
    let kv = (c.kv_heads() * c.head_width()) as usize;
    blank_is_zero(m.embedding.weight, seq![c.vocab_size, c.hidden_size]);
    blank_is_zero(m.lm_head.weight, seq![c.vocab_size, c.hidden_size]);
    plain_is_one(m.norm, h, c);
    if let Some(t) = m.pos_embedding {
        blank_is_zero(t, seq![c.position_embeddings.unwrap(), c.hidden_size]);
    }
    assert(blank::blank_layer(layer, c));
    blank_is_zero(a.q_proj.weight, seq![c.hidden_size, c.hidden_size]);
    blank_is_zero(a.k_proj.weight, seq![c.hidden_size, kv]);
    blank_is_zero(a.v_proj.weight, seq![c.hidden_size, kv]);
    blank_is_zero(a.o_proj.weight, seq![c.hidden_size, c.hidden_size]);
    blank_is_zero(layer.ffn_up.weight, seq![c.intermediate_size, c.hidden_size]);
    blank_is_zero(layer.ffn_gate.weight, seq![c.intermediate_size, c.hidden_size]);
    blank_is_zero(layer.ffn_down.weight, seq![c.hidden_size, c.intermediate_size]);
    plain_is_one(layer.attn_norm, h, c);
    plain_is_one(layer.ffn_norm, h, c);
    if let Some(n) = layer.post_ffn_norm {
        plain_is_one(n, h, c);
    }
    if let Some(n) = a.q_norm {
        plain_is_one(n, seq![c.num_heads, c.head_width()], c);
    }
    if let Some(n) = a.k_norm {
        plain_is_one(n, seq![c.num_heads, c.head_width()], c);
    }
}

/// A map holds what the packing function has made of a weight: its signs and its scales.
pub open spec fn made_of<Q: Fn(&Tensor, QuantConfig) -> QuantizedTensor>(pack: Q, config: QuantConfig, weight: Tensor, to: Linear) -> bool {
    exists|q: QuantizedTensor| #[trigger]
        call_ensures(pack, (&weight, config), q) && to.weight == q.signs && to.bits is Some && to.bits.unwrap().scales == q.scales
            && to.bits.unwrap().a8 == config.a8
}

proof fn packed_is_made<Q: Fn(&Tensor, QuantConfig) -> QuantizedTensor>(pack: Q, config: QuantConfig, from: Linear, to: Linear)
    requires
        bits::packed(pack, config, from, to),
    ensures
        made_of(pack, config, from.weight, to),
        to.bias is Some <==> from.bias is Some,
        to.bias matches Some(b) ==> b@ == from.bias.unwrap()@,
{
    let q = choose|q: QuantizedTensor| #[trigger] call_ensures(pack, (&from.weight, config), q) && bits::holds(to, q, config.a8);
    assert(call_ensures(pack, (&from.weight, config), q) && bits::holds(to, q, config.a8));
}

/// Each map of a packed layer is made of the weight of the same map before, and keeps its bias; the
/// norms keep their weights.
pub proof fn each_map_is_packed_for_itself<Q: Fn(&Tensor, QuantConfig) -> QuantizedTensor>(
    pack: Q,
    config: QuantConfig,
    from: TransformerLayer,
    to: TransformerLayer,
)
    requires
        bits::packed_layer(pack, config, from, to),
    ensures
        made_of(pack, config, from.attention.q_proj.weight, to.attention.q_proj),
        made_of(pack, config, from.attention.k_proj.weight, to.attention.k_proj),
        made_of(pack, config, from.attention.v_proj.weight, to.attention.v_proj),
        made_of(pack, config, from.attention.o_proj.weight, to.attention.o_proj),
        made_of(pack, config, from.ffn_up.weight, to.ffn_up),
        made_of(pack, config, from.ffn_gate.weight, to.ffn_gate),
        made_of(pack, config, from.ffn_down.weight, to.ffn_down),
        from.attention.q_proj.bias matches Some(b) ==> to.attention.q_proj.bias is Some && to.attention.q_proj.bias.unwrap()@ == b@,
        from.ffn_up.bias matches Some(b) ==> to.ffn_up.bias is Some && to.ffn_up.bias.unwrap()@ == b@,
        from.ffn_down.bias matches Some(b) ==> to.ffn_down.bias is Some && to.ffn_down.bias.unwrap()@ == b@,
        to.attn_norm.weight@ == from.attn_norm.weight@,
        to.ffn_norm.weight@ == from.ffn_norm.weight@,
        to.sub_ln is Some <==> from.config.sub_ln,
        to.sub_ln matches Some(n) ==> n.weight@.shape == seq![from.config.hidden_size] && n.eps == from.config.norm_eps && forall|i: int|
            0 <= i < n.weight@.count() ==> worth::worth(#[trigger] n.weight@.lane(i) as int) == worth::one(),
{
    packed_is_made(pack, config, from.attention.q_proj, to.attention.q_proj);
    packed_is_made(pack, config, from.attention.k_proj, to.attention.k_proj);
    packed_is_made(pack, config, from.attention.v_proj, to.attention.v_proj);
    packed_is_made(pack, config, from.attention.o_proj, to.attention.o_proj);
    packed_is_made(pack, config, from.ffn_up, to.ffn_up);
    packed_is_made(pack, config, from.ffn_gate, to.ffn_gate);
    packed_is_made(pack, config, from.ffn_down, to.ffn_down);
    crate::tensor::meant::signs_are_worth_one(true);
}

/// A model is packed layer by layer, in order; what is no layer stays as it was.
pub proof fn model_is_packed_layer_by_layer<Q: Fn(&Tensor, QuantConfig) -> QuantizedTensor>(
    before: Model,
    pack: Q,
    config: QuantConfig,
    after: Model,
    l: int,
)
    requires
        before.was_packed(pack, config, after),
    ensures
        after.bit_layers is Some,
        after.bit_layers.unwrap()@.len() == before.layers@.len(),
        0 <= l < before.layers@.len() ==> bits::packed_layer(pack, config, before.layers@[l], after.bit_layers.unwrap()@[l]),
        after.layers@.len() == 0,
        after.embedding == before.embedding && after.lm_head == before.lm_head && after.norm == before.norm,
{
}

} // verus!
