//! Which weight of a model a tensor name stands for.
use super::config::{Architecture, ModelConfig};
use crate::text;
use vstd::prelude::*;

verus! {

/// A weight of a model.
#[derive(Debug, PartialEq)]
pub enum WeightTarget {
    Embedding,
    PositionEmbedding,
    FinalNorm,
    FinalNormBias,
    LmHead,
    AttentionQ { layer_idx: usize },
    AttentionK { layer_idx: usize },
    AttentionV { layer_idx: usize },
    AttentionO { layer_idx: usize },
    AttentionQBias { layer_idx: usize },
    AttentionKBias { layer_idx: usize },
    AttentionVBias { layer_idx: usize },
    AttentionOBias { layer_idx: usize },
    /// Queries, keys and values in one matrix, one third of its rows each.
    AttentionQkvSplit { layer_idx: usize },
    /// The biases of queries, keys and values in one row.
    AttentionQkvBiasSplit { layer_idx: usize },
    /// The norm of the heads of the queries.
    AttentionQNorm { layer_idx: usize },
    /// The norm of the heads of the keys.
    AttentionKNorm { layer_idx: usize },
    FfnGate { layer_idx: usize },
    FfnGateBias { layer_idx: usize },
    FfnDown { layer_idx: usize },
    FfnDownBias { layer_idx: usize },
    FfnUp { layer_idx: usize },
    FfnUpBias { layer_idx: usize },
    AttnNorm { layer_idx: usize },
    AttnNormBias { layer_idx: usize },
    FfnNorm { layer_idx: usize },
    FfnNormBias { layer_idx: usize },
    /// A name that stands for no weight.
    Unknown(String),
}

/// A weight that each layer has.
#[derive(Debug, Clone, Copy, PartialEq, Eq, Structural)]
pub enum Slot {
    AttentionQ,
    AttentionK,
    AttentionV,
    AttentionO,
    AttentionQBias,
    AttentionKBias,
    AttentionVBias,
    AttentionOBias,
    AttentionQkvSplit,
    AttentionQkvBiasSplit,
    AttentionQNorm,
    AttentionKNorm,
    FfnGate,
    FfnGateBias,
    FfnDown,
    FfnDownBias,
    FfnUp,
    FfnUpBias,
    AttnNorm,
    AttnNormBias,
    FfnNorm,
    FfnNormBias,
}

impl Slot {
    /// This weight of a layer.
    pub open spec fn of_layer(self, layer_idx: usize) -> WeightTarget {
        match self {
            Slot::AttentionQ => WeightTarget::AttentionQ { layer_idx },
            Slot::AttentionK => WeightTarget::AttentionK { layer_idx },
            Slot::AttentionV => WeightTarget::AttentionV { layer_idx },
            Slot::AttentionO => WeightTarget::AttentionO { layer_idx },
            Slot::AttentionQBias => WeightTarget::AttentionQBias { layer_idx },
            Slot::AttentionKBias => WeightTarget::AttentionKBias { layer_idx },
            Slot::AttentionVBias => WeightTarget::AttentionVBias { layer_idx },
            Slot::AttentionOBias => WeightTarget::AttentionOBias { layer_idx },
            Slot::AttentionQkvSplit => WeightTarget::AttentionQkvSplit { layer_idx },
            Slot::AttentionQkvBiasSplit => WeightTarget::AttentionQkvBiasSplit { layer_idx },
            Slot::AttentionQNorm => WeightTarget::AttentionQNorm { layer_idx },
            Slot::AttentionKNorm => WeightTarget::AttentionKNorm { layer_idx },
            Slot::FfnGate => WeightTarget::FfnGate { layer_idx },
            Slot::FfnGateBias => WeightTarget::FfnGateBias { layer_idx },
            Slot::FfnDown => WeightTarget::FfnDown { layer_idx },
            Slot::FfnDownBias => WeightTarget::FfnDownBias { layer_idx },
            Slot::FfnUp => WeightTarget::FfnUp { layer_idx },
            Slot::FfnUpBias => WeightTarget::FfnUpBias { layer_idx },
            Slot::AttnNorm => WeightTarget::AttnNorm { layer_idx },
            Slot::AttnNormBias => WeightTarget::AttnNormBias { layer_idx },
            Slot::FfnNorm => WeightTarget::FfnNorm { layer_idx },
            Slot::FfnNormBias => WeightTarget::FfnNormBias { layer_idx },
        }
    }

    /// This weight of a layer.
    pub fn target(self, layer_idx: usize) -> (r: WeightTarget)
        ensures
            r == self.of_layer(layer_idx),
    {
        match self {
            Slot::AttentionQ => WeightTarget::AttentionQ { layer_idx },
            Slot::AttentionK => WeightTarget::AttentionK { layer_idx },
            Slot::AttentionV => WeightTarget::AttentionV { layer_idx },
            Slot::AttentionO => WeightTarget::AttentionO { layer_idx },
            Slot::AttentionQBias => WeightTarget::AttentionQBias { layer_idx },
            Slot::AttentionKBias => WeightTarget::AttentionKBias { layer_idx },
            Slot::AttentionVBias => WeightTarget::AttentionVBias { layer_idx },
            Slot::AttentionOBias => WeightTarget::AttentionOBias { layer_idx },
            Slot::AttentionQkvSplit => WeightTarget::AttentionQkvSplit { layer_idx },
            Slot::AttentionQkvBiasSplit => WeightTarget::AttentionQkvBiasSplit { layer_idx },
            Slot::AttentionQNorm => WeightTarget::AttentionQNorm { layer_idx },
            Slot::AttentionKNorm => WeightTarget::AttentionKNorm { layer_idx },
            Slot::FfnGate => WeightTarget::FfnGate { layer_idx },
            Slot::FfnGateBias => WeightTarget::FfnGateBias { layer_idx },
            Slot::FfnDown => WeightTarget::FfnDown { layer_idx },
            Slot::FfnDownBias => WeightTarget::FfnDownBias { layer_idx },
            Slot::FfnUp => WeightTarget::FfnUp { layer_idx },
            Slot::FfnUpBias => WeightTarget::FfnUpBias { layer_idx },
            Slot::AttnNorm => WeightTarget::AttnNorm { layer_idx },
            Slot::AttnNormBias => WeightTarget::AttnNormBias { layer_idx },
            Slot::FfnNorm => WeightTarget::FfnNorm { layer_idx },
            Slot::FfnNormBias => WeightTarget::FfnNormBias { layer_idx },
        }
    }
}

/// The answer for a name: the weight that it stands for, or the name itself as unknown.
pub open spec fn answers(r: WeightTarget, name: Seq<char>, target: Option<WeightTarget>) -> bool {
    match target {
        Some(t) => r == t,
        None => r is Unknown && r->Unknown_0@ == name,
    }
}

/// Whether a name starts with two given parts, a third one and at least one more.
pub open spec fn below(parts: Seq<Seq<char>>, first: Seq<char>, second: Seq<char>) -> bool {
    parts.len() >= 4 && parts[0] == first && parts[1] == second
}

/// The layer number in part `k`, with the name after it.
pub open spec fn numbered(parts: Seq<Seq<char>>, k: int) -> Option<(usize, Seq<char>)> {
    match text::size_value(parts[k]) {
        Some(i) => Some((i, text::join(parts.skip(k + 1), '.'))),
        None => None,
    }
}

/// The layer and the rest of a name such as `model.layers.0.rest` or `layers.0.rest`.
pub open spec fn llama_place(name: Seq<char>) -> Option<(usize, Seq<char>)> {
    let parts = text::split(name, '.');
    if below(parts, "model"@, "layers"@) {
        numbered(parts, 2)
    } else if parts.len() >= 3 && parts[0] == "layers"@ {
        numbered(parts, 1)
    } else {
        None
    }
}

/// The layer and the rest of a name such as `transformer.h.0.rest`.
pub open spec fn gpt2_place(name: Seq<char>) -> Option<(usize, Seq<char>)> {
    let parts = text::split(name, '.');
    if below(parts, "transformer"@, "h"@) {
        numbered(parts, 2)
    } else {
        None
    }
}

/// The layer and the rest of a name such as `transformer.h.0.rest` or `model.layers.0.rest`.
pub open spec fn phi_place(name: Seq<char>) -> Option<(usize, Seq<char>)> {
    let parts = text::split(name, '.');
    if below(parts, "transformer"@, "h"@) || below(parts, "model"@, "layers"@) {
        numbered(parts, 2)
    } else {
        None
    }
}

/// The weight of the whole model that a Llama name stands for.
pub open spec fn llama_top(s: Seq<char>) -> Option<WeightTarget> {
    if s == "tok_embeddings"@ || s == "token_embd.weight"@ || s == "model.embed_tokens.weight"@ {
        Some(WeightTarget::Embedding)
    } else if s == "norm"@ || s == "output_norm.weight"@ || s == "model.norm.weight"@ {
        Some(WeightTarget::FinalNorm)
    } else if s == "output"@ || s == "lm_head.weight"@ {
        Some(WeightTarget::LmHead)
    } else {
        None
    }
}

/// The weight of a layer that the rest of a Llama name stands for.
pub open spec fn llama_slot(s: Seq<char>) -> Option<Slot> {
    if s == "attention.wq.weight"@ || s == "attn_q.weight"@ || s == "self_attn.q_proj.weight"@ {
        Some(Slot::AttentionQ)
    } else if s == "attention.wk.weight"@ || s == "attn_k.weight"@ || s == "self_attn.k_proj.weight"@ {
        Some(Slot::AttentionK)
    } else if s == "attention.wv.weight"@ || s == "attn_v.weight"@ || s == "self_attn.v_proj.weight"@ {
        Some(Slot::AttentionV)
    } else if s == "attention.wo.weight"@ || s == "attn_output.weight"@ || s == "self_attn.o_proj.weight"@ {
        Some(Slot::AttentionO)
    } else if s == "self_attn.q_proj.bias"@ || s == "attn_q.bias"@ {
        Some(Slot::AttentionQBias)
    } else if s == "self_attn.k_proj.bias"@ || s == "attn_k.bias"@ {
        Some(Slot::AttentionKBias)
    } else if s == "self_attn.v_proj.bias"@ || s == "attn_v.bias"@ {
        Some(Slot::AttentionVBias)
    } else if s == "self_attn.o_proj.bias"@ || s == "attn_output.bias"@ {
        Some(Slot::AttentionOBias)
    } else if s == "attn_q_norm.weight"@ || s == "self_attn.q_norm.weight"@ {
        Some(Slot::AttentionQNorm)
    } else if s == "attn_k_norm.weight"@ || s == "self_attn.k_norm.weight"@ {
        Some(Slot::AttentionKNorm)
    } else if s == "feed_forward.w1.weight"@
        || s == "ffn_gate.weight"@
        || s == "mlp.gate.weight"@
        || s == "mlp.gate_proj.weight"@ {
        Some(Slot::FfnGate)
    } else if s == "feed_forward.w2.weight"@
        || s == "ffn_down.weight"@
        || s == "mlp.down.weight"@
        || s == "mlp.down_proj.weight"@ {
        Some(Slot::FfnDown)
    } else if s == "feed_forward.w3.weight"@
        || s == "ffn_up.weight"@
        || s == "mlp.up.weight"@
        || s == "mlp.up_proj.weight"@ {
        Some(Slot::FfnUp)
    } else if s == "attention_norm.weight"@ || s == "attn_norm.weight"@ || s == "input_layernorm.weight"@ {
        Some(Slot::AttnNorm)
    } else if s == "ffn_norm.weight"@
        || s == "mlp_norm.weight"@
        || s == "post_attention_layernorm.weight"@
        || s == "pre_feedforward_layernorm.weight"@ {
        Some(Slot::FfnNorm)
    } else {
        None
    }
}

/// The weight of the whole model that a GPT-2 name stands for.
pub open spec fn gpt2_top(s: Seq<char>) -> Option<WeightTarget> {
    if s == "transformer.wte.weight"@ || s == "wte"@ || s == "model.embed_tokens.weight"@ {
        Some(WeightTarget::Embedding)
    } else if s == "transformer.wpe.weight"@ || s == "wpe"@ {
        Some(WeightTarget::PositionEmbedding)
    } else if s == "transformer.ln_f.weight"@ || s == "model.norm.weight"@ || s == "norm"@ {
        Some(WeightTarget::FinalNorm)
    } else if s == "transformer.ln_f.bias"@ {
        Some(WeightTarget::FinalNormBias)
    } else if s == "lm_head.weight"@ {
        Some(WeightTarget::LmHead)
    } else {
        None
    }
}

/// The weight of a layer that the rest of a GPT-2 name stands for.
pub open spec fn gpt2_slot(s: Seq<char>) -> Option<Slot> {
    if s == "attn.c_attn.weight"@ {
        Some(Slot::AttentionQkvSplit)
    } else if s == "attn.c_attn.bias"@ {
        Some(Slot::AttentionQkvBiasSplit)
    } else if s == "attn.c_proj.weight"@ {
        Some(Slot::AttentionO)
    } else if s == "attn.c_proj.bias"@ {
        Some(Slot::AttentionOBias)
    } else if s == "mlp.c_fc.weight"@ {
        Some(Slot::FfnUp)
    } else if s == "mlp.c_fc.bias"@ {
        Some(Slot::FfnUpBias)
    } else if s == "mlp.c_proj.weight"@ {
        Some(Slot::FfnDown)
    } else if s == "mlp.c_proj.bias"@ {
        Some(Slot::FfnDownBias)
    } else if s == "ln_1.weight"@ {
        Some(Slot::AttnNorm)
    } else if s == "ln_1.bias"@ {
        Some(Slot::AttnNormBias)
    } else if s == "ln_2.weight"@ {
        Some(Slot::FfnNorm)
    } else if s == "ln_2.bias"@ {
        Some(Slot::FfnNormBias)
    } else {
        None
    }
}

/// The weight of the whole model that a Phi name stands for.
pub open spec fn phi_top(s: Seq<char>) -> Option<WeightTarget> {
    if s == "transformer.embd.wte.weight"@ || s == "model.embed_tokens.weight"@ {
        Some(WeightTarget::Embedding)
    } else if s == "transformer.embd.wpe.weight"@ || s == "transformer.wpe.weight"@ {
        Some(WeightTarget::PositionEmbedding)
    } else if s == "transformer.ln_f.weight"@
        || s == "model.norm.weight"@
        || s == "model.final_layernorm.weight"@
        || s == "norm"@ {
        Some(WeightTarget::FinalNorm)
    } else if s == "transformer.ln_f.bias"@ || s == "model.final_layernorm.bias"@ {
        Some(WeightTarget::FinalNormBias)
    } else if s == "lm_head.weight"@ || s == "model.lm_head.weight"@ {
        Some(WeightTarget::LmHead)
    } else {
        None
    }
}

/// The weight of a layer that the rest of a Phi name stands for.
pub open spec fn phi_slot(s: Seq<char>) -> Option<Slot> {
    if s == "attn.q_proj.weight"@ || s == "self_attn.q_proj.weight"@ {
        Some(Slot::AttentionQ)
    } else if s == "attn.q_proj.bias"@ || s == "self_attn.q_proj.bias"@ {
        Some(Slot::AttentionQBias)
    } else if s == "attn.k_proj.weight"@ || s == "self_attn.k_proj.weight"@ {
        Some(Slot::AttentionK)
    } else if s == "attn.k_proj.bias"@ || s == "self_attn.k_proj.bias"@ {
        Some(Slot::AttentionKBias)
    } else if s == "attn.v_proj.weight"@ || s == "self_attn.v_proj.weight"@ {
        Some(Slot::AttentionV)
    } else if s == "attn.v_proj.bias"@ || s == "self_attn.v_proj.bias"@ {
        Some(Slot::AttentionVBias)
    } else if s == "attn.dense.weight"@
        || s == "attn.o_proj.weight"@
        || s == "self_attn.o_proj.weight"@
        || s == "self_attn.dense.weight"@ {
        Some(Slot::AttentionO)
    } else if s == "attn.dense.bias"@
        || s == "attn.o_proj.bias"@
        || s == "self_attn.o_proj.bias"@
        || s == "self_attn.dense.bias"@ {
        Some(Slot::AttentionOBias)
    } else if s == "mlp.fc1.weight"@ || s == "mlp.gate_proj.weight"@ {
        Some(Slot::FfnUp)
    } else if s == "mlp.fc1.bias"@ || s == "mlp.gate_proj.bias"@ {
        Some(Slot::FfnUpBias)
    } else if s == "mlp.fc2.weight"@ || s == "mlp.down_proj.weight"@ {
        Some(Slot::FfnDown)
    } else if s == "mlp.fc2.bias"@ || s == "mlp.down_proj.bias"@ {
        Some(Slot::FfnDownBias)
    } else if s == "ln.weight"@ || s == "input_layernorm.weight"@ {
        Some(Slot::AttnNorm)
    } else if s == "ln.bias"@ || s == "input_layernorm.bias"@ {
        Some(Slot::AttnNormBias)
    } else if s == "post_attention_layernorm.weight"@ {
        Some(Slot::FfnNorm)
    } else if s == "post_attention_layernorm.bias"@ {
        Some(Slot::FfnNormBias)
    } else {
        None
    }
}

/// A weight of a layer at a place.
pub open spec fn placed(layer: usize, slot: Option<Slot>) -> Option<WeightTarget> {
    match slot {
        Some(s) => Some(s.of_layer(layer)),
        None => None,
    }
}

/// The weight that a Llama name stands for.
pub open spec fn llama_target(name: Seq<char>) -> Option<WeightTarget> {
    match llama_top(name) {
        Some(t) => Some(t),
        None => match llama_place(name) {
            Some((layer, rest)) => placed(layer, llama_slot(rest)),
            None => None,
        },
    }
}

/// The weight that a GPT-2 name stands for.
pub open spec fn gpt2_target(name: Seq<char>) -> Option<WeightTarget> {
    match gpt2_top(name) {
        Some(t) => Some(t),
        None => match gpt2_place(name) {
            Some((layer, rest)) => placed(layer, gpt2_slot(rest)),
            None => None,
        },
    }
}

/// The weight that a Phi name stands for; a name without a layer may be a Llama name.
pub open spec fn phi_target(name: Seq<char>) -> Option<WeightTarget> {
    match phi_top(name) {
        Some(t) => Some(t),
        None => match phi_place(name) {
            Some((layer, rest)) => placed(layer, phi_slot(rest)),
            None => llama_target(name),
        },
    }
}

/// The weight that a name of an unknown family stands for: as a Llama name, or else as a GPT-2
/// name, or else as a Phi name.
pub open spec fn custom_target(name: Seq<char>) -> Option<WeightTarget> {
    match llama_target(name) {
        Some(t) => Some(t),
        None => match gpt2_target(name) {
            Some(t) => Some(t),
            None => phi_target(name),
        },
    }
}

/// The weight that a name stands for in a family.
pub open spec fn family_target(name: Seq<char>, arch: super::config::ArchitectureModel) -> Option<WeightTarget> {
    match arch {
        super::config::ArchitectureModel::Gpt2 => gpt2_target(name),
        super::config::ArchitectureModel::Phi => phi_target(name),
        super::config::ArchitectureModel::Custom(_) => custom_target(name),
        _ => llama_target(name),
    }
}

fn llama_top_of(s: &str) -> (r: Option<WeightTarget>)
    ensures
        r == llama_top(s@),
{
    if text::same(s, "tok_embeddings")
        || text::same(s, "token_embd.weight")
        || text::same(s, "model.embed_tokens.weight") {
        Some(WeightTarget::Embedding)
    } else if text::same(s, "norm")
        || text::same(s, "output_norm.weight")
        || text::same(s, "model.norm.weight") {
        Some(WeightTarget::FinalNorm)
    } else if text::same(s, "output") || text::same(s, "lm_head.weight") {
        Some(WeightTarget::LmHead)
    } else {
        None
    }
}

fn llama_slot_of(s: &str) -> (r: Option<Slot>)
    ensures
        r == llama_slot(s@),
{
    if text::same(s, "attention.wq.weight")
        || text::same(s, "attn_q.weight")
        || text::same(s, "self_attn.q_proj.weight") {
        Some(Slot::AttentionQ)
    } else if text::same(s, "attention.wk.weight")
        || text::same(s, "attn_k.weight")
        || text::same(s, "self_attn.k_proj.weight") {
        Some(Slot::AttentionK)
    } else if text::same(s, "attention.wv.weight")
        || text::same(s, "attn_v.weight")
        || text::same(s, "self_attn.v_proj.weight") {
        Some(Slot::AttentionV)
    } else if text::same(s, "attention.wo.weight")
        || text::same(s, "attn_output.weight")
        || text::same(s, "self_attn.o_proj.weight") {
        Some(Slot::AttentionO)
    } else if text::same(s, "self_attn.q_proj.bias") || text::same(s, "attn_q.bias") {
        Some(Slot::AttentionQBias)
    } else if text::same(s, "self_attn.k_proj.bias") || text::same(s, "attn_k.bias") {
        Some(Slot::AttentionKBias)
    } else if text::same(s, "self_attn.v_proj.bias") || text::same(s, "attn_v.bias") {
        Some(Slot::AttentionVBias)
    } else if text::same(s, "self_attn.o_proj.bias") || text::same(s, "attn_output.bias") {
        Some(Slot::AttentionOBias)
    } else if text::same(s, "attn_q_norm.weight") || text::same(s, "self_attn.q_norm.weight") {
        Some(Slot::AttentionQNorm)
    } else if text::same(s, "attn_k_norm.weight") || text::same(s, "self_attn.k_norm.weight") {
        Some(Slot::AttentionKNorm)
    } else if text::same(s, "feed_forward.w1.weight")
        || text::same(s, "ffn_gate.weight")
        || text::same(s, "mlp.gate.weight")
        || text::same(s, "mlp.gate_proj.weight") {
        Some(Slot::FfnGate)
    } else if text::same(s, "feed_forward.w2.weight")
        || text::same(s, "ffn_down.weight")
        || text::same(s, "mlp.down.weight")
        || text::same(s, "mlp.down_proj.weight") {
        Some(Slot::FfnDown)
    } else if text::same(s, "feed_forward.w3.weight")
        || text::same(s, "ffn_up.weight")
        || text::same(s, "mlp.up.weight")
        || text::same(s, "mlp.up_proj.weight") {
        Some(Slot::FfnUp)
    } else if text::same(s, "attention_norm.weight")
        || text::same(s, "attn_norm.weight")
        || text::same(s, "input_layernorm.weight") {
        Some(Slot::AttnNorm)
    } else if text::same(s, "ffn_norm.weight")
        || text::same(s, "mlp_norm.weight")
        || text::same(s, "post_attention_layernorm.weight")
        || text::same(s, "pre_feedforward_layernorm.weight") {
        Some(Slot::FfnNorm)
    } else {
        None
    }
}

fn gpt2_top_of(s: &str) -> (r: Option<WeightTarget>)
    ensures
        r == gpt2_top(s@),
{
    if text::same(s, "transformer.wte.weight")
        || text::same(s, "wte")
        || text::same(s, "model.embed_tokens.weight") {
        Some(WeightTarget::Embedding)
    } else if text::same(s, "transformer.wpe.weight") || text::same(s, "wpe") {
        Some(WeightTarget::PositionEmbedding)
    } else if text::same(s, "transformer.ln_f.weight")
        || text::same(s, "model.norm.weight")
        || text::same(s, "norm") {
        Some(WeightTarget::FinalNorm)
    } else if text::same(s, "transformer.ln_f.bias") {
        Some(WeightTarget::FinalNormBias)
    } else if text::same(s, "lm_head.weight") {
        Some(WeightTarget::LmHead)
    } else {
        None
    }
}

fn gpt2_slot_of(s: &str) -> (r: Option<Slot>)
    ensures
        r == gpt2_slot(s@),
{
    if text::same(s, "attn.c_attn.weight") {
        Some(Slot::AttentionQkvSplit)
    } else if text::same(s, "attn.c_attn.bias") {
        Some(Slot::AttentionQkvBiasSplit)
    } else if text::same(s, "attn.c_proj.weight") {
        Some(Slot::AttentionO)
    } else if text::same(s, "attn.c_proj.bias") {
        Some(Slot::AttentionOBias)
    } else if text::same(s, "mlp.c_fc.weight") {
        Some(Slot::FfnUp)
    } else if text::same(s, "mlp.c_fc.bias") {
        Some(Slot::FfnUpBias)
    } else if text::same(s, "mlp.c_proj.weight") {
        Some(Slot::FfnDown)
    } else if text::same(s, "mlp.c_proj.bias") {
        Some(Slot::FfnDownBias)
    } else if text::same(s, "ln_1.weight") {
        Some(Slot::AttnNorm)
    } else if text::same(s, "ln_1.bias") {
        Some(Slot::AttnNormBias)
    } else if text::same(s, "ln_2.weight") {
        Some(Slot::FfnNorm)
    } else if text::same(s, "ln_2.bias") {
        Some(Slot::FfnNormBias)
    } else {
        None
    }
}

fn phi_top_of(s: &str) -> (r: Option<WeightTarget>)
    ensures
        r == phi_top(s@),
{
    if text::same(s, "transformer.embd.wte.weight") || text::same(s, "model.embed_tokens.weight") {
        Some(WeightTarget::Embedding)
    } else if text::same(s, "transformer.embd.wpe.weight") || text::same(s, "transformer.wpe.weight") {
        Some(WeightTarget::PositionEmbedding)
    } else if text::same(s, "transformer.ln_f.weight")
        || text::same(s, "model.norm.weight")
        || text::same(s, "model.final_layernorm.weight")
        || text::same(s, "norm") {
        Some(WeightTarget::FinalNorm)
    } else if text::same(s, "transformer.ln_f.bias") || text::same(s, "model.final_layernorm.bias") {
        Some(WeightTarget::FinalNormBias)
    } else if text::same(s, "lm_head.weight") || text::same(s, "model.lm_head.weight") {
        Some(WeightTarget::LmHead)
    } else {
        None
    }
}

fn phi_slot_of(s: &str) -> (r: Option<Slot>)
    ensures
        r == phi_slot(s@),
{
    if text::same(s, "attn.q_proj.weight") || text::same(s, "self_attn.q_proj.weight") {
        Some(Slot::AttentionQ)
    } else if text::same(s, "attn.q_proj.bias") || text::same(s, "self_attn.q_proj.bias") {
        Some(Slot::AttentionQBias)
    } else if text::same(s, "attn.k_proj.weight") || text::same(s, "self_attn.k_proj.weight") {
        Some(Slot::AttentionK)
    } else if text::same(s, "attn.k_proj.bias") || text::same(s, "self_attn.k_proj.bias") {
        Some(Slot::AttentionKBias)
    } else if text::same(s, "attn.v_proj.weight") || text::same(s, "self_attn.v_proj.weight") {
        Some(Slot::AttentionV)
    } else if text::same(s, "attn.v_proj.bias") || text::same(s, "self_attn.v_proj.bias") {
        Some(Slot::AttentionVBias)
    } else if text::same(s, "attn.dense.weight")
        || text::same(s, "attn.o_proj.weight")
        || text::same(s, "self_attn.o_proj.weight")
        || text::same(s, "self_attn.dense.weight") {
        Some(Slot::AttentionO)
    } else if text::same(s, "attn.dense.bias")
        || text::same(s, "attn.o_proj.bias")
        || text::same(s, "self_attn.o_proj.bias")
        || text::same(s, "self_attn.dense.bias") {
        Some(Slot::AttentionOBias)
    } else if text::same(s, "mlp.fc1.weight") || text::same(s, "mlp.gate_proj.weight") {
        Some(Slot::FfnUp)
    } else if text::same(s, "mlp.fc1.bias") || text::same(s, "mlp.gate_proj.bias") {
        Some(Slot::FfnUpBias)
    } else if text::same(s, "mlp.fc2.weight") || text::same(s, "mlp.down_proj.weight") {
        Some(Slot::FfnDown)
    } else if text::same(s, "mlp.fc2.bias") || text::same(s, "mlp.down_proj.bias") {
        Some(Slot::FfnDownBias)
    } else if text::same(s, "ln.weight") || text::same(s, "input_layernorm.weight") {
        Some(Slot::AttnNorm)
    } else if text::same(s, "ln.bias") || text::same(s, "input_layernorm.bias") {
        Some(Slot::AttnNormBias)
    } else if text::same(s, "post_attention_layernorm.weight") {
        Some(Slot::FfnNorm)
    } else if text::same(s, "post_attention_layernorm.bias") {
        Some(Slot::FfnNormBias)
    } else {
        None
    }
}

fn is_below(parts: &[String], first: &str, second: &str) -> (r: bool)
    ensures
        r == below(text::texts(parts@), first@, second@),
{
    parts.len() >= 4 && text::same(parts[0].as_str(), first) && text::same(parts[1].as_str(), second)
}

/// Finds the layer number in a part, and the name after it.
pub(crate) fn number_in(parts: &[String], k: usize) -> (r: Option<(usize, String)>)
    requires
        k < parts@.len(),
    ensures
        match r {
            Some((i, rest)) => numbered(text::texts(parts@), k as int) == Some((i, rest@)),
            None => numbered(text::texts(parts@), k as int) is None,
        },
{
    match text::parse_size(parts[k].as_str()) {
        Some(i) => Some((i, text::join_from(parts, k + 1, '.'))),
        None => None,
    }
}

pub(crate) fn unknown(name: &str) -> (r: WeightTarget)
    ensures
        answers(r, name@, None),
{
    WeightTarget::Unknown(name.to_owned())
}

/// Llama names.
pub struct LlamaWeightMapper;

impl LlamaWeightMapper {
    /// The name of a tensor of a layer.
    pub fn layer_tensor_name(layer_idx: usize, weight_type: &str) -> (r: String)
        ensures
            r@ == "layers."@ + text::decimal(layer_idx as nat) + "."@ + weight_type@,
    {
        let head: String = text::joined("layers.", text::decimal_text(layer_idx as u64).as_str());
        let dotted: String = text::joined(head.as_str(), ".");
        text::joined(dotted.as_str(), weight_type)
    }

    /// The weight that a name stands for.
    pub fn map_weight(name: &str, _config: &ModelConfig) -> (r: WeightTarget)
        ensures
            answers(r, name@, llama_target(name@)),
    {
        if let Some(t) = llama_top_of(name) {
            return t;
        }
        let parts: Vec<String> = text::split_text(name, '.');
        let place: Option<(usize, String)> = if is_below(parts.as_slice(), "model", "layers") {
            number_in(parts.as_slice(), 2)
        } else if parts.len() >= 3 && text::same(parts[0].as_str(), "layers") {
            number_in(parts.as_slice(), 1)
        } else {
            None
        };
        match place {
            Some((layer, rest)) => match llama_slot_of(rest.as_str()) {
                Some(s) => s.target(layer),
                None => unknown(name),
            },
            None => unknown(name),
        }
    }
}

/// A way to read tensor names.
pub trait WeightMapper {
    /// The weight that a name stands for; none where the name is unknown.
    spec fn target(name: Seq<char>) -> Option<WeightTarget>;

    /// The weight that a name stands for.
    fn map_weight(name: &str, config: &ModelConfig) -> (r: WeightTarget)
        ensures
            answers(r, name@, Self::target(name@)),
    ;
}

/// GPT-2 names, such as `transformer.h.0.attn.c_attn.weight`.
pub struct Gpt2WeightMapper;

impl WeightMapper for Gpt2WeightMapper {
    open spec fn target(name: Seq<char>) -> Option<WeightTarget> {
        gpt2_target(name)
    }

    fn map_weight(name: &str, _config: &ModelConfig) -> (r: WeightTarget) {
        if let Some(t) = gpt2_top_of(name) {
            return t;
        }
        let parts: Vec<String> = text::split_text(name, '.');
        let place: Option<(usize, String)> = if is_below(parts.as_slice(), "transformer", "h") {
            number_in(parts.as_slice(), 2)
        } else {
            None
        };
        match place {
            Some((layer, rest)) => match gpt2_slot_of(rest.as_str()) {
                Some(s) => s.target(layer),
                None => unknown(name),
            },
            None => unknown(name),
        }
    }
}

/// Phi names, old style (`transformer.h.0.mlp.fc1.weight`) and new style
/// (`model.layers.0.mlp.fc1.weight`).
pub struct PhiWeightMapper;

impl WeightMapper for PhiWeightMapper {
    open spec fn target(name: Seq<char>) -> Option<WeightTarget> {
        phi_target(name)
    }

    fn map_weight(name: &str, config: &ModelConfig) -> (r: WeightTarget) {
        if let Some(t) = phi_top_of(name) {
            return t;
        }
        let parts: Vec<String> = text::split_text(name, '.');
        let place: Option<(usize, String)> = if is_below(parts.as_slice(), "transformer", "h") || is_below(
            parts.as_slice(),
            "model",
            "layers",
        ) {
            number_in(parts.as_slice(), 2)
        } else {
            None
        };
        match place {
            Some((layer, rest)) => match phi_slot_of(rest.as_str()) {
                Some(s) => s.target(layer),
                None => unknown(name),
            },
            None => LlamaWeightMapper::map_weight(name, config),
        }
    }
}

/// Mistral names, which are Llama names.
pub struct MistralWeightMapper;

impl WeightMapper for MistralWeightMapper {
    open spec fn target(name: Seq<char>) -> Option<WeightTarget> {
        llama_target(name)
    }

    fn map_weight(name: &str, config: &ModelConfig) -> (r: WeightTarget) {
        LlamaWeightMapper::map_weight(name, config)
    }
}

/// Qwen names, which are Llama names.
pub struct QwenWeightMapper;

impl WeightMapper for QwenWeightMapper {
    open spec fn target(name: Seq<char>) -> Option<WeightTarget> {
        llama_target(name)
    }

    fn map_weight(name: &str, config: &ModelConfig) -> (r: WeightTarget) {
        LlamaWeightMapper::map_weight(name, config)
    }
}

/// Gemma names, which are Llama names with norms of queries and keys.
pub struct GemmaWeightMapper;

impl WeightMapper for GemmaWeightMapper {
    open spec fn target(name: Seq<char>) -> Option<WeightTarget> {
        llama_target(name)
    }

    fn map_weight(name: &str, config: &ModelConfig) -> (r: WeightTarget) {
        LlamaWeightMapper::map_weight(name, config)
    }
}

/// Names of an unknown family: the first reading that knows the name wins.
pub struct CustomWeightMapper;

impl WeightMapper for CustomWeightMapper {
    open spec fn target(name: Seq<char>) -> Option<WeightTarget> {
        custom_target(name)
    }

    fn map_weight(name: &str, config: &ModelConfig) -> (r: WeightTarget) {
        let llama: WeightTarget = LlamaWeightMapper::map_weight(name, config);
        proof {
            targets_are_known(name@);
        }
        if !matches!(llama, WeightTarget::Unknown(_)) {
            return llama;
        }
        let gpt2: WeightTarget = Gpt2WeightMapper::map_weight(name, config);
        if !matches!(gpt2, WeightTarget::Unknown(_)) {
            return gpt2;
        }
        let phi: WeightTarget = PhiWeightMapper::map_weight(name, config);
        if !matches!(phi, WeightTarget::Unknown(_)) {
            return phi;
        }
        unknown(name)
    }
}

/// A name that stands for a weight is never answered as unknown.
pub proof fn targets_are_known(name: Seq<char>)
    ensures
        llama_target(name) matches Some(t) ==> !(t is Unknown),
        gpt2_target(name) matches Some(t) ==> !(t is Unknown),
        phi_target(name) matches Some(t) ==> !(t is Unknown),
        custom_target(name) matches Some(t) ==> !(t is Unknown),
{
}

/// The name that is made for a tensor of a layer stands for that tensor of that layer.
pub proof fn layer_name_maps_back(layer_idx: usize, weight_type: Seq<char>)
    ensures
        llama_target("layers."@ + text::decimal(layer_idx as nat) + "."@ + weight_type) == placed(layer_idx, llama_slot(weight_type)),
{
    let d = text::decimal(layer_idx as nat);
    let name = "layers."@ + d + "."@ + weight_type;
    reveal_strlit("layers.");
    reveal_strlit("layers");
    reveal_strlit("model");
    reveal_strlit(".");
    text::decimal_value(layer_idx as nat);
    text::size_reads_back(layer_idx);
    let parts = text::split(weight_type, '.');
    assert forall|i: int| 0 <= i < d.len() implies d[i] != '.' by {
        assert(text::is_digit(d[i]));
    }
    text::split_front(d, weight_type, '.');
    text::split_front("layers"@, d.push('.') + weight_type, '.');
    assert(name =~= "layers"@.push('.') + (d.push('.') + weight_type));
    let all = text::split(name, '.');
    assert(all =~= seq!["layers"@, d] + parts);
    text::join_of_split(weight_type, '.');
    assert(all.skip(2) =~= parts);
    assert(parts.len() >= 1) by {
        text::split_nonempty(weight_type, '.');
    }
    assert("layers"@[0] == 'l' && "model"@[0] == 'm');
    reveal_strlit("tok_embeddings");
    reveal_strlit("token_embd.weight");
    reveal_strlit("model.embed_tokens.weight");
    reveal_strlit("norm");
    reveal_strlit("output_norm.weight");
    reveal_strlit("model.norm.weight");
    reveal_strlit("output");
    reveal_strlit("lm_head.weight");
    assert(name[0] == 'l' && name[1] == 'a');
    assert("tok_embeddings"@[0] == 't');
    assert("token_embd.weight"@[0] == 't');
    assert("model.embed_tokens.weight"@[0] == 'm');
    assert("norm"@[0] == 'n');
    assert("output_norm.weight"@[0] == 'o');
    assert("model.norm.weight"@[0] == 'm');
    assert("output"@[0] == 'o');
    assert("lm_head.weight"@[1] == 'm');
}

/// A family never takes a name for one that stands for nothing.
pub proof fn family_target_known(name: Seq<char>, arch: super::config::ArchitectureModel)
    ensures
        family_target(name, arch) matches Some(t) ==> !(t is Unknown),
{
    targets_are_known(name);
}

/// The weight that a name stands for in the model's family.
pub fn map_weight_for_architecture(name: &str, config: &ModelConfig) -> (r: WeightTarget)
    ensures
        answers(r, name@, family_target(name@, config.architecture@)),
{
    match &config.architecture {
        Architecture::Llama => LlamaWeightMapper::map_weight(name, config),
        Architecture::Mistral => MistralWeightMapper::map_weight(name, config),
        Architecture::Gpt2 => Gpt2WeightMapper::map_weight(name, config),
        Architecture::Phi => PhiWeightMapper::map_weight(name, config),
        Architecture::Gemma => GemmaWeightMapper::map_weight(name, config),
        Architecture::Qwen2 | Architecture::Qwen3 => QwenWeightMapper::map_weight(name, config),
        Architecture::Custom(_) => CustomWeightMapper::map_weight(name, config),
    }
}

} // verus!
