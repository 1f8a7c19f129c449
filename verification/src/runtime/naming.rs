//! Names of tensors, and what they stand for.
use super::config::ArchitectureModel;
use super::gguf::GgufInfoModel;
use super::gguf_loader;
use super::weights;
use super::weights::{Slot, WeightTarget};
use crate::text;
use vstd::prelude::*;

verus! {

/// The name of a tensor of a layer: what all layers stand under, the number of the layer and the
/// rest.
pub open spec fn name_at(top: Seq<char>, layer: usize, rest: Seq<char>) -> Seq<char> {
    top + text::decimal(layer as nat) + "."@ + rest
}

/// A name of a layer falls into the two parts above the number, the number and the rest.
proof fn name_falls_apart(first: Seq<char>, second: Seq<char>, top: Seq<char>, layer: usize, rest: Seq<char>)
    requires
        top == first.push('.') + second.push('.'),
        forall|i: int| 0 <= i < first.len() ==> first[i] != '.',
        forall|i: int| 0 <= i < second.len() ==> second[i] != '.',
    ensures
        ({
            let parts = text::split(name_at(top, layer, rest), '.');
            &&& weights::below(parts, first, second)
            &&& weights::numbered(parts, 2) == Some((layer, rest))
        }),
{
    let d = text::decimal(layer as nat);
    let name = name_at(top, layer, rest);
    reveal_strlit(".");
    text::decimal_value(layer as nat);
    text::size_reads_back(layer);
    let parts = text::split(rest, '.');
    assert forall|i: int| 0 <= i < d.len() implies d[i] != '.' by {
        assert(text::is_digit(d[i]));
    }
    text::split_front(d, rest, '.');
    text::split_front(second, d.push('.') + rest, '.');
    text::split_front(first, second.push('.') + (d.push('.') + rest), '.');
    assert(name =~= first.push('.') + (second.push('.') + (d.push('.') + rest)));
    let all = text::split(name, '.');
    assert(all =~= seq![first, second, d] + parts);
    text::join_of_split(rest, '.');
    assert(all.skip(3) =~= parts);
    text::split_nonempty(rest, '.');
}

/// A tensor of layer `i` stands for a weight of layer `i`: the one that the rest of its name stands
/// for. Two layers never share a tensor.
pub proof fn layer_of_a_name_counts(i: usize, rest: Seq<char>, slot: Slot)
    ensures
        weights::llama_slot(rest) == Some(slot) ==> weights::llama_target(name_at("model.layers."@, i, rest)) == Some(slot.of_layer(i)),
        weights::llama_slot(rest) == Some(slot) ==> weights::llama_target(name_at("layers."@, i, rest)) == Some(slot.of_layer(i)),
        weights::gpt2_slot(rest) == Some(slot) ==> weights::gpt2_target(name_at("transformer.h."@, i, rest)) == Some(slot.of_layer(i)),
        weights::phi_slot(rest) == Some(slot) ==> weights::phi_target(name_at("transformer.h."@, i, rest)) == Some(slot.of_layer(i)),
        weights::phi_slot(rest) == Some(slot) ==> weights::phi_target(name_at("model.layers."@, i, rest)) == Some(slot.of_layer(i)),
        weights::llama_slot(rest) is None ==> weights::llama_target(name_at("model.layers."@, i, rest)) is None,
        weights::gpt2_slot(rest) is None ==> weights::gpt2_target(name_at("transformer.h."@, i, rest)) is None,
        weights::phi_slot(rest) is None ==> weights::phi_target(name_at("transformer.h."@, i, rest)) is None,
{
    reveal_strlit("model");
    reveal_strlit("layers");
    reveal_strlit("transformer");
    reveal_strlit("h");
    reveal_strlit("model.layers.");
    reveal_strlit("transformer.h.");
    assert("model.layers."@ =~= "model"@.push('.') + "layers"@.push('.'));
    assert("transformer.h."@ =~= "transformer"@.push('.') + "h"@.push('.'));
    name_falls_apart("model"@, "layers"@, "model.layers."@, i, rest);
    name_falls_apart("transformer"@, "h"@, "transformer.h."@, i, rest);
    weights::layer_name_maps_back(i, rest);
    let a = name_at("model.layers."@, i, rest);
    let b = name_at("transformer.h."@, i, rest);
    assert(a[0] == 'm' && a[6] == 'l' && a[7] == 'a');
    assert(b[0] == 't' && b[12] == 'h' && b[1] == 'r');
    assert("model"@[0] != "transformer"@[0]);
    reveal_strlit("lm_head.weight");
    reveal_strlit("model.embed_tokens.weight");
    reveal_strlit("model.final_layernorm.bias");
    reveal_strlit("model.final_layernorm.weight");
    reveal_strlit("model.lm_head.weight");
    reveal_strlit("model.norm.weight");
    reveal_strlit("norm");
    reveal_strlit("output");
    reveal_strlit("output_norm.weight");
    reveal_strlit("tok_embeddings");
    reveal_strlit("token_embd.weight");
    reveal_strlit("transformer.embd.wpe.weight");
    reveal_strlit("transformer.embd.wte.weight");
    reveal_strlit("transformer.ln_f.bias");
    reveal_strlit("transformer.ln_f.weight");
    reveal_strlit("transformer.wpe.weight");
    reveal_strlit("transformer.wte.weight");
    reveal_strlit("wpe");
    reveal_strlit("wte");
    assert("lm_head.weight"@[0] == 'l');
    assert("model.embed_tokens.weight"@[6] == 'e');
    assert("model.final_layernorm.bias"@[6] == 'f');
    assert("model.final_layernorm.weight"@[6] == 'f');
    assert("model.lm_head.weight"@[7] == 'm');
    assert("model.norm.weight"@[6] == 'n');
    assert("norm"@[0] == 'n');
    assert("output"@[0] == 'o');
    assert("output_norm.weight"@[0] == 'o');
    assert("tok_embeddings"@[1] == 'o');
    assert("token_embd.weight"@[1] == 'o');
    assert("transformer.embd.wpe.weight"@[12] == 'e');
    assert("transformer.embd.wte.weight"@[12] == 'e');
    assert("transformer.ln_f.bias"@[12] == 'l');
    assert("transformer.ln_f.weight"@[12] == 'l');
    assert("transformer.wpe.weight"@[12] == 'w');
    assert("transformer.wte.weight"@[12] == 'w');
    assert("wpe"@[0] == 'w');
    assert("wte"@[0] == 'w');
}

/// The tensors of a layer under their Llama names.
#[verifier::spinoff_prover]
#[verifier::rlimit(60)]
pub proof fn llama_tensors_have_their_names()
    ensures
        weights::llama_slot("attention.wq.weight"@) == Some(Slot::AttentionQ),
        weights::llama_slot("attn_q.weight"@) == Some(Slot::AttentionQ),
        weights::llama_slot("self_attn.q_proj.weight"@) == Some(Slot::AttentionQ),
        weights::llama_slot("attention.wk.weight"@) == Some(Slot::AttentionK),
        weights::llama_slot("attn_k.weight"@) == Some(Slot::AttentionK),
        weights::llama_slot("self_attn.k_proj.weight"@) == Some(Slot::AttentionK),
        weights::llama_slot("attention.wv.weight"@) == Some(Slot::AttentionV),
        weights::llama_slot("attn_v.weight"@) == Some(Slot::AttentionV),
        weights::llama_slot("self_attn.v_proj.weight"@) == Some(Slot::AttentionV),
        weights::llama_slot("attention.wo.weight"@) == Some(Slot::AttentionO),
        weights::llama_slot("attn_output.weight"@) == Some(Slot::AttentionO),
        weights::llama_slot("self_attn.o_proj.weight"@) == Some(Slot::AttentionO),
        weights::llama_slot("self_attn.q_proj.bias"@) == Some(Slot::AttentionQBias),
        weights::llama_slot("attn_q.bias"@) == Some(Slot::AttentionQBias),
        weights::llama_slot("self_attn.k_proj.bias"@) == Some(Slot::AttentionKBias),
        weights::llama_slot("attn_k.bias"@) == Some(Slot::AttentionKBias),
        weights::llama_slot("self_attn.v_proj.bias"@) == Some(Slot::AttentionVBias),
        weights::llama_slot("attn_v.bias"@) == Some(Slot::AttentionVBias),
        weights::llama_slot("self_attn.o_proj.bias"@) == Some(Slot::AttentionOBias),
        weights::llama_slot("attn_output.bias"@) == Some(Slot::AttentionOBias),
        weights::llama_slot("attn_q_norm.weight"@) == Some(Slot::AttentionQNorm),
        weights::llama_slot("self_attn.q_norm.weight"@) == Some(Slot::AttentionQNorm),
        weights::llama_slot("attn_k_norm.weight"@) == Some(Slot::AttentionKNorm),
        weights::llama_slot("self_attn.k_norm.weight"@) == Some(Slot::AttentionKNorm),
        weights::llama_slot("feed_forward.w1.weight"@) == Some(Slot::FfnGate),
        weights::llama_slot("ffn_gate.weight"@) == Some(Slot::FfnGate),
        weights::llama_slot("mlp.gate.weight"@) == Some(Slot::FfnGate),
        weights::llama_slot("mlp.gate_proj.weight"@) == Some(Slot::FfnGate),
        weights::llama_slot("feed_forward.w2.weight"@) == Some(Slot::FfnDown),
        weights::llama_slot("ffn_down.weight"@) == Some(Slot::FfnDown),
        weights::llama_slot("mlp.down.weight"@) == Some(Slot::FfnDown),
        weights::llama_slot("mlp.down_proj.weight"@) == Some(Slot::FfnDown),
        weights::llama_slot("feed_forward.w3.weight"@) == Some(Slot::FfnUp),
        weights::llama_slot("ffn_up.weight"@) == Some(Slot::FfnUp),
        weights::llama_slot("mlp.up.weight"@) == Some(Slot::FfnUp),
        weights::llama_slot("mlp.up_proj.weight"@) == Some(Slot::FfnUp),
        weights::llama_slot("attention_norm.weight"@) == Some(Slot::AttnNorm),
        weights::llama_slot("attn_norm.weight"@) == Some(Slot::AttnNorm),
        weights::llama_slot("input_layernorm.weight"@) == Some(Slot::AttnNorm),
        weights::llama_slot("ffn_norm.weight"@) == Some(Slot::FfnNorm),
        weights::llama_slot("mlp_norm.weight"@) == Some(Slot::FfnNorm),
        weights::llama_slot("post_attention_layernorm.weight"@) == Some(Slot::FfnNorm),
        weights::llama_slot("pre_feedforward_layernorm.weight"@) == Some(Slot::FfnNorm),
{
    reveal_strlit("attention.wq.weight");
    reveal_strlit("attn_q.weight");
    reveal_strlit("self_attn.q_proj.weight");
    reveal_strlit("attention.wk.weight");
    reveal_strlit("attn_k.weight");
    reveal_strlit("self_attn.k_proj.weight");
    reveal_strlit("attention.wv.weight");
    reveal_strlit("attn_v.weight");
    reveal_strlit("self_attn.v_proj.weight");
    reveal_strlit("attention.wo.weight");
    reveal_strlit("attn_output.weight");
    reveal_strlit("self_attn.o_proj.weight");
    reveal_strlit("self_attn.q_proj.bias");
    reveal_strlit("attn_q.bias");
    reveal_strlit("self_attn.k_proj.bias");
    reveal_strlit("attn_k.bias");
    reveal_strlit("self_attn.v_proj.bias");
    reveal_strlit("attn_v.bias");
    reveal_strlit("self_attn.o_proj.bias");
    reveal_strlit("attn_output.bias");
    reveal_strlit("attn_q_norm.weight");
    reveal_strlit("self_attn.q_norm.weight");
    reveal_strlit("attn_k_norm.weight");
    reveal_strlit("self_attn.k_norm.weight");
    reveal_strlit("feed_forward.w1.weight");
    reveal_strlit("ffn_gate.weight");
    reveal_strlit("mlp.gate.weight");
    reveal_strlit("mlp.gate_proj.weight");
    reveal_strlit("feed_forward.w2.weight");
    reveal_strlit("ffn_down.weight");
    reveal_strlit("mlp.down.weight");
    reveal_strlit("mlp.down_proj.weight");
    reveal_strlit("feed_forward.w3.weight");
    reveal_strlit("ffn_up.weight");
    reveal_strlit("mlp.up.weight");
    reveal_strlit("mlp.up_proj.weight");
    reveal_strlit("attention_norm.weight");
    reveal_strlit("attn_norm.weight");
    reveal_strlit("input_layernorm.weight");
    reveal_strlit("ffn_norm.weight");
    reveal_strlit("mlp_norm.weight");
    reveal_strlit("post_attention_layernorm.weight");
    reveal_strlit("pre_feedforward_layernorm.weight");
    assert("attention.wq.weight"@.len() == 19);
    assert("attn_q.weight"@.len() == 13);
    assert("self_attn.q_proj.weight"@.len() == 23);
    assert("attention.wk.weight"@.len() == 19);
    assert("attn_k.weight"@.len() == 13);
    assert("self_attn.k_proj.weight"@.len() == 23);
    assert("attention.wv.weight"@.len() == 19);
    assert("attn_v.weight"@.len() == 13);
    assert("self_attn.v_proj.weight"@.len() == 23);
    assert("attention.wo.weight"@.len() == 19);
    assert("attn_output.weight"@.len() == 18);
    assert("self_attn.o_proj.weight"@.len() == 23);
    assert("self_attn.q_proj.bias"@.len() == 21);
    assert("attn_q.bias"@.len() == 11);
    assert("self_attn.k_proj.bias"@.len() == 21);
    assert("attn_k.bias"@.len() == 11);
    assert("self_attn.v_proj.bias"@.len() == 21);
    assert("attn_v.bias"@.len() == 11);
    assert("self_attn.o_proj.bias"@.len() == 21);
    assert("attn_output.bias"@.len() == 16);
    assert("attn_q_norm.weight"@.len() == 18);
    assert("self_attn.q_norm.weight"@.len() == 23);
    assert("attn_k_norm.weight"@.len() == 18);
    assert("self_attn.k_norm.weight"@.len() == 23);
    assert("feed_forward.w1.weight"@.len() == 22);
    assert("ffn_gate.weight"@.len() == 15);
    assert("mlp.gate.weight"@.len() == 15);
    assert("mlp.gate_proj.weight"@.len() == 20);
    assert("feed_forward.w2.weight"@.len() == 22);
    assert("ffn_down.weight"@.len() == 15);
    assert("mlp.down.weight"@.len() == 15);
    assert("mlp.down_proj.weight"@.len() == 20);
    assert("feed_forward.w3.weight"@.len() == 22);
    assert("ffn_up.weight"@.len() == 13);
    assert("mlp.up.weight"@.len() == 13);
    assert("mlp.up_proj.weight"@.len() == 18);
    assert("attention_norm.weight"@.len() == 21);
    assert("attn_norm.weight"@.len() == 16);
    assert("input_layernorm.weight"@.len() == 22);
    assert("ffn_norm.weight"@.len() == 15);
    assert("mlp_norm.weight"@.len() == 15);
    assert("post_attention_layernorm.weight"@.len() == 31);
    assert("pre_feedforward_layernorm.weight"@.len() == 32);
    assert("attention.wk.weight"@[11] == 'k');
    assert("attention.wq.weight"@[11] == 'q');
    assert("attn_k.weight"@[5] == 'k');
    assert("attn_q.weight"@[5] == 'q');
    assert("self_attn.k_proj.weight"@[10] == 'k');
    assert("self_attn.q_proj.weight"@[10] == 'q');
    assert("attention.wv.weight"@[11] == 'v');
    assert("attn_v.weight"@[5] == 'v');
    assert("self_attn.v_proj.weight"@[10] == 'v');
    assert("attention.wo.weight"@[11] == 'o');
    assert("self_attn.o_proj.weight"@[10] == 'o');
    assert("self_attn.k_proj.bias"@[10] == 'k');
    assert("self_attn.q_proj.bias"@[10] == 'q');
    assert("attn_k.bias"@[5] == 'k');
    assert("attn_q.bias"@[5] == 'q');
    assert("self_attn.v_proj.bias"@[10] == 'v');
    assert("attn_v.bias"@[5] == 'v');
    assert("self_attn.o_proj.bias"@[10] == 'o');
    assert("attn_q_norm.weight"@[5] == 'q');
    assert("attn_output.weight"@[5] == 'o');
    assert("self_attn.q_norm.weight"@[12] == 'n');
    assert("self_attn.q_proj.weight"@[12] == 'p');
    assert("self_attn.q_norm.weight"@[10] == 'q');
    assert("attn_k_norm.weight"@[5] == 'k');
    assert("self_attn.k_norm.weight"@[10] == 'k');
    assert("self_attn.k_norm.weight"@[12] == 'n');
    assert("self_attn.k_proj.weight"@[12] == 'p');
    assert("mlp.gate.weight"@[0] == 'm');
    assert("ffn_gate.weight"@[0] == 'f');
    assert("feed_forward.w2.weight"@[14] == '2');
    assert("feed_forward.w1.weight"@[14] == '1');
    assert("ffn_down.weight"@[4] == 'd');
    assert("ffn_gate.weight"@[4] == 'g');
    assert("ffn_down.weight"@[0] == 'f');
    assert("mlp.down.weight"@[0] == 'm');
    assert("mlp.down.weight"@[4] == 'd');
    assert("mlp.gate.weight"@[4] == 'g');
    assert("mlp.down_proj.weight"@[4] == 'd');
    assert("mlp.gate_proj.weight"@[4] == 'g');
    assert("feed_forward.w3.weight"@[14] == '3');
    assert("ffn_up.weight"@[0] == 'f');
    assert("attn_q.weight"@[0] == 'a');
    assert("attn_k.weight"@[0] == 'a');
    assert("attn_v.weight"@[0] == 'a');
    assert("mlp.up.weight"@[0] == 'm');
    assert("mlp.up_proj.weight"@[0] == 'm');
    assert("attn_output.weight"@[0] == 'a');
    assert("attn_q_norm.weight"@[0] == 'a');
    assert("attn_k_norm.weight"@[0] == 'a');
    assert("attention_norm.weight"@[0] == 'a');
    assert("self_attn.q_proj.bias"@[0] == 's');
    assert("self_attn.k_proj.bias"@[0] == 's');
    assert("self_attn.v_proj.bias"@[0] == 's');
    assert("self_attn.o_proj.bias"@[0] == 's');
    assert("attn_norm.weight"@[5] == 'n');
    assert("attn_output.bias"@[5] == 'o');
    assert("input_layernorm.weight"@[0] == 'i');
    assert("feed_forward.w1.weight"@[0] == 'f');
    assert("feed_forward.w2.weight"@[0] == 'f');
    assert("feed_forward.w3.weight"@[0] == 'f');
    assert("ffn_norm.weight"@[4] == 'n');
    assert("ffn_norm.weight"@[0] == 'f');
    assert("mlp_norm.weight"@[0] == 'm');
    assert("mlp_norm.weight"@[3] == '_');
    assert("mlp.gate.weight"@[3] == '.');
    assert("mlp.down.weight"@[3] == '.');
}

/// The tensors of a layer under their GPT-2 names.
#[verifier::spinoff_prover]
#[verifier::rlimit(60)]
pub proof fn gpt2_tensors_have_their_names()
    ensures
        weights::gpt2_slot("attn.c_attn.weight"@) == Some(Slot::AttentionQkvSplit),
        weights::gpt2_slot("attn.c_attn.bias"@) == Some(Slot::AttentionQkvBiasSplit),
        weights::gpt2_slot("attn.c_proj.weight"@) == Some(Slot::AttentionO),
        weights::gpt2_slot("attn.c_proj.bias"@) == Some(Slot::AttentionOBias),
        weights::gpt2_slot("mlp.c_fc.weight"@) == Some(Slot::FfnUp),
        weights::gpt2_slot("mlp.c_fc.bias"@) == Some(Slot::FfnUpBias),
        weights::gpt2_slot("mlp.c_proj.weight"@) == Some(Slot::FfnDown),
        weights::gpt2_slot("mlp.c_proj.bias"@) == Some(Slot::FfnDownBias),
        weights::gpt2_slot("ln_1.weight"@) == Some(Slot::AttnNorm),
        weights::gpt2_slot("ln_1.bias"@) == Some(Slot::AttnNormBias),
        weights::gpt2_slot("ln_2.weight"@) == Some(Slot::FfnNorm),
        weights::gpt2_slot("ln_2.bias"@) == Some(Slot::FfnNormBias),
{
    reveal_strlit("attn.c_attn.weight");
    reveal_strlit("attn.c_attn.bias");
    reveal_strlit("attn.c_proj.weight");
    reveal_strlit("attn.c_proj.bias");
    reveal_strlit("mlp.c_fc.weight");
    reveal_strlit("mlp.c_fc.bias");
    reveal_strlit("mlp.c_proj.weight");
    reveal_strlit("mlp.c_proj.bias");
    reveal_strlit("ln_1.weight");
    reveal_strlit("ln_1.bias");
    reveal_strlit("ln_2.weight");
    reveal_strlit("ln_2.bias");
    assert("attn.c_attn.weight"@.len() == 18);
    assert("attn.c_attn.bias"@.len() == 16);
    assert("attn.c_proj.weight"@.len() == 18);
    assert("attn.c_proj.bias"@.len() == 16);
    assert("mlp.c_fc.weight"@.len() == 15);
    assert("mlp.c_fc.bias"@.len() == 13);
    assert("mlp.c_proj.weight"@.len() == 17);
    assert("mlp.c_proj.bias"@.len() == 15);
    assert("ln_1.weight"@.len() == 11);
    assert("ln_1.bias"@.len() == 9);
    assert("ln_2.weight"@.len() == 11);
    assert("ln_2.bias"@.len() == 9);
    assert("attn.c_proj.weight"@[7] == 'p');
    assert("attn.c_attn.weight"@[7] == 'a');
    assert("attn.c_proj.bias"@[7] == 'p');
    assert("attn.c_attn.bias"@[7] == 'a');
    assert("mlp.c_proj.bias"@[6] == 'p');
    assert("mlp.c_fc.weight"@[6] == 'f');
    assert("ln_2.weight"@[3] == '2');
    assert("ln_1.weight"@[3] == '1');
    assert("ln_2.bias"@[3] == '2');
    assert("ln_1.bias"@[3] == '1');
}

/// The tensors of a layer under their Phi names.
#[verifier::spinoff_prover]
#[verifier::rlimit(60)]
pub proof fn phi_tensors_have_their_names()
    ensures
        weights::phi_slot("attn.q_proj.weight"@) == Some(Slot::AttentionQ),
        weights::phi_slot("self_attn.q_proj.weight"@) == Some(Slot::AttentionQ),
        weights::phi_slot("attn.q_proj.bias"@) == Some(Slot::AttentionQBias),
        weights::phi_slot("self_attn.q_proj.bias"@) == Some(Slot::AttentionQBias),
        weights::phi_slot("attn.k_proj.weight"@) == Some(Slot::AttentionK),
        weights::phi_slot("self_attn.k_proj.weight"@) == Some(Slot::AttentionK),
        weights::phi_slot("attn.k_proj.bias"@) == Some(Slot::AttentionKBias),
        weights::phi_slot("self_attn.k_proj.bias"@) == Some(Slot::AttentionKBias),
        weights::phi_slot("attn.v_proj.weight"@) == Some(Slot::AttentionV),
        weights::phi_slot("self_attn.v_proj.weight"@) == Some(Slot::AttentionV),
        weights::phi_slot("attn.v_proj.bias"@) == Some(Slot::AttentionVBias),
        weights::phi_slot("self_attn.v_proj.bias"@) == Some(Slot::AttentionVBias),
        weights::phi_slot("attn.dense.weight"@) == Some(Slot::AttentionO),
        weights::phi_slot("attn.o_proj.weight"@) == Some(Slot::AttentionO),
        weights::phi_slot("self_attn.o_proj.weight"@) == Some(Slot::AttentionO),
        weights::phi_slot("self_attn.dense.weight"@) == Some(Slot::AttentionO),
        weights::phi_slot("attn.dense.bias"@) == Some(Slot::AttentionOBias),
        weights::phi_slot("attn.o_proj.bias"@) == Some(Slot::AttentionOBias),
        weights::phi_slot("self_attn.o_proj.bias"@) == Some(Slot::AttentionOBias),
        weights::phi_slot("self_attn.dense.bias"@) == Some(Slot::AttentionOBias),
        weights::phi_slot("mlp.fc1.weight"@) == Some(Slot::FfnUp),
        weights::phi_slot("mlp.gate_proj.weight"@) == Some(Slot::FfnUp),
        weights::phi_slot("mlp.fc1.bias"@) == Some(Slot::FfnUpBias),
        weights::phi_slot("mlp.gate_proj.bias"@) == Some(Slot::FfnUpBias),
        weights::phi_slot("mlp.fc2.weight"@) == Some(Slot::FfnDown),
        weights::phi_slot("mlp.down_proj.weight"@) == Some(Slot::FfnDown),
        weights::phi_slot("mlp.fc2.bias"@) == Some(Slot::FfnDownBias),
        weights::phi_slot("mlp.down_proj.bias"@) == Some(Slot::FfnDownBias),
        weights::phi_slot("ln.weight"@) == Some(Slot::AttnNorm),
        weights::phi_slot("input_layernorm.weight"@) == Some(Slot::AttnNorm),
        weights::phi_slot("ln.bias"@) == Some(Slot::AttnNormBias),
        weights::phi_slot("input_layernorm.bias"@) == Some(Slot::AttnNormBias),
        weights::phi_slot("post_attention_layernorm.weight"@) == Some(Slot::FfnNorm),
        weights::phi_slot("post_attention_layernorm.bias"@) == Some(Slot::FfnNormBias),
{
    reveal_strlit("attn.q_proj.weight");
    reveal_strlit("self_attn.q_proj.weight");
    reveal_strlit("attn.q_proj.bias");
    reveal_strlit("self_attn.q_proj.bias");
    reveal_strlit("attn.k_proj.weight");
    reveal_strlit("self_attn.k_proj.weight");
    reveal_strlit("attn.k_proj.bias");
    reveal_strlit("self_attn.k_proj.bias");
    reveal_strlit("attn.v_proj.weight");
    reveal_strlit("self_attn.v_proj.weight");
    reveal_strlit("attn.v_proj.bias");
    reveal_strlit("self_attn.v_proj.bias");
    reveal_strlit("attn.dense.weight");
    reveal_strlit("attn.o_proj.weight");
    reveal_strlit("self_attn.o_proj.weight");
    reveal_strlit("self_attn.dense.weight");
    reveal_strlit("attn.dense.bias");
    reveal_strlit("attn.o_proj.bias");
    reveal_strlit("self_attn.o_proj.bias");
    reveal_strlit("self_attn.dense.bias");
    reveal_strlit("mlp.fc1.weight");
    reveal_strlit("mlp.gate_proj.weight");
    reveal_strlit("mlp.fc1.bias");
    reveal_strlit("mlp.gate_proj.bias");
    reveal_strlit("mlp.fc2.weight");
    reveal_strlit("mlp.down_proj.weight");
    reveal_strlit("mlp.fc2.bias");
    reveal_strlit("mlp.down_proj.bias");
    reveal_strlit("ln.weight");
    reveal_strlit("input_layernorm.weight");
    reveal_strlit("ln.bias");
    reveal_strlit("input_layernorm.bias");
    reveal_strlit("post_attention_layernorm.weight");
    reveal_strlit("post_attention_layernorm.bias");
    assert("attn.q_proj.weight"@.len() == 18);
    assert("self_attn.q_proj.weight"@.len() == 23);
    assert("attn.q_proj.bias"@.len() == 16);
    assert("self_attn.q_proj.bias"@.len() == 21);
    assert("attn.k_proj.weight"@.len() == 18);
    assert("self_attn.k_proj.weight"@.len() == 23);
    assert("attn.k_proj.bias"@.len() == 16);
    assert("self_attn.k_proj.bias"@.len() == 21);
    assert("attn.v_proj.weight"@.len() == 18);
    assert("self_attn.v_proj.weight"@.len() == 23);
    assert("attn.v_proj.bias"@.len() == 16);
    assert("self_attn.v_proj.bias"@.len() == 21);
    assert("attn.dense.weight"@.len() == 17);
    assert("attn.o_proj.weight"@.len() == 18);
    assert("self_attn.o_proj.weight"@.len() == 23);
    assert("self_attn.dense.weight"@.len() == 22);
    assert("attn.dense.bias"@.len() == 15);
    assert("attn.o_proj.bias"@.len() == 16);
    assert("self_attn.o_proj.bias"@.len() == 21);
    assert("self_attn.dense.bias"@.len() == 20);
    assert("mlp.fc1.weight"@.len() == 14);
    assert("mlp.gate_proj.weight"@.len() == 20);
    assert("mlp.fc1.bias"@.len() == 12);
    assert("mlp.gate_proj.bias"@.len() == 18);
    assert("mlp.fc2.weight"@.len() == 14);
    assert("mlp.down_proj.weight"@.len() == 20);
    assert("mlp.fc2.bias"@.len() == 12);
    assert("mlp.down_proj.bias"@.len() == 18);
    assert("ln.weight"@.len() == 9);
    assert("input_layernorm.weight"@.len() == 22);
    assert("ln.bias"@.len() == 7);
    assert("input_layernorm.bias"@.len() == 20);
    assert("post_attention_layernorm.weight"@.len() == 31);
    assert("post_attention_layernorm.bias"@.len() == 29);
    assert("attn.k_proj.weight"@[5] == 'k');
    assert("attn.q_proj.weight"@[5] == 'q');
    assert("self_attn.k_proj.weight"@[10] == 'k');
    assert("self_attn.q_proj.weight"@[10] == 'q');
    assert("attn.k_proj.bias"@[5] == 'k');
    assert("attn.q_proj.bias"@[5] == 'q');
    assert("self_attn.k_proj.bias"@[10] == 'k');
    assert("self_attn.q_proj.bias"@[10] == 'q');
    assert("attn.v_proj.weight"@[5] == 'v');
    assert("self_attn.v_proj.weight"@[10] == 'v');
    assert("attn.v_proj.bias"@[5] == 'v');
    assert("self_attn.v_proj.bias"@[10] == 'v');
    assert("attn.o_proj.weight"@[5] == 'o');
    assert("self_attn.o_proj.weight"@[10] == 'o');
    assert("attn.o_proj.bias"@[5] == 'o');
    assert("self_attn.o_proj.bias"@[10] == 'o');
    assert("mlp.gate_proj.weight"@[0] == 'm');
    assert("self_attn.dense.bias"@[0] == 's');
    assert("mlp.gate_proj.bias"@[0] == 'm');
    assert("attn.q_proj.weight"@[0] == 'a');
    assert("attn.k_proj.weight"@[0] == 'a');
    assert("attn.v_proj.weight"@[0] == 'a');
    assert("attn.o_proj.weight"@[0] == 'a');
    assert("mlp.fc2.weight"@[6] == '2');
    assert("mlp.fc1.weight"@[6] == '1');
    assert("mlp.down_proj.weight"@[0] == 'm');
    assert("mlp.down_proj.weight"@[4] == 'd');
    assert("mlp.gate_proj.weight"@[4] == 'g');
    assert("mlp.fc2.bias"@[6] == '2');
    assert("mlp.fc1.bias"@[6] == '1');
    assert("mlp.down_proj.bias"@[0] == 'm');
    assert("mlp.down_proj.bias"@[4] == 'd');
    assert("mlp.gate_proj.bias"@[4] == 'g');
    assert("input_layernorm.weight"@[0] == 'i');
    assert("self_attn.dense.weight"@[0] == 's');
    assert("input_layernorm.bias"@[0] == 'i');
}

/// The tensors of the whole model under their Llama names.
#[verifier::spinoff_prover]
pub proof fn llama_model_has_its_names()
    ensures
        weights::llama_target("tok_embeddings"@) == Some(WeightTarget::Embedding),
        weights::llama_target("token_embd.weight"@) == Some(WeightTarget::Embedding),
        weights::llama_target("model.embed_tokens.weight"@) == Some(WeightTarget::Embedding),
        weights::llama_target("norm"@) == Some(WeightTarget::FinalNorm),
        weights::llama_target("output_norm.weight"@) == Some(WeightTarget::FinalNorm),
        weights::llama_target("model.norm.weight"@) == Some(WeightTarget::FinalNorm),
        weights::llama_target("output"@) == Some(WeightTarget::LmHead),
        weights::llama_target("lm_head.weight"@) == Some(WeightTarget::LmHead),
{
    reveal_strlit("tok_embeddings");
    reveal_strlit("token_embd.weight");
    reveal_strlit("model.embed_tokens.weight");
    reveal_strlit("norm");
    reveal_strlit("output_norm.weight");
    reveal_strlit("model.norm.weight");
    reveal_strlit("output");
    reveal_strlit("lm_head.weight");
    assert("tok_embeddings"@.len() == 14);
    assert("token_embd.weight"@.len() == 17);
    assert("model.embed_tokens.weight"@.len() == 25);
    assert("norm"@.len() == 4);
    assert("output_norm.weight"@.len() == 18);
    assert("model.norm.weight"@.len() == 17);
    assert("output"@.len() == 6);
    assert("lm_head.weight"@.len() == 14);
    assert("model.norm.weight"@[0] == 'm');
    assert("token_embd.weight"@[0] == 't');
    assert("lm_head.weight"@[0] == 'l');
    assert("tok_embeddings"@[0] == 't');
}

/// The tensors of the whole model under their GPT-2 names.
#[verifier::spinoff_prover]
pub proof fn gpt2_model_has_its_names()
    ensures
        weights::gpt2_target("transformer.wte.weight"@) == Some(WeightTarget::Embedding),
        weights::gpt2_target("wte"@) == Some(WeightTarget::Embedding),
        weights::gpt2_target("model.embed_tokens.weight"@) == Some(WeightTarget::Embedding),
        weights::gpt2_target("transformer.wpe.weight"@) == Some(WeightTarget::PositionEmbedding),
        weights::gpt2_target("wpe"@) == Some(WeightTarget::PositionEmbedding),
        weights::gpt2_target("transformer.ln_f.weight"@) == Some(WeightTarget::FinalNorm),
        weights::gpt2_target("model.norm.weight"@) == Some(WeightTarget::FinalNorm),
        weights::gpt2_target("norm"@) == Some(WeightTarget::FinalNorm),
        weights::gpt2_target("transformer.ln_f.bias"@) == Some(WeightTarget::FinalNormBias),
        weights::gpt2_target("lm_head.weight"@) == Some(WeightTarget::LmHead),
{
    reveal_strlit("transformer.wte.weight");
    reveal_strlit("wte");
    reveal_strlit("model.embed_tokens.weight");
    reveal_strlit("transformer.wpe.weight");
    reveal_strlit("wpe");
    reveal_strlit("transformer.ln_f.weight");
    reveal_strlit("model.norm.weight");
    reveal_strlit("norm");
    reveal_strlit("transformer.ln_f.bias");
    reveal_strlit("lm_head.weight");
    assert("transformer.wte.weight"@.len() == 22);
    assert("wte"@.len() == 3);
    assert("model.embed_tokens.weight"@.len() == 25);
    assert("transformer.wpe.weight"@.len() == 22);
    assert("wpe"@.len() == 3);
    assert("transformer.ln_f.weight"@.len() == 23);
    assert("model.norm.weight"@.len() == 17);
    assert("norm"@.len() == 4);
    assert("transformer.ln_f.bias"@.len() == 21);
    assert("lm_head.weight"@.len() == 14);
    assert("transformer.wpe.weight"@[13] == 'p');
    assert("transformer.wte.weight"@[13] == 't');
    assert("wpe"@[1] == 'p');
    assert("wte"@[1] == 't');
}

/// The tensors of the whole model under their Phi names.
#[verifier::spinoff_prover]
pub proof fn phi_model_has_its_names()
    ensures
        weights::phi_target("transformer.embd.wte.weight"@) == Some(WeightTarget::Embedding),
        weights::phi_target("model.embed_tokens.weight"@) == Some(WeightTarget::Embedding),
        weights::phi_target("transformer.embd.wpe.weight"@) == Some(WeightTarget::PositionEmbedding),
        weights::phi_target("transformer.wpe.weight"@) == Some(WeightTarget::PositionEmbedding),
        weights::phi_target("transformer.ln_f.weight"@) == Some(WeightTarget::FinalNorm),
        weights::phi_target("model.norm.weight"@) == Some(WeightTarget::FinalNorm),
        weights::phi_target("model.final_layernorm.weight"@) == Some(WeightTarget::FinalNorm),
        weights::phi_target("norm"@) == Some(WeightTarget::FinalNorm),
        weights::phi_target("transformer.ln_f.bias"@) == Some(WeightTarget::FinalNormBias),
        weights::phi_target("model.final_layernorm.bias"@) == Some(WeightTarget::FinalNormBias),
        weights::phi_target("lm_head.weight"@) == Some(WeightTarget::LmHead),
        weights::phi_target("model.lm_head.weight"@) == Some(WeightTarget::LmHead),
{
    reveal_strlit("transformer.embd.wte.weight");
    reveal_strlit("model.embed_tokens.weight");
    reveal_strlit("transformer.embd.wpe.weight");
    reveal_strlit("transformer.wpe.weight");
    reveal_strlit("transformer.ln_f.weight");
    reveal_strlit("model.norm.weight");
    reveal_strlit("model.final_layernorm.weight");
    reveal_strlit("norm");
    reveal_strlit("transformer.ln_f.bias");
    reveal_strlit("model.final_layernorm.bias");
    reveal_strlit("lm_head.weight");
    reveal_strlit("model.lm_head.weight");
    assert("transformer.embd.wte.weight"@.len() == 27);
    assert("model.embed_tokens.weight"@.len() == 25);
    assert("transformer.embd.wpe.weight"@.len() == 27);
    assert("transformer.wpe.weight"@.len() == 22);
    assert("transformer.ln_f.weight"@.len() == 23);
    assert("model.norm.weight"@.len() == 17);
    assert("model.final_layernorm.weight"@.len() == 28);
    assert("norm"@.len() == 4);
    assert("transformer.ln_f.bias"@.len() == 21);
    assert("model.final_layernorm.bias"@.len() == 26);
    assert("lm_head.weight"@.len() == 14);
    assert("model.lm_head.weight"@.len() == 20);
    assert("transformer.embd.wpe.weight"@[18] == 'p');
    assert("transformer.embd.wte.weight"@[18] == 't');
}

/// The tensors of a layer under their names in GGUF files.
#[verifier::spinoff_prover]
pub proof fn gguf_tensors_have_their_names()
    ensures
        gguf_loader::gguf_slot("attn_q.weight"@) == Some(Slot::AttentionQ),
        gguf_loader::gguf_slot("attn_k.weight"@) == Some(Slot::AttentionK),
        gguf_loader::gguf_slot("attn_v.weight"@) == Some(Slot::AttentionV),
        gguf_loader::gguf_slot("attn_output.weight"@) == Some(Slot::AttentionO),
        gguf_loader::gguf_slot("attn_q.bias"@) == Some(Slot::AttentionQBias),
        gguf_loader::gguf_slot("attn_k.bias"@) == Some(Slot::AttentionKBias),
        gguf_loader::gguf_slot("attn_v.bias"@) == Some(Slot::AttentionVBias),
        gguf_loader::gguf_slot("ffn_gate.weight"@) == Some(Slot::FfnGate),
        gguf_loader::gguf_slot("ffn_down.weight"@) == Some(Slot::FfnDown),
        gguf_loader::gguf_slot("ffn_up.weight"@) == Some(Slot::FfnUp),
        gguf_loader::gguf_slot("attn_norm.weight"@) == Some(Slot::AttnNorm),
        gguf_loader::gguf_slot("ffn_norm.weight"@) == Some(Slot::FfnNorm),
{
    reveal_strlit("attn_q.weight");
    reveal_strlit("attn_k.weight");
    reveal_strlit("attn_v.weight");
    reveal_strlit("attn_output.weight");
    reveal_strlit("attn_q.bias");
    reveal_strlit("attn_k.bias");
    reveal_strlit("attn_v.bias");
    reveal_strlit("ffn_gate.weight");
    reveal_strlit("ffn_down.weight");
    reveal_strlit("ffn_up.weight");
    reveal_strlit("attn_norm.weight");
    reveal_strlit("ffn_norm.weight");
    assert("attn_q.weight"@.len() == 13);
    assert("attn_k.weight"@.len() == 13);
    assert("attn_v.weight"@.len() == 13);
    assert("attn_output.weight"@.len() == 18);
    assert("attn_q.bias"@.len() == 11);
    assert("attn_k.bias"@.len() == 11);
    assert("attn_v.bias"@.len() == 11);
    assert("ffn_gate.weight"@.len() == 15);
    assert("ffn_down.weight"@.len() == 15);
    assert("ffn_up.weight"@.len() == 13);
    assert("attn_norm.weight"@.len() == 16);
    assert("ffn_norm.weight"@.len() == 15);
    assert("attn_k.weight"@[5] == 'k');
    assert("attn_q.weight"@[5] == 'q');
    assert("attn_v.weight"@[5] == 'v');
    assert("attn_k.bias"@[5] == 'k');
    assert("attn_q.bias"@[5] == 'q');
    assert("attn_v.bias"@[5] == 'v');
    assert("ffn_down.weight"@[4] == 'd');
    assert("ffn_gate.weight"@[4] == 'g');
    assert("ffn_up.weight"@[0] == 'f');
    assert("attn_q.weight"@[0] == 'a');
    assert("attn_k.weight"@[0] == 'a');
    assert("attn_v.weight"@[0] == 'a');
    assert("ffn_norm.weight"@[4] == 'n');
}

/// The tensors of the whole model under their names in GGUF files.
#[verifier::spinoff_prover]
pub proof fn gguf_model_has_its_names()
    ensures
        gguf_loader::gguf_target("token_embd.weight"@) == Some(WeightTarget::Embedding),
        gguf_loader::gguf_target("output_norm.weight"@) == Some(WeightTarget::FinalNorm),
        gguf_loader::gguf_target("output.weight"@) == Some(WeightTarget::LmHead),
{
    reveal_strlit("token_embd.weight");
    reveal_strlit("output_norm.weight");
    reveal_strlit("output.weight");
    assert("token_embd.weight"@.len() == 17);
    assert("output_norm.weight"@.len() == 18);
    assert("output.weight"@.len() == 13);
}

/// A tensor of layer `i` of a GGUF file stands for a weight of layer `i`.
pub proof fn layer_of_a_gguf_name_counts(i: usize, rest: Seq<char>, slot: Slot)
    ensures
        gguf_loader::gguf_slot(rest) == Some(slot) ==> gguf_loader::gguf_target(name_at("blk."@, i, rest)) == Some(slot.of_layer(i)),
        gguf_loader::gguf_slot(rest) is None ==> gguf_loader::gguf_target(name_at("blk."@, i, rest)) is None,
{
    let d = text::decimal(i as nat);
    let name = name_at("blk."@, i, rest);
    reveal_strlit("blk.");
    reveal_strlit("blk");
    reveal_strlit(".");
    text::decimal_value(i as nat);
    text::size_reads_back(i);
    let parts = text::split(rest, '.');
    assert forall|k: int| 0 <= k < d.len() implies d[k] != '.' by {
        assert(text::is_digit(d[k]));
    }
    text::split_front(d, rest, '.');
    text::split_front("blk"@, d.push('.') + rest, '.');
    assert(name =~= "blk"@.push('.') + (d.push('.') + rest));
    let all = text::split(name, '.');
    assert(all =~= seq!["blk"@, d] + parts);
    text::join_of_split(rest, '.');
    assert(all.skip(2) =~= parts);
    text::split_nonempty(rest, '.');
    reveal_strlit("token_embd.weight");
    reveal_strlit("output_norm.weight");
    reveal_strlit("output.weight");
    assert(name[0] == 'b');
    assert("token_embd.weight"@[0] == 't');
    assert("output_norm.weight"@[0] == 'o');
    assert("output.weight"@[0] == 'o');
}

/// A tensor is found by its name: the first of that name, if there is one.
pub proof fn first_tensor_of_a_name_is_found(list: Seq<GgufInfoModel>, name: Seq<char>, i: int)
    requires
        0 <= i <= list.len(),
        i < list.len() ==> list[i].name == name,
        forall|j: int| 0 <= j < i ==> (#[trigger] list[j]).name != name,
    ensures
        gguf_loader::find_info(list, name) == (if i < list.len() {
            Some(list[i])
        } else {
            None
        }),
    decreases list.len(),
{
    if i > 0 {
        assert(list[0].name != name);
        let rest = list.drop_first();
        assert forall|j: int| 0 <= j < i - 1 implies (#[trigger] rest[j]).name != name by {
            assert(rest[j] == list[j + 1]);
        }
        first_tensor_of_a_name_is_found(rest, name, i - 1);
    }
}

/// A weight of a layer is named after its role, and keeps the number of its layer.
pub proof fn weight_keeps_its_role(i: usize)
    ensures
        Slot::AttentionQ.of_layer(i) == (WeightTarget::AttentionQ { layer_idx: i }),
        Slot::AttentionK.of_layer(i) == (WeightTarget::AttentionK { layer_idx: i }),
        Slot::AttentionV.of_layer(i) == (WeightTarget::AttentionV { layer_idx: i }),
        Slot::AttentionO.of_layer(i) == (WeightTarget::AttentionO { layer_idx: i }),
        Slot::AttentionQBias.of_layer(i) == (WeightTarget::AttentionQBias { layer_idx: i }),
        Slot::AttentionKBias.of_layer(i) == (WeightTarget::AttentionKBias { layer_idx: i }),
        Slot::AttentionVBias.of_layer(i) == (WeightTarget::AttentionVBias { layer_idx: i }),
        Slot::AttentionOBias.of_layer(i) == (WeightTarget::AttentionOBias { layer_idx: i }),
        Slot::AttentionQkvSplit.of_layer(i) == (WeightTarget::AttentionQkvSplit { layer_idx: i }),
        Slot::AttentionQkvBiasSplit.of_layer(i) == (WeightTarget::AttentionQkvBiasSplit { layer_idx: i }),
        Slot::AttentionQNorm.of_layer(i) == (WeightTarget::AttentionQNorm { layer_idx: i }),
        Slot::AttentionKNorm.of_layer(i) == (WeightTarget::AttentionKNorm { layer_idx: i }),
        Slot::FfnGate.of_layer(i) == (WeightTarget::FfnGate { layer_idx: i }),
        Slot::FfnGateBias.of_layer(i) == (WeightTarget::FfnGateBias { layer_idx: i }),
        Slot::FfnDown.of_layer(i) == (WeightTarget::FfnDown { layer_idx: i }),
        Slot::FfnDownBias.of_layer(i) == (WeightTarget::FfnDownBias { layer_idx: i }),
        Slot::FfnUp.of_layer(i) == (WeightTarget::FfnUp { layer_idx: i }),
        Slot::FfnUpBias.of_layer(i) == (WeightTarget::FfnUpBias { layer_idx: i }),
        Slot::AttnNorm.of_layer(i) == (WeightTarget::AttnNorm { layer_idx: i }),
        Slot::AttnNormBias.of_layer(i) == (WeightTarget::AttnNormBias { layer_idx: i }),
        Slot::FfnNorm.of_layer(i) == (WeightTarget::FfnNorm { layer_idx: i }),
        Slot::FfnNormBias.of_layer(i) == (WeightTarget::FfnNormBias { layer_idx: i }),
{
}

/// Each family reads names in its own way; Mistral, Gemma and Qwen read them as Llama does, and a
/// family that is not known takes the first reading that knows the name.
pub proof fn families_read_names(name: Seq<char>, family: Seq<char>)
    ensures
        weights::family_target(name, ArchitectureModel::Llama) == weights::llama_target(name),
        weights::family_target(name, ArchitectureModel::Mistral) == weights::llama_target(name),
        weights::family_target(name, ArchitectureModel::Gemma) == weights::llama_target(name),
        weights::family_target(name, ArchitectureModel::Qwen2) == weights::llama_target(name),
        weights::family_target(name, ArchitectureModel::Qwen3) == weights::llama_target(name),
        weights::family_target(name, ArchitectureModel::Gpt2) == weights::gpt2_target(name),
        weights::family_target(name, ArchitectureModel::Phi) == weights::phi_target(name),
        weights::llama_target(name) is Some ==> weights::family_target(name, ArchitectureModel::Custom(family)) == weights::llama_target(name),
        weights::llama_target(name) is None && weights::gpt2_target(name) is Some ==> weights::family_target(
            name,
            ArchitectureModel::Custom(family),
        ) == weights::gpt2_target(name),
        weights::family_target(name, ArchitectureModel::Custom(family)) is None <==> weights::llama_target(name) is None && weights::gpt2_target(
            name,
        ) is None && weights::phi_target(name) is None,
{
}

/// A name that stands for nothing is handed back as it is.
pub proof fn unknown_names_are_handed_back(r: WeightTarget, name: Seq<char>, t: WeightTarget)
    ensures
        weights::answers(r, name, Some(t)) ==> r == t,
        weights::answers(r, name, None) ==> r is Unknown && r->Unknown_0@ == name,
{
}

} // verus!
