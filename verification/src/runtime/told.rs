//! What a configuration file tells of a model.
use super::config;
use super::config::{Activation, ArchitectureModel, ModelConfig, Real};
use super::gguf;
use super::gguf::MetaModel;
use super::gguf_loader;
use super::worth;
use crate::json;
use crate::json::JsonModel;
use vstd::arithmetic::power2;
use vstd::prelude::*;

verus! {

/// The first value under a key is the one that counts; there is none where no key is the same.
pub proof fn first_value_under_a_key_counts(entries: Seq<(Seq<char>, JsonModel)>, key: Seq<char>, i: int)
    requires
        0 <= i <= entries.len(),
        i < entries.len() ==> entries[i].0 == key,
        forall|j: int| 0 <= j < i ==> (#[trigger] entries[j]).0 != key,
    ensures
        JsonModel::Object(entries).field(key) == (if i < entries.len() {
            Some(entries[i].1)
        } else {
            None
        }),
    decreases entries.len(),
{
    if i > 0 {
        assert(entries[0].0 != key);
        let rest = entries.drop_first();
        assert forall|j: int| 0 <= j < i - 1 implies (#[trigger] rest[j]).0 != key by {
            assert(rest[j] == entries[j + 1]);
        }
        first_value_under_a_key_counts(rest, key, i - 1);
        assert(JsonModel::Object(rest).field(key) == json::first_entry(rest, key));
    }
}

/// Only objects have keys.
pub proof fn only_objects_have_keys(v: JsonModel, key: Seq<char>)
    ensures
        !(v is Object) ==> v.field(key) is None,
{
}

/// A number of the file.
pub open spec fn number(natural: u64, double: Option<u64>) -> Option<JsonModel> {
    Some(JsonModel::Number { natural: Some(natural), double })
}

/// Sizes are taken from the file as they are.
pub proof fn sizes_are_taken_from_the_file(v: JsonModel, c: ModelConfig, n: u64, d: Option<u64>)
    requires
        config::missing(v) is None,
        config::describes(v, c),
        n <= usize::MAX,
    ensures
        v.field("vocab_size"@) == number(n, d) ==> c.vocab_size == n,
        v.field("hidden_size"@) == number(n, d) ==> c.hidden_size == n,
        v.field("num_hidden_layers"@) == number(n, d) ==> c.num_layers == n,
        v.field("num_hidden_layers"@) is None && v.field("num_layers"@) == number(n, d) ==> c.num_layers == n,
        v.field("num_attention_heads"@) == number(n, d) ==> c.num_heads == n,
        v.field("num_attention_heads"@) is None && v.field("num_heads"@) == number(n, d) ==> c.num_heads == n,
        v.field("num_key_value_heads"@) == number(n, d) ==> c.num_kv_heads == Some(n as usize) && c.kv_heads() == n,
        v.field("num_key_value_heads"@) is None ==> c.num_kv_heads is None && c.kv_heads() == c.num_heads,
        v.field("intermediate_size"@) == number(n, d) ==> c.intermediate_size == n,
        v.field("max_position_embeddings"@) == number(n, d) ==> c.max_seq_len == n,
        v.field("max_position_embeddings"@) is None && v.field("max_seq_len"@) == number(n, d) ==> c.max_seq_len == n,
        v.field("sliding_window"@) == number(n, d) ==> c.sliding_window == Some(n as usize),
        v.field("sliding_window"@) is None ==> c.sliding_window is None,
        v.field("head_dim"@) == number(n, d) ==> c.head_dim == Some(n as usize) && c.head_width() == n,
        v.field("head_dim"@) is None ==> c.head_dim is None,
        v.field("head_dim"@) is None && 0 < c.num_heads ==> c.head_width() * c.num_heads <= c.hidden_size < (c.head_width() + 1) * c.num_heads,
{
    if c.num_heads > 0 {
        let h = c.hidden_size as int;
        let k = c.num_heads as int;
        vstd::arithmetic::div_mod::lemma_fundamental_div_mod(h, k);
        vstd::arithmetic::div_mod::lemma_mod_bound(h, k);
        assert((h / k) * k == k * (h / k) && (h / k + 1) * k == k * (h / k) + k) by (nonlinear_arith);
    }
}

/// A file has to tell the width, the layers and the heads of a model; the first of these that is
/// not told is complained of.
pub proof fn missing_sizes_are_complained_of(v: JsonModel, n: u64, d: Option<u64>)
    ensures
        v.field("hidden_size"@) is None ==> config::missing(v) == Some("missing `hidden_size`"@),
        v.field("hidden_size"@) == number(n, d) && v.field("num_hidden_layers"@) is None && v.field("num_layers"@) is None ==> config::missing(v)
            == Some("missing `num_hidden_layers`"@),
        v.field("hidden_size"@) == number(n, d) && v.field("num_hidden_layers"@) == number(n, d) && v.field("num_attention_heads"@) is None
            && v.field("num_heads"@) is None ==> config::missing(v) == Some("missing `num_attention_heads`"@),
        v.field("hidden_size"@) == number(n, d) && v.field("num_hidden_layers"@) == number(n, d) && v.field("num_attention_heads"@) == number(
            n,
            d,
        ) ==> config::missing(v) is None,
{
}

/// Floats and truth values are taken from the file as they are.
pub proof fn values_are_taken_from_the_file(v: JsonModel, c: ModelConfig, n: u64, x: u64, b: bool)
    requires
        config::missing(v) is None,
        config::describes(v, c),
    ensures
        v.field("rms_norm_eps"@) == number(n, Some(x)) ==> c.norm_eps == Real::Double(x),
        v.field("rms_norm_eps"@) is None && v.field("layer_norm_eps"@) == number(n, Some(x)) ==> c.norm_eps == Real::Double(x),
        v.field("rope_theta"@) == number(n, Some(x)) ==> c.rope_theta == Real::Double(x),
        v.field("attn_logit_softcapping"@) == number(n, Some(x)) ==> c.attn_logit_softcap == Some(Real::Double(x)),
        v.field("attn_logit_softcapping"@) is None ==> c.attn_logit_softcap is None,
        v.field("final_logit_softcapping"@) == number(n, Some(x)) ==> c.final_logit_softcap == Some(Real::Double(x)),
        v.field("final_logit_softcapping"@) is None ==> c.final_logit_softcap is None,
        v.field("tie_word_embeddings"@) == Some(JsonModel::Bool(b)) ==> c.tie_word_embeddings == b,
        v.field("sub_ln"@) == Some(JsonModel::Bool(b)) ==> c.sub_ln == b,
        v.field("use_rope"@) == Some(JsonModel::Bool(b)) ==> c.use_rope == b,
        v.field("qk_norm"@) == Some(JsonModel::Bool(b)) ==> c.qk_norm == b,
{
}

/// Positions are stretched as the file tells: linearly and by one, where it tells neither.
pub proof fn stretching_is_taken_from_the_file(v: JsonModel, c: ModelConfig, entries: Seq<(Seq<char>, JsonModel)>, n: u64, x: u64, kind: Seq<char>)
    requires
        config::missing(v) is None,
        config::describes(v, c),
    ensures
        ({
            let o = JsonModel::Object(entries);
            v.field("rope_scaling"@) == Some(o) ==> {
                &&& c.rope_scaling is Some
                &&& o.field("type"@) == Some(JsonModel::Text(kind)) ==> c.rope_scaling.unwrap().kind@ == kind
                &&& o.field("type"@) is None ==> c.rope_scaling.unwrap().kind@ == "linear"@
                &&& o.field("factor"@) == number(n, Some(x)) ==> c.rope_scaling.unwrap().factor == Real::Double(x) && c.stretch() == Real::Double(x)
                &&& o.field("factor"@) is None ==> c.stretch() == Real::Single(0x3f80_0000)
            }
        }),
        v.field("rope_scaling"@) is None || v.field("rope_scaling"@) == Some(JsonModel::Null) ==> c.rope_scaling is None && c.stretch()
            == Real::Single(0x3f80_0000),
        worth::worth(0x3f80_0000) == worth::one(),
{
    assert(worth::exponent(0x3f80_0000) == 127 && worth::mantissa(0x3f80_0000) == 0);
    power2::lemma_pow2_adds(23, 126);
    power2::lemma2_to64();
}

/// What a file does not tell is as it mostly is.
pub proof fn untold_values_have_their_defaults(v: JsonModel, c: ModelConfig)
    requires
        config::missing(v) is None,
        config::describes(v, c),
    ensures
        v.field("vocab_size"@) is None ==> c.vocab_size == 32000,
        v.field("intermediate_size"@) is None && 4 * c.hidden_size <= usize::MAX ==> c.intermediate_size == 4 * c.hidden_size,
        v.field("max_position_embeddings"@) is None && v.field("max_seq_len"@) is None ==> c.max_seq_len == 2048,
        v.field("rms_norm_eps"@) is None && v.field("layer_norm_eps"@) is None ==> (c.norm_eps matches Real::Single(e) && worth::nearest(
            e as int,
            1,
            100000,
        )),
        v.field("rope_theta"@) is None ==> (c.rope_theta matches Real::Single(t) && worth::worth(t as int) == 10000 * worth::one()),
        v.field("tie_word_embeddings"@) is None ==> !c.tie_word_embeddings,
        v.field("sub_ln"@) is None ==> !c.sub_ln,
        v.field("use_rope"@) is None ==> c.use_rope == !(c.architecture is Gpt2 || c.architecture is Phi),
        v.field("qk_norm"@) is None ==> c.qk_norm == (c.architecture is Gemma),
{
    if 4 * c.hidden_size <= usize::MAX {
        four_times(c.hidden_size);
    }
    constants_are_worth_what_they_say();
}

proof fn four_times(n: usize)
    requires
        4 * n <= usize::MAX,
    ensures
        n.wrapping_mul(4) == 4 * n,
{
    let span = (usize::MAX + 1) as nat;
    vstd::arithmetic::div_mod::lemma_small_mod((n as nat * 4) as nat, span);
}

proof fn constants_are_worth_what_they_say()
    ensures
        worth::nearest(0x3727_c5ac, 1, 100000),
        worth::worth(0x461c_4000) == 10000 * worth::one(),
{
    reveal(worth::nearest);
    power2::lemma2_to64();
    power2::lemma_pow2_pos(109);
    let e = 0x3727_c5acint;
    assert(worth::exponent(e) == 110 && worth::mantissa(e) == 0x27_c5ac);
    let g = power2::pow2(109) as int;
    power2::lemma_pow2_adds(20, 20);
    power2::lemma_pow2_adds(40, 109);
    assert(worth::spacing(e) == g);
    assert(worth::one() == 0x100_0000_0000 * g);
    assert(worth::worth(e) == 0xa7_c5ac * g) by (nonlinear_arith)
        requires
            worth::worth(e) == (0x80_0000 + 0x27_c5ac) * g,
    ;
    assert((0xa7_c5ac * g) * 100000 == 0xa7_c5ac * 100000 * g) by (nonlinear_arith);
    let t = 0x461c_4000int;
    assert(worth::exponent(t) == 140 && worth::mantissa(t) == 0x1c_4000);
    power2::lemma_pow2_adds(10, 139);
    let s = power2::pow2(139) as int;
    assert(worth::spacing(t) == s);
    assert(worth::worth(t) == 0x9c_4000 * s) by (nonlinear_arith)
        requires
            worth::worth(t) == (0x80_0000 + 0x1c_4000) * s,
    ;
    assert(worth::one() == 0x400 * s);
}

/// GPT-2 and Phi normalize with means and learn their positions; the others do neither.
pub proof fn families_have_their_ways(v: JsonModel, c: ModelConfig, n: u64, d: Option<u64>)
    requires
        config::missing(v) is None,
        config::describes(v, c),
        n <= usize::MAX,
    ensures
        c.architecture is Gpt2 || c.architecture is Phi ==> c.norm_type is LayerNorm && c.position_embeddings is Some,
        !(c.architecture is Gpt2 || c.architecture is Phi) ==> c.norm_type is RmsNorm && c.position_embeddings is None,
        (c.architecture is Gpt2 || c.architecture is Phi) && v.field("position_embeddings"@) == number(n, d) ==> c.position_embeddings == Some(
            n as usize,
        ),
        (c.architecture is Gpt2 || c.architecture is Phi) && v.field("position_embeddings"@) is None ==> c.position_embeddings == Some(
            c.max_seq_len,
        ),
        c.one_centered_norm == (c.architecture is Gemma),
{
}

/// The feed-forward block follows from the name of the activation, from whether the family has
/// gates, and, where there is no name, from the family alone.
pub proof fn activation_is_as_named(v: JsonModel, c: ModelConfig, s: Seq<char>)
    requires
        config::missing(v) is None,
        config::describes(v, c),
        ({
            ||| v.field("hidden_act"@) == Some(JsonModel::Text(s))
            ||| v.field("hidden_act"@) is None && v.field("hidden_activation"@) == Some(JsonModel::Text(s))
            ||| v.field("hidden_act"@) is None && v.field("hidden_activation"@) is None && v.field("activation_function"@) == Some(
                JsonModel::Text(s),
            )
        }),
    ensures
        s == "silu"@ || s == "swish"@ ==> c.activation is SiluGated,
        s == "gelu"@ ==> c.activation == (if c.architecture is Gemma {
            Activation::GeluGated
        } else if c.architecture is Gpt2 || c.architecture is Phi {
            Activation::Gelu
        } else {
            Activation::SiluGated
        }),
        s == "gelu_new"@ || s == "gelu_pytorch_tanh"@ || s == "gelu_tanh"@ ==> c.activation == (if c.architecture is Gpt2 || c.architecture is Phi {
            Activation::Gelu
        } else {
            Activation::GeluGated
        }),
{
    reveal_strlit("silu");
    reveal_strlit("swish");
    reveal_strlit("gelu");
    reveal_strlit("gelu_new");
    reveal_strlit("gelu_pytorch_tanh");
    reveal_strlit("gelu_tanh");
    assert("silu"@.len() == 4 && "gelu"@.len() == 4 && "swish"@.len() == 5);
    assert("silu"@[0] == 's' && "gelu"@[0] == 'g');
    assert("gelu_new"@.len() == 8 && "gelu_pytorch_tanh"@.len() == 17 && "gelu_tanh"@.len() == 9);
}

/// Where no activation is named, the family decides: gates with a sigmoid, but in Gemma gates with an
/// error function, and in GPT-2 and Phi no gates.
pub proof fn family_has_its_activation(v: JsonModel, c: ModelConfig)
    requires
        config::missing(v) is None,
        config::describes(v, c),
        v.field("hidden_act"@) is None,
        v.field("hidden_activation"@) is None,
        v.field("activation_function"@) is None,
    ensures
        c.activation is Gelu <==> c.architecture is Gpt2 || c.architecture is Phi,
        c.activation is GeluGated <==> c.architecture is Gemma,
        c.activation is SiluGated <==> !(c.architecture is Gpt2 || c.architecture is Phi || c.architecture is Gemma),
{
}

/// The first text in the list of classes names the family; a class that is not known is a family of
/// its own.
pub proof fn class_names_the_family(v: JsonModel, list: Seq<JsonModel>, i: int, s: Seq<char>)
    requires
        v.field("architectures"@) == Some(JsonModel::List(list)),
        0 <= i < list.len(),
        list[i] == JsonModel::Text(s),
        forall|j: int| 0 <= j < i ==> !(#[trigger] list[j] is Text),
    ensures
        config::named_family(v) == Some(config::class_family(s)),
        config::second_gemma(v) <==> s == "Gemma2ForCausalLM"@ || s == "Gemma2Model"@,
{
    first_text_counts(list, i, s);
}

proof fn first_text_counts(list: Seq<JsonModel>, i: int, s: Seq<char>)
    requires
        0 <= i < list.len(),
        list[i] == JsonModel::Text(s),
        forall|j: int| 0 <= j < i ==> !(#[trigger] list[j] is Text),
    ensures
        config::first_text(list) == Some(s),
    decreases list.len(),
{
    if i > 0 {
        assert(!(list[0] is Text));
        let rest = list.drop_first();
        assert forall|j: int| 0 <= j < i - 1 implies !(#[trigger] rest[j] is Text) by {
            assert(rest[j] == list[j + 1]);
        }
        first_text_counts(rest, i - 1, s);
    }
}

/// Without classes the type names the family, and a file without both is one of a Llama model.
pub proof fn type_names_the_family(v: JsonModel, c: ModelConfig, s: Seq<char>)
    requires
        config::missing(v) is None,
        config::describes(v, c),
        v.field("architectures"@) is None,
    ensures
        v.field("model_type"@) == Some(JsonModel::Text(s)) ==> c.architecture@ == config::type_family(s, false) && c.post_ffn_norm == (s
            == "gemma2"@),
        v.field("model_type"@) is None ==> c.architecture is Llama && !c.post_ffn_norm,
{
}

/// The classes of the families.
#[verifier::spinoff_prover]
#[verifier::rlimit(40)]
pub proof fn families_have_their_classes()
    ensures
        config::class_family("LlamaForCausalLM"@) == ArchitectureModel::Llama,
        config::class_family("LlamaModel"@) == ArchitectureModel::Llama,
        config::class_family("MistralForCausalLM"@) == ArchitectureModel::Mistral,
        config::class_family("MistralModel"@) == ArchitectureModel::Mistral,
        config::class_family("GPT2LMHeadModel"@) == ArchitectureModel::Gpt2,
        config::class_family("GPT2Model"@) == ArchitectureModel::Gpt2,
        config::class_family("PhiForCausalLM"@) == ArchitectureModel::Phi,
        config::class_family("PhiModel"@) == ArchitectureModel::Phi,
        config::class_family("GemmaForCausalLM"@) == ArchitectureModel::Gemma,
        config::class_family("GemmaModel"@) == ArchitectureModel::Gemma,
        config::class_family("Gemma2ForCausalLM"@) == ArchitectureModel::Gemma,
        config::class_family("Gemma2Model"@) == ArchitectureModel::Gemma,
        config::class_family("Qwen2ForCausalLM"@) == ArchitectureModel::Qwen2,
        config::class_family("Qwen2Model"@) == ArchitectureModel::Qwen2,
        config::class_family("Qwen3ForCausalLM"@) == ArchitectureModel::Qwen3,
        config::class_family("Qwen3Model"@) == ArchitectureModel::Qwen3,
{
    reveal_strlit("LlamaForCausalLM");
    reveal_strlit("LlamaModel");
    reveal_strlit("MistralForCausalLM");
    reveal_strlit("MistralModel");
    reveal_strlit("GPT2LMHeadModel");
    reveal_strlit("GPT2Model");
    reveal_strlit("PhiForCausalLM");
    reveal_strlit("PhiModel");
    reveal_strlit("GemmaForCausalLM");
    reveal_strlit("GemmaModel");
    reveal_strlit("Gemma2ForCausalLM");
    reveal_strlit("Gemma2Model");
    reveal_strlit("Qwen2ForCausalLM");
    reveal_strlit("Qwen2Model");
    reveal_strlit("Qwen3ForCausalLM");
    reveal_strlit("Qwen3Model");
    assert("LlamaForCausalLM"@.len() == 16);
    assert("LlamaModel"@.len() == 10);
    assert("MistralForCausalLM"@.len() == 18);
    assert("MistralModel"@.len() == 12);
    assert("GPT2LMHeadModel"@.len() == 15);
    assert("GPT2Model"@.len() == 9);
    assert("PhiForCausalLM"@.len() == 14);
    assert("PhiModel"@.len() == 8);
    assert("GemmaForCausalLM"@.len() == 16);
    assert("GemmaModel"@.len() == 10);
    assert("Gemma2ForCausalLM"@.len() == 17);
    assert("Gemma2Model"@.len() == 11);
    assert("Qwen2ForCausalLM"@.len() == 16);
    assert("Qwen2Model"@.len() == 10);
    assert("Qwen3ForCausalLM"@.len() == 16);
    assert("Qwen3Model"@.len() == 10);
    assert("GemmaForCausalLM"@[0] == 'G');
    assert("LlamaForCausalLM"@[0] == 'L');
    assert("GemmaModel"@[0] == 'G');
    assert("LlamaModel"@[0] == 'L');
    assert("Qwen2ForCausalLM"@[0] == 'Q');
    assert("Qwen2Model"@[0] == 'Q');
    assert("Qwen3ForCausalLM"@[0] == 'Q');
    assert("Qwen3ForCausalLM"@[4] == '3');
    assert("Qwen2ForCausalLM"@[4] == '2');
    assert("Qwen3Model"@[0] == 'Q');
    assert("Qwen3Model"@[4] == '3');
    assert("Qwen2Model"@[4] == '2');
}

/// The types of the families, in configuration files and in GGUF files.
#[verifier::spinoff_prover]
#[verifier::rlimit(40)]
pub proof fn families_have_their_types(gguf: bool)
    ensures
        config::type_family("llama"@, gguf) == ArchitectureModel::Llama,
        config::type_family("mistral"@, gguf) == ArchitectureModel::Mistral,
        config::type_family("gpt2"@, gguf) == ArchitectureModel::Gpt2,
        config::type_family("phi"@, gguf) == ArchitectureModel::Phi,
        config::type_family("phi2"@, true) == ArchitectureModel::Phi,
        config::type_family("phi2"@, false) == ArchitectureModel::Custom("phi2"@),
        config::type_family("gemma"@, gguf) == ArchitectureModel::Gemma,
        config::type_family("gemma2"@, gguf) == ArchitectureModel::Gemma,
        config::type_family("qwen2"@, gguf) == ArchitectureModel::Qwen2,
        config::type_family("qwen3"@, gguf) == ArchitectureModel::Qwen3,
{
    reveal_strlit("llama");
    reveal_strlit("mistral");
    reveal_strlit("gpt2");
    reveal_strlit("phi");
    reveal_strlit("phi2");
    reveal_strlit("gemma");
    reveal_strlit("gemma2");
    reveal_strlit("qwen2");
    reveal_strlit("qwen3");
    assert("llama"@.len() == 5);
    assert("mistral"@.len() == 7);
    assert("gpt2"@.len() == 4);
    assert("phi"@.len() == 3);
    assert("phi2"@.len() == 4);
    assert("gemma"@.len() == 5);
    assert("gemma2"@.len() == 6);
    assert("qwen2"@.len() == 5);
    assert("qwen3"@.len() == 5);
    assert("phi2"@[0] == 'p');
    assert("gpt2"@[0] == 'g');
    assert("gemma"@[0] == 'g');
    assert("llama"@[0] == 'l');
    assert("qwen2"@[0] == 'q');
    assert("qwen3"@[0] == 'q');
    assert("qwen3"@[4] == '3');
    assert("qwen2"@[4] == '2');
}

/// A name that belongs to no family is a family of its own, and keeps the name.
pub proof fn other_names_are_kept(s: Seq<char>, gguf: bool)
    ensures
        config::class_family(s) matches ArchitectureModel::Custom(k) ==> k == s,
        config::type_family(s, gguf) matches ArchitectureModel::Custom(k) ==> k == s,
        s.len() > 18 ==> config::class_family(s) is Custom && config::type_family(s, gguf) is Custom,
{
    reveal_strlit("LlamaForCausalLM");
    reveal_strlit("LlamaModel");
    reveal_strlit("MistralForCausalLM");
    reveal_strlit("MistralModel");
    reveal_strlit("GPT2LMHeadModel");
    reveal_strlit("GPT2Model");
    reveal_strlit("PhiForCausalLM");
    reveal_strlit("PhiModel");
    reveal_strlit("GemmaForCausalLM");
    reveal_strlit("GemmaModel");
    reveal_strlit("Gemma2ForCausalLM");
    reveal_strlit("Gemma2Model");
    reveal_strlit("Qwen2ForCausalLM");
    reveal_strlit("Qwen2Model");
    reveal_strlit("Qwen3ForCausalLM");
    reveal_strlit("Qwen3Model");
    reveal_strlit("llama");
    reveal_strlit("mistral");
    reveal_strlit("gpt2");
    reveal_strlit("phi");
    reveal_strlit("phi2");
    reveal_strlit("gemma");
    reveal_strlit("gemma2");
    reveal_strlit("qwen2");
    reveal_strlit("qwen3");
    assert("LlamaForCausalLM"@.len() == 16);
    assert("LlamaModel"@.len() == 10);
    assert("MistralForCausalLM"@.len() == 18);
    assert("MistralModel"@.len() == 12);
    assert("GPT2LMHeadModel"@.len() == 15);
    assert("GPT2Model"@.len() == 9);
    assert("PhiForCausalLM"@.len() == 14);
    assert("PhiModel"@.len() == 8);
    assert("GemmaForCausalLM"@.len() == 16);
    assert("GemmaModel"@.len() == 10);
    assert("Gemma2ForCausalLM"@.len() == 17);
    assert("Gemma2Model"@.len() == 11);
    assert("Qwen2ForCausalLM"@.len() == 16);
    assert("Qwen2Model"@.len() == 10);
    assert("Qwen3ForCausalLM"@.len() == 16);
    assert("Qwen3Model"@.len() == 10);
    assert("llama"@.len() == 5);
    assert("mistral"@.len() == 7);
    assert("gpt2"@.len() == 4);
    assert("phi"@.len() == 3);
    assert("phi2"@.len() == 4);
    assert("gemma"@.len() == 5);
    assert("gemma2"@.len() == 6);
    assert("qwen2"@.len() == 5);
    assert("qwen3"@.len() == 5);
}

/// The value of a GGUF file under a key: under the key alone, or else under the key behind the name
/// of the architecture and a dot.
pub proof fn keys_may_name_the_architecture(entries: Seq<(Seq<char>, MetaModel)>, arch: Seq<char>, key: Seq<char>)
    ensures
        gguf::last_entry(entries, key) is Some ==> gguf_loader::either(entries, arch, key) == gguf::last_entry(entries, key),
        gguf::last_entry(entries, key) is None ==> gguf_loader::either(entries, arch, key) == gguf::last_entry(entries, arch + "."@ + key),
{
}

/// A GGUF file tells the sizes of a model.
pub proof fn sizes_are_taken_from_the_values(entries: Seq<(Seq<char>, MetaModel)>, c: ModelConfig, arch: Seq<char>, n: u32)
    requires
        gguf_loader::has_config(entries),
        gguf_loader::described(entries, c),
        gguf_loader::architecture_name(entries) == Some(arch),
    ensures
        ({
            let said = |key: Seq<char>| gguf_loader::either(entries, arch, key) == Some(MetaModel::Uint32(n));
            let unsaid = |key: Seq<char>| gguf_loader::either(entries, arch, key) is None;
            &&& said("embedding_length"@) ==> c.hidden_size == n
            &&& said("block_count"@) ==> c.num_layers == n
            &&& said("attention.head_count"@) ==> c.num_heads == n
            &&& said("attention.head_count_kv"@) ==> c.num_kv_heads == Some(n as usize)
            &&& unsaid("attention.head_count_kv"@) ==> c.num_kv_heads == Some(c.num_heads)
            &&& said("feed_forward_length"@) ==> c.intermediate_size == n
            &&& unsaid("feed_forward_length"@) && 4 * c.hidden_size <= usize::MAX ==> c.intermediate_size == 4 * c.hidden_size
            &&& said("context_length"@) ==> c.max_seq_len == n
            &&& unsaid("context_length"@) ==> c.max_seq_len == 2048
        }),
        gguf::last_entry(entries, "tokenizer.ggml.tokens"@) is None ==> c.vocab_size == 32000,
        gguf::last_entry(entries, "tokenizer.ggml.tokens"@) matches Some(MetaModel::Array(list)) ==> c.vocab_size == list.len(),
{
    if 4 * c.hidden_size <= usize::MAX {
        four_times(c.hidden_size);
    }
}

/// A GGUF file tells the floats and truth values of a model, and its family.
pub proof fn values_are_taken_from_the_values(entries: Seq<(Seq<char>, MetaModel)>, c: ModelConfig, arch: Seq<char>, x: u32, b: bool)
    requires
        gguf_loader::has_config(entries),
        gguf_loader::described(entries, c),
        gguf_loader::architecture_name(entries) == Some(arch),
    ensures
        ({
            let at = |key: Seq<char>| gguf_loader::either(entries, arch, key);
            &&& at("attention.layer_norm_rms_epsilon"@) == Some(MetaModel::Float32(x)) ==> c.norm_eps == Real::Single(x)
            &&& at("attention.layer_norm_rms_epsilon"@) is None ==> (c.norm_eps matches Real::Single(e) && worth::nearest(e as int, 1, 100000))
            &&& at("rope.freq_base"@) == Some(MetaModel::Float32(x)) ==> c.rope_theta == Real::Single(x)
            &&& at("rope.freq_base"@) is None ==> (c.rope_theta matches Real::Single(t) && worth::worth(t as int) == 10000 * worth::one())
            &&& at("tie_word_embeddings"@) == Some(MetaModel::Bool(b)) ==> c.tie_word_embeddings == b
            &&& at("tie_word_embeddings"@) is None ==> !c.tie_word_embeddings
        }),
        c.architecture@ == config::type_family(arch, true),
        c.norm_type is LayerNorm <==> c.architecture is Gpt2 || c.architecture is Phi,
        c.use_rope <==> !(c.architecture is Gpt2 || c.architecture is Phi),
        c.activation is Gelu <==> c.architecture is Gpt2 || c.architecture is Phi,
        c.activation is GeluGated <==> c.architecture is Gemma,
        c.rope_scaling is None && c.position_embeddings is None && c.sliding_window is None && c.head_dim is None,
        !c.sub_ln && !c.qk_norm && !c.one_centered_norm && !c.post_ffn_norm,
        c.attn_logit_softcap is None && c.final_logit_softcap is None,
{
    constants_are_worth_what_they_say();
}

/// The name of the architecture has to be told, and with it the width, the layers and the heads.
pub proof fn values_have_to_be_told(entries: Seq<(Seq<char>, MetaModel)>, arch: Seq<char>, n: u32)
    ensures
        gguf::last_entry(entries, "general.architecture"@) is None ==> !gguf_loader::has_config(entries),
        gguf::last_entry(entries, "general.architecture"@) == Some(MetaModel::Text(arch)) ==> gguf_loader::architecture_name(entries) == Some(arch),
        gguf_loader::architecture_name(entries) == Some(arch) && gguf_loader::either(entries, arch, "embedding_length"@) is None
            ==> !gguf_loader::has_config(entries),
        gguf_loader::architecture_name(entries) == Some(arch) && gguf_loader::either(entries, arch, "block_count"@) is None
            ==> !gguf_loader::has_config(entries),
        gguf_loader::architecture_name(entries) == Some(arch) && gguf_loader::either(entries, arch, "attention.head_count"@) is None
            ==> !gguf_loader::has_config(entries),
        ({
            let at = |key: Seq<char>| gguf_loader::either(entries, arch, key);
            &&& gguf_loader::architecture_name(entries) == Some(arch)
            &&& at("embedding_length"@) == Some(MetaModel::Uint32(n))
            &&& at("block_count"@) == Some(MetaModel::Uint32(n))
            &&& at("attention.head_count"@) == Some(MetaModel::Uint32(n))
        }) ==> gguf_loader::has_config(entries),
{
}

} // verus!
