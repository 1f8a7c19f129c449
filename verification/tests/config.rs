//! Configurations as model hubs publish them, and the families of models.
use bitllm::runtime::config::{
    parse_activation, Activation, Architecture, ModelConfig, NormType, Real,
};

fn number(r: Real) -> f64 {
    match r {
        Real::Single(bits) => f32::from_bits(bits) as f64,
        Real::Double(bits) => f64::from_bits(bits),
    }
}

#[test]
fn test_rope_scaling_parsing() {
    let json = r#"{
        "vocab_size": 32000,
        "hidden_size": 4096,
        "num_hidden_layers": 32,
        "num_attention_heads": 32,
        "intermediate_size": 11008,
        "rms_norm_eps": 1e-5,
        "max_position_embeddings": 4096,
        "rope_theta": 10000.0,
        "rope_scaling": {
            "type": "linear",
            "factor": 2.0
        }
    }"#;

    let config = ModelConfig::from_huggingface_json(json).unwrap();
    assert!(config.rope_scaling.is_some());
    let rs = config.rope_scaling.unwrap();
    assert_eq!(rs.kind, "linear");
    assert_eq!(number(rs.factor), 2.0);
}

#[test]
fn test_rope_scaling_missing() {
    let json = r#"{
        "vocab_size": 32000,
        "hidden_size": 4096,
        "num_hidden_layers": 32,
        "num_attention_heads": 32,
        "intermediate_size": 11008,
        "rms_norm_eps": 1e-5,
        "max_position_embeddings": 2048,
        "rope_theta": 10000.0
    }"#;

    let config = ModelConfig::from_huggingface_json(json).unwrap();
    assert!(config.rope_scaling.is_none());
}

#[test]
fn test_architecture_parsing_llama() {
    let json = r#"{
        "architectures": ["LlamaForCausalLM"],
        "vocab_size": 32000,
        "hidden_size": 4096,
        "num_hidden_layers": 32,
        "num_attention_heads": 32,
        "intermediate_size": 11008,
        "rms_norm_eps": 1e-5,
        "max_position_embeddings": 4096,
        "rope_theta": 10000.0
    }"#;

    let config = ModelConfig::from_huggingface_json(json).unwrap();
    assert_eq!(config.architecture, Architecture::Llama);
}

#[test]
fn test_architecture_parsing_mistral() {
    let json = r#"{
        "architectures": ["MistralForCausalLM"],
        "vocab_size": 32000,
        "hidden_size": 4096,
        "num_hidden_layers": 32,
        "num_attention_heads": 32,
        "intermediate_size": 11008,
        "rms_norm_eps": 1e-5,
        "max_position_embeddings": 4096,
        "rope_theta": 10000.0
    }"#;

    let config = ModelConfig::from_huggingface_json(json).unwrap();
    assert_eq!(config.architecture, Architecture::Mistral);
}

#[test]
fn test_architecture_parsing_gpt2() {
    let json = r#"{
        "architectures": ["GPT2LMHeadModel"],
        "vocab_size": 50257,
        "hidden_size": 768,
        "num_hidden_layers": 12,
        "num_attention_heads": 12,
        "intermediate_size": 3072,
        "layer_norm_eps": 1e-5,
        "max_position_embeddings": 1024
    }"#;

    let config = ModelConfig::from_huggingface_json(json).unwrap();
    assert_eq!(config.architecture, Architecture::Gpt2);
}

#[test]
fn test_architecture_parsing_phi() {
    let json = r#"{
        "architectures": ["PhiForCausalLM"],
        "vocab_size": 32000,
        "hidden_size": 2560,
        "num_hidden_layers": 32,
        "num_attention_heads": 32,
        "intermediate_size": 10240,
        "rms_norm_eps": 1e-5,
        "max_position_embeddings": 2048,
        "rope_theta": 1000000.0
    }"#;

    let config = ModelConfig::from_huggingface_json(json).unwrap();
    assert_eq!(config.architecture, Architecture::Phi);
}

#[test]
fn test_architecture_parsing_qwen2() {
    let json = r#"{
        "architectures": ["Qwen2ForCausalLM"],
        "vocab_size": 151936,
        "hidden_size": 4096,
        "num_hidden_layers": 32,
        "num_attention_heads": 32,
        "intermediate_size": 11008,
        "rms_norm_eps": 1e-6,
        "max_position_embeddings": 32768,
        "rope_theta": 1000000.0
    }"#;

    let config = ModelConfig::from_huggingface_json(json).unwrap();
    assert_eq!(config.architecture, Architecture::Qwen2);
}

#[test]
fn test_architecture_parsing_model_type_fallback() {
    let json = r#"{
        "model_type": "mistral",
        "vocab_size": 32000,
        "hidden_size": 4096,
        "num_hidden_layers": 32,
        "num_attention_heads": 32,
        "intermediate_size": 11008,
        "rms_norm_eps": 1e-5,
        "max_position_embeddings": 4096
    }"#;

    let config = ModelConfig::from_huggingface_json(json).unwrap();
    assert_eq!(config.architecture, Architecture::Mistral);
}

#[test]
fn test_architecture_from_gguf() {
    assert_eq!(Architecture::from_gguf("llama"), Architecture::Llama);
    assert_eq!(Architecture::from_gguf("mistral"), Architecture::Mistral);
    assert_eq!(Architecture::from_gguf("gpt2"), Architecture::Gpt2);
    assert_eq!(Architecture::from_gguf("phi"), Architecture::Phi);
    assert_eq!(Architecture::from_gguf("gemma"), Architecture::Gemma);
    assert_eq!(Architecture::from_gguf("qwen2"), Architecture::Qwen2);
}

#[test]
fn test_architecture_parsing_gemma() {
    let json = r#"{
        "architectures": ["GemmaForCausalLM"],
        "vocab_size": 256000,
        "hidden_size": 3072,
        "num_hidden_layers": 28,
        "num_attention_heads": 16,
        "num_key_value_heads": 16,
        "intermediate_size": 24576,
        "rms_norm_eps": 1e-6,
        "max_position_embeddings": 8192,
        "tie_word_embeddings": true,
        "hidden_act": "gelu_pytorch_tanh"
    }"#;

    let config = ModelConfig::from_huggingface_json(json).unwrap();
    assert_eq!(config.architecture, Architecture::Gemma);
    assert_eq!(config.activation, Activation::GeluGated);
    assert_eq!(config.norm_type, NormType::RmsNorm);
    assert!(config.qk_norm, "Gemma uses QK-norm by default");
    assert!(config.use_rope, "Gemma uses RoPE");
    assert!(config.tie_word_embeddings);
}

#[test]
fn test_gpt2_defaults_learned_positions_and_layernorm() {
    let json = r#"{
        "architectures": ["GPT2LMHeadModel"],
        "vocab_size": 50257,
        "hidden_size": 768,
        "num_hidden_layers": 12,
        "num_attention_heads": 12,
        "intermediate_size": 3072,
        "layer_norm_eps": 1e-5,
        "max_position_embeddings": 1024
    }"#;

    let config = ModelConfig::from_huggingface_json(json).unwrap();
    assert_eq!(config.architecture, Architecture::Gpt2);
    assert!(!config.use_rope, "GPT-2 has no RoPE");
    assert_eq!(config.norm_type, NormType::LayerNorm);
    assert_eq!(config.activation, Activation::Gelu);
    assert_eq!(config.position_embeddings, Some(1024));
}

#[test]
fn test_mistral_sliding_window() {
    let json = r#"{
        "architectures": ["MistralForCausalLM"],
        "vocab_size": 32000,
        "hidden_size": 4096,
        "num_hidden_layers": 32,
        "num_attention_heads": 32,
        "num_key_value_heads": 8,
        "intermediate_size": 14336,
        "rms_norm_eps": 1e-5,
        "max_position_embeddings": 32768,
        "sliding_window": 4096
    }"#;

    let config = ModelConfig::from_huggingface_json(json).unwrap();
    assert_eq!(config.sliding_window, Some(4096));
    assert_eq!(config.num_kv_heads(), 8);
    assert_eq!(config.activation, Activation::SiluGated);
}

#[test]
fn test_gemma2_head_dim_override() {
    let json = r#"{
        "architectures": ["GemmaForCausalLM"],
        "vocab_size": 256000,
        "hidden_size": 3584,
        "num_hidden_layers": 42,
        "num_attention_heads": 16,
        "num_key_value_heads": 8,
        "head_dim": 256,
        "intermediate_size": 14336,
        "rms_norm_eps": 1e-6,
        "max_position_embeddings": 8192
    }"#;

    let config = ModelConfig::from_huggingface_json(json).unwrap();
    assert_eq!(config.head_dim(), 256);
    assert_eq!(config.head_dim, Some(256));
}

fn published(extra: &str) -> String {
    format!(
        r#"{{ "vocab_size": 100, "hidden_size": 64, "num_hidden_layers": 2, "num_attention_heads": 4{} }}"#,
        extra
    )
}

#[test]
fn a_configuration_names_what_it_lacks() {
    let full = published(r#", "intermediate_size": 256, "max_position_embeddings": 128"#);
    assert!(ModelConfig::from_huggingface_json(&full).is_ok());
    for key in ["hidden_size", "num_hidden_layers", "num_attention_heads"] {
        let cut = full.replace(key, "something_else");
        let said = ModelConfig::from_huggingface_json(&cut).unwrap_err();
        assert_eq!(said, format!("missing `{}`", key));
    }
    let cut = full.replace("vocab_size", "something_else");
    assert_eq!(ModelConfig::from_huggingface_json(&cut).unwrap().vocab_size, 32000);
}

#[test]
fn a_text_that_is_no_json_is_an_error() {
    let said = ModelConfig::from_huggingface_json("{ vocab_size").unwrap_err();
    assert!(said.starts_with("JSON parse error: "), "{}", said);
    assert!(ModelConfig::from_huggingface_json("").is_err());
    assert!(ModelConfig::from_huggingface_json("[1, 2]").is_err());
}

#[test]
fn numbers_are_read_as_written() {
    let text = published(
        r#", "intermediate_size": 256, "max_position_embeddings": 128, "rms_norm_eps": 1e-6, "rope_theta": 500000.0"#,
    );
    let config = ModelConfig::from_huggingface_json(&text).unwrap();
    assert_eq!(config.vocab_size, 100);
    assert_eq!(config.hidden_size, 64);
    assert_eq!(config.num_layers, 2);
    assert_eq!(config.num_heads, 4);
    assert_eq!(config.intermediate_size, 256);
    assert_eq!(config.max_seq_len, 128);
    assert!((number(config.norm_eps) - 1e-6).abs() < 1e-12);
    assert_eq!(number(config.rope_theta), 500000.0);
    assert_eq!(config.head_dim(), 16);
    assert_eq!(config.num_kv_heads(), 4);
    assert_eq!(config.num_kv_groups(), 1);
    assert_eq!(config.ff_dim(), 256);
}

#[test]
fn families_have_their_defaults() {
    for (name, family) in [
        ("llama", Architecture::Llama),
        ("mistral", Architecture::Mistral),
        ("gemma", Architecture::Gemma),
        ("gemma2", Architecture::Gemma),
        ("qwen2", Architecture::Qwen2),
        ("qwen3", Architecture::Qwen3),
    ] {
        assert_eq!(Architecture::from_gguf(name), family);
        assert!(family.uses_rope(), "{} rotates positions in", name);
        assert!(family.uses_rms_norm(), "{} has no means to subtract", name);
    }
    assert_eq!(Architecture::from_gguf("phi2"), Architecture::Phi);
    assert!(!Architecture::Gpt2.uses_rope());
    assert!(!Architecture::Phi.uses_rope());
    assert!(!Architecture::Gpt2.uses_rms_norm());
    assert_eq!(Architecture::Gpt2.default_activation(), Activation::Gelu);
    assert_eq!(Architecture::Gemma.default_activation(), Activation::GeluGated);
    assert_eq!(Architecture::Llama.default_activation(), Activation::SiluGated);
    assert!(!Activation::Gelu.is_gated());
    assert!(Activation::SiluGated.is_gated());
    assert!(matches!(Architecture::from_gguf("starling"), Architecture::Custom(s) if s == "starling"));
    assert_eq!(Architecture::Llama.clone().name(), Architecture::Llama.name());
    assert_eq!(Architecture::default(), Architecture::Llama);
    assert_eq!(NormType::default(), NormType::RmsNorm);
    assert_eq!(parse_activation("gelu_pytorch_tanh", &Architecture::Gemma), Activation::GeluGated);
}

#[test]
fn ready_made_configurations() {
    let tiny = ModelConfig::tiny_test();
    assert_eq!(tiny.head_dim() * tiny.num_heads, tiny.hidden_size);
    assert!(tiny.uses_gated_ffn());
    assert!(tiny.uses_rope());
    assert!(!tiny.uses_layer_norm());
    let small = ModelConfig::llama_small();
    assert!(small.vocab_size > tiny.vocab_size);
    assert_eq!(small.kv_head_dim(), 128);
    assert!(small.test_buildable());
    let huge = ModelConfig { max_seq_len: usize::MAX, ..ModelConfig::tiny_test() };
    assert!(!huge.test_buildable());
    assert_eq!(number(small.rope_factor()), 1.0);
    let copy = small.clone();
    assert_eq!(copy.vocab_size, small.vocab_size);
    assert_eq!(copy.norm_eps, small.norm_eps);
    assert_eq!(copy.architecture, small.architecture);
}

#[test]
fn the_second_gemma_has_its_own_norms_and_limits() {
    let text = published(
        r#", "architectures": ["Gemma2ForCausalLM"], "attn_logit_softcapping": 50.0, "final_logit_softcapping": 30.0"#,
    );
    let config = ModelConfig::from_huggingface_json(&text).unwrap();
    assert_eq!(config.architecture, Architecture::Gemma);
    assert!(config.post_ffn_norm);
    assert!(config.one_centered_norm);
    assert_eq!(config.attn_logit_softcap.map(number), Some(50.0));
    assert_eq!(config.final_logit_softcap.map(number), Some(30.0));

    let first = published(r#", "model_type": "gemma""#);
    let config = ModelConfig::from_huggingface_json(&first).unwrap();
    assert!(!config.post_ffn_norm);
    assert!(config.one_centered_norm);
    assert_eq!(config.attn_logit_softcap, None);
}
