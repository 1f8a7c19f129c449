//! Weights: files of tensors, the names of weights, and how they fill a model.
use bitllm::json::Json;
use bitllm::runtime::assign::apply_weight_target;
use bitllm::runtime::bits::{QuantConfig, QuantizedTensor};
use bitllm::runtime::config::{Activation, Architecture, ModelConfig, Real};
use bitllm::runtime::loading::{can_load, load_safetensors_weights};
use bitllm::runtime::model::Model;
use bitllm::runtime::safetensors::{
    bytes_to_tensor, storage_of, LoadError, MmapSafeTensors, SafeTensorsHeader, SafeTensorsLoader, Stored,
};
use bitllm::runtime::unit::Op;
use bitllm::runtime::weights::{
    map_weight_for_architecture, CustomWeightMapper, GemmaWeightMapper, Gpt2WeightMapper,
    LlamaWeightMapper, MistralWeightMapper, PhiWeightMapper, QwenWeightMapper, WeightMapper,
    WeightTarget,
};
use bitllm::tensor::tensor::Tensor;
use bitllm::tensor::types::DType;

fn float(b: u32) -> f32 {
    f32::from_bits(b)
}

fn bits(v: &[f32]) -> Vec<u32> {
    v.iter().map(|x| x.to_bits()).collect()
}

fn single(r: Real) -> f32 {
    match r {
        Real::Single(b) => f32::from_bits(b),
        Real::Double(b) => f64::from_bits(b) as f32,
    }
}

fn dot(x: &[u32], y: &[u32]) -> f32 {
    x.iter().zip(y.iter()).map(|(a, b)| float(*a) * float(*b)).sum()
}

/// A plain float unit.
fn unit(op: Op, x: &[u32], y: &[u32], z: &[u32]) -> Vec<u32> {
    let n = x.len();
    match op {
        Op::Dot => vec![dot(x, y).to_bits()],
        Op::BitDot { a8 } => vec![bit_dot(a8, x, y, z).to_bits()],
        Op::Minus => (0..n).map(|i| (float(x[i]) - float(y[i])).to_bits()).collect(),
        Op::Plus => (0..n).map(|i| (float(x[i]) + float(y[i])).to_bits()).collect(),
        Op::Norm { layer, centered, eps } => {
            let mean = if layer { x.iter().map(|b| float(*b)).sum::<f32>() / n as f32 } else { 0.0 };
            let power = x.iter().map(|b| (float(*b) - mean) * (float(*b) - mean)).sum::<f32>() / n as f32;
            let scale = 1.0 / (power + single(eps)).sqrt();
            (0..n)
                .map(|i| {
                    let gain = if centered { 1.0 + float(y[i]) } else { float(y[i]) };
                    let shift = if layer && !z.is_empty() { float(z[i]) } else { 0.0 };
                    ((float(x[i]) - mean) * scale * gain + shift).to_bits()
                })
                .collect()
        }
        Op::HeadNorm { centered, eps } => {
            let scale = 1.0 / (dot(x, x) / n as f32 + single(eps)).sqrt();
            (0..n)
                .map(|i| {
                    let gain = if centered { 1.0 + float(y[i]) } else { float(y[i]) };
                    (float(x[i]) * scale * gain).to_bits()
                })
                .collect()
        }
        Op::Rotate { position, theta, factor } => {
            let half = n / 2;
            let mut r = x.to_vec();
            for i in 0..half {
                let frequency = 1.0 / single(theta).powf((2 * i) as f32 / n as f32);
                let angle = position as f32 / single(factor) * frequency;
                let (lo, hi) = (float(x[i]), float(x[i + half]));
                r[i] = (lo * angle.cos() - hi * angle.sin()).to_bits();
                r[i + half] = (lo * angle.sin() + hi * angle.cos()).to_bits();
            }
            r
        }
        Op::Attend { softcap } => attention(x, y, z, 1.0 / (n as f32).sqrt(), softcap),
        Op::Gate(kind) => (0..n)
            .map(|i| {
                let a = float(x[i]);
                let r = match kind {
                    Activation::SiluGated => a / (1.0 + (-a).exp()) * float(y[i]),
                    Activation::GeluGated => gelu(a) * float(y[i]),
                    Activation::Gelu => gelu(a),
                };
                r.to_bits()
            })
            .collect(),
        Op::Softcap { cap } => x
            .iter()
            .map(|b| (single(cap) * (float(*b) / single(cap)).tanh()).to_bits())
            .collect(),
        Op::Softmax { temperature } => {
            let top = x.iter().map(|b| float(*b)).fold(f32::NEG_INFINITY, f32::max);
            let e: Vec<f32> = x.iter().map(|b| ((float(*b) - top) / float(temperature)).exp()).collect();
            let sum: f32 = e.iter().sum();
            e.iter().map(|v| (v / sum).to_bits()).collect()
        }
        Op::Share => {
            let sum: f32 = x.iter().map(|b| float(*b)).sum();
            x.iter().map(|b| (float(*b) / sum).to_bits()).collect()
        }
    }
}

/// The inner product with signs, group by group; with `a8`, of the row in steps of a 127th of its
/// greatest element.
fn bit_dot(a8: bool, x: &[u32], signs: &[u32], scales: &[u32]) -> f32 {
    let n = x.len();
    let top = x.iter().map(|b| float(*b).abs()).fold(0.0, f32::max);
    let step = if a8 && top > 0.0 { top / 127.0 } else { 1.0 };
    let group = (n + scales.len() - 1) / scales.len();
    let mut sum = 0.0f64;
    for t in 0..n {
        let v = if a8 { (float(x[t]) / step).round() } else { float(x[t]) };
        sum += v as f64 * float(signs[t]) as f64 * float(scales[t / group]) as f64;
    }
    (sum * step as f64) as f32
}

fn gelu(a: f32) -> f32 {
    0.5 * a * (1.0 + (0.797_884_6 * (a + 0.044715 * a * a * a)).tanh())
}

fn attention(q: &[u32], keys: &[u32], values: &[u32], scale: f32, softcap: Option<Real>) -> Vec<u32> {
    let n = q.len();
    let scores: Vec<f32> = keys
        .chunks(n)
        .map(|k| {
            let s = dot(q, k) * scale;
            match softcap {
                Some(cap) if single(cap) > 0.0 => single(cap) * (s / single(cap)).tanh(),
                _ => s,
            }
        })
        .collect();
    let top = scores.iter().cloned().fold(f32::NEG_INFINITY, f32::max);
    let e: Vec<f32> = scores.iter().map(|s| (s - top).exp()).collect();
    let sum: f32 = e.iter().sum();
    (0..n)
        .map(|j| {
            let mut r = 0.0f32;
            for t in 0..e.len() {
                r += e[t] / sum * float(values[t * n + j]);
            }
            r.to_bits()
        })
        .collect()
}

/// Signs, and the greatest element of each group of columns for a scale.
fn pack(weight: &Tensor, config: QuantConfig) -> QuantizedTensor {
    let columns = *weight.shape().last().unwrap();
    let group = if config.group_size > 0 { config.group_size } else { columns };
    let values = weight.as_f32_slice();
    let mut scales = vec![0.0f32; (columns + group - 1) / group];
    for (i, b) in values.iter().enumerate() {
        let g = i % columns / group;
        scales[g] = scales[g].max(float(*b).abs());
    }
    QuantizedTensor { signs: weight.to_bit1(), scales: bits(&scales) }
}

fn floats(t: &Tensor) -> Vec<f32> {
    t.as_f32_slice().iter().map(|b| float(*b)).collect()
}

fn entry(dtype: &str, shape: &[usize], start: usize, end: usize) -> serde_json::Value {
    let text = format!(
        r#"{{"dtype": "{}", "shape": {:?}, "data_offsets": [{}, {}]}}"#,
        dtype, shape, start, end
    );
    serde_json::from_str(&text).unwrap()
}

fn file(header: &str, data: &[u8]) -> Vec<u8> {
    let mut out = Vec::new();
    out.extend_from_slice(&(header.len() as u64).to_le_bytes());
    out.extend_from_slice(header.as_bytes());
    out.extend_from_slice(data);
    out
}

fn create_test_safetensors() -> Vec<u8> {
    let tensor_a: Vec<f32> = vec![1.0, 2.0, 3.0, 4.0];
    let tensor_b: Vec<f32> = vec![5.0, 6.0];
    let a_bytes = tensor_a
        .iter()
        .flat_map(|f| f.to_le_bytes())
        .collect::<Vec<u8>>();
    let b_bytes = tensor_b
        .iter()
        .flat_map(|f| f.to_le_bytes())
        .collect::<Vec<u8>>();
    let data_len = a_bytes.len() + b_bytes.len();

    let mut header = serde_json::Map::new();
    header.insert("tensor_a".into(), entry("F32", &[2, 2], 0, a_bytes.len()));
    header.insert("tensor_b".into(), entry("F32", &[2], a_bytes.len(), data_len));
    let header = serde_json::Value::Object(header);

    let header_str = serde_json::to_string(&header).unwrap();
    let header_bytes = header_str.as_bytes();

    let mut file = Vec::new();
    file.extend_from_slice(&(header_bytes.len() as u64).to_le_bytes());
    file.extend_from_slice(header_bytes);
    file.extend_from_slice(&a_bytes);
    file.extend_from_slice(&b_bytes);
    file
}

#[test]
fn test_load_safetensors() {
    let data = create_test_safetensors();
    let loader = SafeTensorsLoader::from_bytes(&data).unwrap();

    let names = loader.tensor_names();
    assert_eq!(names.len(), 2);
    assert!(names.contains(&"tensor_a"));
    assert!(names.contains(&"tensor_b"));
}

#[test]
fn test_load_tensor_f32() {
    let data = create_test_safetensors();
    let loader = SafeTensorsLoader::from_bytes(&data).unwrap();

    let t = loader.load_tensor("tensor_a").unwrap();
    assert_eq!(t.shape(), &[2, 2]);
    assert_eq!(t.dtype(), DType::F32);
    assert_eq!(float(t.get_flat_f32(0)), 1.0);
    assert_eq!(float(t.get_flat_f32(3)), 4.0);
}

#[test]
fn test_load_tensor_smaller() {
    let data = create_test_safetensors();
    let loader = SafeTensorsLoader::from_bytes(&data).unwrap();

    let t = loader.load_tensor("tensor_b").unwrap();
    assert_eq!(t.shape(), &[2]);
    assert_eq!(float(t.get_flat_f32(0)), 5.0);
    assert_eq!(float(t.get_flat_f32(1)), 6.0);
}

#[test]
fn test_load_all_tensors() {
    let data = create_test_safetensors();
    let loader = SafeTensorsLoader::from_bytes(&data).unwrap();

    let all = loader.load_all_tensors().unwrap();
    assert_eq!(all.len(), 2);
    assert!(all.iter().any(|(name, _)| name == "tensor_a"));
    assert!(all.iter().any(|(name, _)| name == "tensor_b"));
}

#[test]
fn loader_test_tensor_not_found() {
    let data = create_test_safetensors();
    let loader = SafeTensorsLoader::from_bytes(&data).unwrap();

    assert!(loader.load_tensor("nonexistent").is_err());
}

#[test]
fn test_has_tensor() {
    let data = create_test_safetensors();
    let loader = SafeTensorsLoader::from_bytes(&data).unwrap();

    assert!(loader.has_tensor("tensor_a"));
    assert!(!loader.has_tensor("nonexistent"));
}

#[test]
fn test_tensor_info() {
    let data = create_test_safetensors();
    let loader = SafeTensorsLoader::from_bytes(&data).unwrap();

    let (dtype, shape, offsets) = loader.tensor_info("tensor_a").unwrap();
    assert_eq!(dtype, "F32");
    assert_eq!(shape, &[2, 2]);
    assert_eq!(offsets, [0, 16]);
}

#[test]
fn test_weight_mapper_llama() {
    assert_eq!(
        LlamaWeightMapper::map_weight(
            "layers.0.attention.wq.weight",
            &ModelConfig::tiny_test()
        ),
        WeightTarget::AttentionQ { layer_idx: 0 }
    );
    assert_eq!(
        LlamaWeightMapper::map_weight(
            "layers.5.feed_forward.w2.weight",
            &ModelConfig::tiny_test()
        ),
        WeightTarget::FfnDown { layer_idx: 5 }
    );
    assert_eq!(
        LlamaWeightMapper::map_weight(
            "tok_embeddings",
            &ModelConfig::tiny_test()
        ),
        WeightTarget::Embedding
    );
    assert_eq!(
        LlamaWeightMapper::map_weight("norm", &ModelConfig::tiny_test()),
        WeightTarget::FinalNorm
    );
}

#[test]
fn test_weight_mapper_gguf_style() {
    assert_eq!(
        LlamaWeightMapper::map_weight(
            "token_embd.weight",
            &ModelConfig::tiny_test()
        ),
        WeightTarget::Embedding
    );
    assert_eq!(
        LlamaWeightMapper::map_weight(
            "layers.0.attn_q.weight",
            &ModelConfig::tiny_test()
        ),
        WeightTarget::AttentionQ { layer_idx: 0 }
    );
    assert_eq!(
        LlamaWeightMapper::map_weight(
            "layers.0.mlp.gate.weight",
            &ModelConfig::tiny_test()
        ),
        WeightTarget::FfnGate { layer_idx: 0 }
    );
    assert_eq!(
        LlamaWeightMapper::map_weight(
            "output_norm.weight",
            &ModelConfig::tiny_test()
        ),
        WeightTarget::FinalNorm
    );
    assert_eq!(
        LlamaWeightMapper::map_weight(
            "lm_head.weight",
            &ModelConfig::tiny_test()
        ),
        WeightTarget::LmHead
    );
}

#[test]
fn test_file_too_small() {
    let data = vec![0u8; 4];
    assert!(SafeTensorsLoader::from_bytes(&data).is_err());
}

#[test]
fn test_file_header_too_large() {
    let mut data = Vec::new();
    data.extend_from_slice(&1000u64.to_le_bytes());
    data.extend_from_slice(&[0u8; 10]);
    assert!(SafeTensorsLoader::from_bytes(&data).is_err());
}

#[test]
fn test_file_empty_tensor() {
    let mut header = serde_json::Map::new();
    header.insert("empty".into(), entry("F32", &[0], 0, 0));
    let header = serde_json::Value::Object(header);
    let header_str = serde_json::to_string(&header).unwrap();
    let header_bytes = header_str.as_bytes();
    let mut file = Vec::new();
    file.extend_from_slice(&(header_bytes.len() as u64).to_le_bytes());
    file.extend_from_slice(header_bytes);

    let loader = SafeTensorsLoader::from_bytes(&file).unwrap();
    assert!(loader.has_tensor("empty"));
}

#[test]
fn test_mmap_load() {
    let data = create_test_safetensors();

    let loader = MmapSafeTensors::load_mmap(&data).unwrap();
    assert!(loader.has_tensor("tensor_a"));
    assert!(loader.has_tensor("tensor_b"));

    let t = loader.load_tensor("tensor_a").unwrap();
    assert_eq!(t.shape(), &[2, 2]);
    assert_eq!(float(t.get_flat_f32(0)), 1.0);
    assert_eq!(float(t.get_flat_f32(3)), 4.0);

    let t2 = loader.load_tensor("tensor_b").unwrap();
    assert_eq!(t2.shape(), &[2]);
    assert_eq!(float(t2.get_flat_f32(0)), 5.0);
}

#[test]
fn test_weight_mapper_huggingface() {
    let config = ModelConfig::tiny_test();
    assert_eq!(
        LlamaWeightMapper::map_weight("model.embed_tokens.weight", &config),
        WeightTarget::Embedding
    );
    assert_eq!(
        LlamaWeightMapper::map_weight("model.layers.0.self_attn.q_proj.weight", &config),
        WeightTarget::AttentionQ { layer_idx: 0 }
    );
    assert_eq!(
        LlamaWeightMapper::map_weight("model.layers.0.self_attn.k_proj.weight", &config),
        WeightTarget::AttentionK { layer_idx: 0 }
    );
    assert_eq!(
        LlamaWeightMapper::map_weight("model.layers.0.self_attn.v_proj.weight", &config),
        WeightTarget::AttentionV { layer_idx: 0 }
    );
    assert_eq!(
        LlamaWeightMapper::map_weight("model.layers.0.self_attn.o_proj.weight", &config),
        WeightTarget::AttentionO { layer_idx: 0 }
    );
    assert_eq!(
        LlamaWeightMapper::map_weight("model.layers.1.mlp.gate_proj.weight", &config),
        WeightTarget::FfnGate { layer_idx: 1 }
    );
    assert_eq!(
        LlamaWeightMapper::map_weight("model.layers.1.mlp.up_proj.weight", &config),
        WeightTarget::FfnUp { layer_idx: 1 }
    );
    assert_eq!(
        LlamaWeightMapper::map_weight("model.layers.1.mlp.down_proj.weight", &config),
        WeightTarget::FfnDown { layer_idx: 1 }
    );
    assert_eq!(
        LlamaWeightMapper::map_weight("model.layers.0.input_layernorm.weight", &config),
        WeightTarget::AttnNorm { layer_idx: 0 }
    );
    assert_eq!(
        LlamaWeightMapper::map_weight(
            "model.layers.0.post_attention_layernorm.weight",
            &config
        ),
        WeightTarget::FfnNorm { layer_idx: 0 }
    );
    assert_eq!(
        LlamaWeightMapper::map_weight("model.norm.weight", &config),
        WeightTarget::FinalNorm
    );
}

#[test]
fn test_weight_mapper_layer_overflow() {
    let config = ModelConfig::tiny_test(); // 2 layers
    // The mapper reads the index and leaves it to the loader whether there is such a layer.
    assert_eq!(
        LlamaWeightMapper::map_weight("model.layers.99.self_attn.q_proj.weight", &config),
        WeightTarget::AttentionQ { layer_idx: 99 }
    );
    // Verify the loader rejects it
    let data = create_tiny_safetensors();
    let loader = SafeTensorsLoader::from_bytes(&data).unwrap();
    let mut model = Model::new(config.clone());
    let stats = load_safetensors_weights(&mut model, &loader, &config, None, &pack);
    // The file holds the two layers that the model has.
    assert_eq!(stats.loaded, 20);
}

#[test]
fn test_config_from_huggingface_json() {
    let json = r#"{
        "vocab_size": 32000,
        "hidden_size": 4096,
        "num_hidden_layers": 32,
        "num_attention_heads": 32,
        "num_key_value_heads": 32,
        "intermediate_size": 11008,
        "rms_norm_eps": 1e-5,
        "max_position_embeddings": 2048,
        "rope_theta": 10000.0,
        "tie_word_embeddings": false
    }"#;
    let config = ModelConfig::from_huggingface_json(json).unwrap();
    assert_eq!(config.vocab_size, 32000);
    assert_eq!(config.hidden_size, 4096);
    assert_eq!(config.num_layers, 32);
    assert_eq!(config.num_heads, 32);
    assert_eq!(config.num_kv_heads, Some(32));
    assert_eq!(config.intermediate_size, 11008);
    assert!((single(config.norm_eps) - 1e-5).abs() < 1e-6);
    assert_eq!(config.max_seq_len, 2048);
    assert!((single(config.rope_theta) - 10000.0).abs() < 0.1);
    assert!(!config.tie_word_embeddings);
}

#[test]
fn test_config_from_huggingface_json_gqa() {
    let json = r#"{
        "hidden_size": 2048,
        "num_hidden_layers": 22,
        "num_attention_heads": 32,
        "num_key_value_heads": 4,
        "intermediate_size": 5632,
        "rms_norm_eps": 1e-5,
        "max_position_embeddings": 4096
    }"#;
    let config = ModelConfig::from_huggingface_json(json).unwrap();
    assert_eq!(config.num_kv_heads, Some(4));
    assert_eq!(config.num_layers, 22);
}

#[test]
fn test_config_from_huggingface_json_missing_field() {
    let json = r#"{"vocab_size": 1000}"#;
    assert!(ModelConfig::from_huggingface_json(json).is_err());
}

/// Helper: create a SafeTensors file with all Llama weight names for tiny_test config.
fn create_tiny_safetensors() -> Vec<u8> {
    let config = ModelConfig::tiny_test();
    let mut tensors: Vec<(String, Vec<f32>, Vec<usize>)> = Vec::new();

    // Embedding
    tensors.push((
        "model.embed_tokens.weight".into(),
        vec![0.1; config.vocab_size * config.hidden_size],
        vec![config.vocab_size, config.hidden_size],
    ));

    // Final norm
    tensors.push((
        "model.norm.weight".into(),
        vec![1.0; config.hidden_size],
        vec![config.hidden_size],
    ));

    // Per-layer weights
    for i in 0..config.num_layers {
        let h = config.hidden_size;
        let kv = config.num_kv_heads() * config.head_dim();
        let inter = config.intermediate_size;

        tensors.push((
            format!("model.layers.{}.self_attn.q_proj.weight", i),
            vec![0.01; h * kv],
            vec![kv, h],
        ));
        tensors.push((
            format!("model.layers.{}.self_attn.k_proj.weight", i),
            vec![0.01; h * kv],
            vec![kv, h],
        ));
        tensors.push((
            format!("model.layers.{}.self_attn.v_proj.weight", i),
            vec![0.01; h * kv],
            vec![kv, h],
        ));
        tensors.push((
            format!("model.layers.{}.self_attn.o_proj.weight", i),
            vec![0.01; h * kv],
            vec![h, kv],
        ));
        tensors.push((
            format!("model.layers.{}.mlp.gate_proj.weight", i),
            vec![0.01; inter * h],
            vec![inter, h],
        ));
        tensors.push((
            format!("model.layers.{}.mlp.up_proj.weight", i),
            vec![0.01; inter * h],
            vec![inter, h],
        ));
        tensors.push((
            format!("model.layers.{}.mlp.down_proj.weight", i),
            vec![0.01; h * inter],
            vec![h, inter],
        ));
        tensors.push((
            format!("model.layers.{}.input_layernorm.weight", i),
            vec![1.0; h],
            vec![h],
        ));
        tensors.push((
            format!("model.layers.{}.post_attention_layernorm.weight", i),
            vec![1.0; h],
            vec![h],
        ));
    }

    // Build the SafeTensors binary
    let mut header_map = serde_json::Map::new();
    let mut data_blob = Vec::new();
    let mut offset = 0usize;

    for (name, data, shape) in &tensors {
        let bytes: Vec<u8> = data.iter().flat_map(|f| f.to_le_bytes()).collect();
        let len = bytes.len();
        header_map.insert(
            name.clone(),
            entry("F32", shape, offset, offset + len),
        );
        data_blob.extend_from_slice(&bytes);
        offset += len;
    }

    let header = serde_json::Value::Object(header_map);
    let header_str = serde_json::to_string(&header).unwrap();
    let header_bytes = header_str.as_bytes();

    let mut file = Vec::new();
    file.extend_from_slice(&(header_bytes.len() as u64).to_le_bytes());
    file.extend_from_slice(header_bytes);
    file.extend_from_slice(&data_blob);
    file
}

fn create_gpt2_safetensors() -> Vec<u8> {
    let config = ModelConfig::tiny_test();
    let mut tensors: Vec<(String, Vec<f32>, Vec<usize>)> = Vec::new();

    tensors.push((
        "transformer.wte.weight".into(),
        vec![0.2; config.vocab_size * config.hidden_size],
        vec![config.vocab_size, config.hidden_size],
    ));
    tensors.push((
        "transformer.ln_f.weight".into(),
        vec![1.0; config.hidden_size],
        vec![config.hidden_size],
    ));
    tensors.push((
        "lm_head.weight".into(),
        vec![0.3; config.vocab_size * config.hidden_size],
        vec![config.vocab_size, config.hidden_size],
    ));

    for i in 0..config.num_layers {
        let h = config.hidden_size;
        let kv = config.num_kv_heads() * config.head_dim();
        let inter = config.intermediate_size;

        tensors.push((
            format!("transformer.h.{}.attn.c_attn.weight", i),
            vec![0.01; h * 3 * kv],
            vec![3 * kv, h],
        ));
        tensors.push((
            format!("transformer.h.{}.attn.c_proj.weight", i),
            vec![0.02; kv * h],
            vec![kv, h],
        ));
        tensors.push((
            format!("transformer.h.{}.mlp.c_fc.weight", i),
            vec![0.03; inter * h],
            vec![inter, h],
        ));
        tensors.push((
            format!("transformer.h.{}.mlp.c_proj.weight", i),
            vec![0.04; h * inter],
            vec![h, inter],
        ));
        tensors.push((
            format!("transformer.h.{}.ln_1.weight", i),
            vec![1.0; h],
            vec![h],
        ));
        tensors.push((
            format!("transformer.h.{}.ln_2.weight", i),
            vec![1.0; h],
            vec![h],
        ));
    }

    let mut header_map = serde_json::Map::new();
    let mut data_blob = Vec::new();
    let mut offset = 0usize;

    for (name, data, shape) in &tensors {
        let bytes: Vec<u8> = data.iter().flat_map(|f| f.to_le_bytes()).collect();
        let len = bytes.len();
        header_map.insert(
            name.clone(),
            entry("F32", shape, offset, offset + len),
        );
        data_blob.extend_from_slice(&bytes);
        offset += len;
    }

    let header = serde_json::Value::Object(header_map);
    let header_str = serde_json::to_string(&header).unwrap();
    let header_bytes = header_str.as_bytes();

    let mut file = Vec::new();
    file.extend_from_slice(&(header_bytes.len() as u64).to_le_bytes());
    file.extend_from_slice(header_bytes);
    file.extend_from_slice(&data_blob);
    file
}

fn create_gemma_safetensors() -> Vec<u8> {
    let config = ModelConfig::tiny_test();
    let mut tensors: Vec<(String, Vec<f32>, Vec<usize>)> = Vec::new();

    tensors.push((
        "model.embed_tokens.weight".into(),
        vec![0.2; config.vocab_size * config.hidden_size],
        vec![config.vocab_size, config.hidden_size],
    ));
    tensors.push((
        "model.norm.weight".into(),
        vec![1.0; config.hidden_size],
        vec![config.hidden_size],
    ));
    tensors.push((
        "lm_head.weight".into(),
        vec![0.3; config.vocab_size * config.hidden_size],
        vec![config.vocab_size, config.hidden_size],
    ));

    for i in 0..config.num_layers {
        let h = config.hidden_size;
        let kv = config.num_kv_heads() * config.head_dim();
        let inter = config.intermediate_size;
        let head_dim = config.head_dim();

        tensors.push((
            format!("model.layers.{}.self_attn.q_proj.weight", i),
            vec![0.01; kv * h],
            vec![kv, h],
        ));
        tensors.push((
            format!("model.layers.{}.self_attn.k_proj.weight", i),
            vec![0.02; kv * h],
            vec![kv, h],
        ));
        tensors.push((
            format!("model.layers.{}.self_attn.v_proj.weight", i),
            vec![0.03; kv * h],
            vec![kv, h],
        ));
        tensors.push((
            format!("model.layers.{}.self_attn.o_proj.weight", i),
            vec![0.04; kv * h],
            vec![kv, h],
        ));
        tensors.push((
            format!("model.layers.{}.self_attn.q_norm.weight", i),
            vec![1.0; config.num_heads * head_dim],
            vec![config.num_heads, head_dim],
        ));
        tensors.push((
            format!("model.layers.{}.self_attn.k_norm.weight", i),
            vec![1.0; config.num_heads * head_dim],
            vec![config.num_heads, head_dim],
        ));
        tensors.push((
            format!("model.layers.{}.mlp.gate_proj.weight", i),
            vec![0.05; inter * h],
            vec![inter, h],
        ));
        tensors.push((
            format!("model.layers.{}.mlp.up_proj.weight", i),
            vec![0.06; inter * h],
            vec![inter, h],
        ));
        tensors.push((
            format!("model.layers.{}.mlp.down_proj.weight", i),
            vec![0.07; h * inter],
            vec![h, inter],
        ));
        tensors.push((
            format!("model.layers.{}.input_layernorm.weight", i),
            vec![1.0; h],
            vec![h],
        ));
        tensors.push((
            format!("model.layers.{}.post_attention_layernorm.weight", i),
            vec![1.0; h],
            vec![h],
        ));
    }

    let mut header_map = serde_json::Map::new();
    let mut data_blob = Vec::new();
    let mut offset = 0usize;

    for (name, data, shape) in &tensors {
        let bytes: Vec<u8> = data.iter().flat_map(|f| f.to_le_bytes()).collect();
        let len = bytes.len();
        header_map.insert(
            name.clone(),
            entry("F32", shape, offset, offset + len),
        );
        data_blob.extend_from_slice(&bytes);
        offset += len;
    }

    let header = serde_json::Value::Object(header_map);
    let header_str = serde_json::to_string(&header).unwrap();
    let header_bytes = header_str.as_bytes();

    let mut file = Vec::new();
    file.extend_from_slice(&(header_bytes.len() as u64).to_le_bytes());
    file.extend_from_slice(header_bytes);
    file.extend_from_slice(&data_blob);
    file
}

#[test]
fn test_load_gemma_weights_into_model_end_to_end() {
    let data = create_gemma_safetensors();
    let loader = SafeTensorsLoader::from_bytes(&data).unwrap();
    let mut config = ModelConfig::tiny_test();
    config.architecture = Architecture::Gemma;
    config.qk_norm = true;
    config.activation = Activation::GeluGated;

    let mut model = Model::new(config.clone());
    let stats = load_safetensors_weights(&mut model, &loader, &config, None, &pack);

    // embedding + norm + lm_head + 2 layers * (4 attn + 2 qk-norm + 3 ffn + 2 ln) = 3 + 22 = 25
    assert_eq!(stats.loaded, 25, "all Gemma weights should load");
    assert!(stats.skipped.is_empty());

    let emb = floats(&model.embedding.weight);
    assert!(emb.iter().all(|&x| (x - 0.2).abs() < 1e-6), "embedding from embed_tokens");

    let norm = floats(&model.norm.weight);
    assert!(norm.iter().all(|&x| (x - 1.0).abs() < 1e-6), "final norm from model.norm");

    let lm = floats(&model.lm_head.weight);
    assert!(lm.iter().all(|&x| (x - 0.3).abs() < 1e-6), "lm_head from lm_head.weight");

    let q = floats(&model.layers[0].attention.q_proj.weight);
    assert!(q.iter().all(|&x| (x - 0.01).abs() < 1e-6), "q_proj");

    let q_norm = floats(&model.layers[0].attention.q_norm.as_ref().unwrap().weight);
    assert!(q_norm.iter().all(|&x| (x - 1.0).abs() < 1e-6), "q_norm loaded");
    assert!(
        model.layers[0].attention.k_norm.is_some(),
        "k_norm slot present with qk_norm enabled"
    );

    let gate = floats(&model.layers[1].ffn_gate.weight);
    assert!(gate.iter().all(|&x| (x - 0.05).abs() < 1e-6), "ffn_gate from gate_proj");

    let down = floats(&model.layers[1].ffn_down.weight);
    assert!(down.iter().all(|&x| (x - 0.07).abs() < 1e-6), "ffn_down from down_proj");

    // Smoke test: a forward pass with QK-norm enabled must run.
    let logits = model.forward(&[0u32, 1, 2], &unit);
    assert_eq!(logits.shape(), &[3, config.vocab_size]);
}

#[test]
fn test_load_gpt2_weights_into_model_end_to_end() {
    let data = create_gpt2_safetensors();
    let loader = SafeTensorsLoader::from_bytes(&data).unwrap();
    let mut config = ModelConfig::tiny_test();
    config.architecture = Architecture::Gpt2;

    let mut model = Model::new(config.clone());
    let stats = load_safetensors_weights(&mut model, &loader, &config, None, &pack);

    // embedding + ln_f + lm_head + 2 layers * (2 attn + 2 ffn + 2 ln) = 3 + 12 = 15
    assert_eq!(stats.loaded, 15, "all GPT-2 weights should load");
    assert!(stats.skipped.is_empty());

    // Verify weights landed in the right place.
    let emb = floats(&model.embedding.weight);
    assert!(emb.iter().all(|&x| (x - 0.2).abs() < 1e-6), "embedding from wte");

    let norm = floats(&model.norm.weight);
    assert!(norm.iter().all(|&x| (x - 1.0).abs() < 1e-6), "final norm from ln_f");

    let lm = floats(&model.lm_head.weight);
    assert!(lm.iter().all(|&x| (x - 0.3).abs() < 1e-6), "lm_head from lm_head.weight");

    // The first layer's q_proj should carry the c_attn weights.
    let q = floats(&model.layers[0].attention.q_proj.weight);
    assert!(q.iter().all(|&x| (x - 0.01).abs() < 1e-6), "q_proj from c_attn");

    let o = floats(&model.layers[0].attention.o_proj.weight);
    assert!(o.iter().all(|&x| (x - 0.02).abs() < 1e-6), "o_proj from c_proj");

    let up = floats(&model.layers[1].ffn_up.weight);
    assert!(up.iter().all(|&x| (x - 0.03).abs() < 1e-6), "ffn_up from c_fc");

    let down = floats(&model.layers[1].ffn_down.weight);
    assert!(down.iter().all(|&x| (x - 0.04).abs() < 1e-6), "ffn_down from c_proj");
}

#[test]
fn test_load_gpt2_with_ternary_quantize_end_to_end() {
    let data = create_gpt2_safetensors();
    let loader = SafeTensorsLoader::from_bytes(&data).unwrap();
    let mut config = ModelConfig::tiny_test();
    config.architecture = Architecture::Gpt2;

    let mut model = Model::new(config.clone());
    let stats = load_safetensors_weights(&mut model, &loader, &config, Some("ternary"), &pack);

    assert_eq!(stats.loaded, 15);
    assert!(model.bit_layers.is_some(), "quantized layers should be present");
    assert_eq!(
        model.bit_layers.as_ref().unwrap().len(),
        config.num_layers,
        "all layers quantized"
    );
    assert!(model.layers.is_empty(), "fp32 layers consumed after quantize");
}

#[test]
fn test_load_safetensors_weights_into_model() {
    let data = create_tiny_safetensors();
    let loader = SafeTensorsLoader::from_bytes(&data).unwrap();
    let config = ModelConfig::tiny_test();

    let mut model = Model::new(config.clone());
    let stats = load_safetensors_weights(&mut model, &loader, &config, None, &pack);

    // Should have loaded: embedding + norm + 2 layers * (4 attn + 3 ffn + 2 norm) = 1 + 1 + 18 = 20
    assert_eq!(stats.loaded, 20);
    assert!(stats.skipped.is_empty());

    // Verify a weight was actually set (not zero)
    let embedding_sum: f32 = floats(&model.embedding.weight).iter().sum();
    assert!(embedding_sum.abs() > 0.0, "embedding weights should be non-zero");
}

#[test]
fn test_load_safetensors_weights_with_ternary_quantize() {
    let data = create_tiny_safetensors();
    let loader = SafeTensorsLoader::from_bytes(&data).unwrap();
    let config = ModelConfig::tiny_test();

    let mut model = Model::new(config.clone());
    let stats = load_safetensors_weights(&mut model, &loader, &config, Some("ternary"), &pack);

    assert_eq!(stats.loaded, 20);
}

#[test]
fn test_gpt2_weight_mapper() {
    let config = ModelConfig::tiny_test();

    assert_eq!(
        Gpt2WeightMapper::map_weight("transformer.wte.weight", &config),
        WeightTarget::Embedding
    );
    assert_eq!(
        Gpt2WeightMapper::map_weight("transformer.ln_f.weight", &config),
        WeightTarget::FinalNorm
    );
    assert_eq!(
        Gpt2WeightMapper::map_weight("lm_head.weight", &config),
        WeightTarget::LmHead
    );
    assert_eq!(
        Gpt2WeightMapper::map_weight("transformer.h.0.attn.c_attn.weight", &config),
        WeightTarget::AttentionQkvSplit { layer_idx: 0 }
    );
    assert_eq!(
        Gpt2WeightMapper::map_weight("transformer.h.0.attn.c_proj.weight", &config),
        WeightTarget::AttentionO { layer_idx: 0 }
    );
    assert_eq!(
        Gpt2WeightMapper::map_weight("transformer.h.5.mlp.c_fc.weight", &config),
        WeightTarget::FfnUp { layer_idx: 5 }
    );
    assert_eq!(
        Gpt2WeightMapper::map_weight("transformer.h.5.mlp.c_proj.weight", &config),
        WeightTarget::FfnDown { layer_idx: 5 }
    );
    assert_eq!(
        Gpt2WeightMapper::map_weight("transformer.h.3.ln_1.weight", &config),
        WeightTarget::AttnNorm { layer_idx: 3 }
    );
    assert_eq!(
        Gpt2WeightMapper::map_weight("transformer.h.3.ln_2.weight", &config),
        WeightTarget::FfnNorm { layer_idx: 3 }
    );
    assert_eq!(
        Gpt2WeightMapper::map_weight("transformer.h.0.attn.c_attn.bias", &config),
        WeightTarget::AttentionQkvBiasSplit { layer_idx: 0 }
    );
}

#[test]
fn test_phi_weight_mapper() {
    let config = ModelConfig::tiny_test();

    assert_eq!(
        PhiWeightMapper::map_weight("transformer.embd.wte.weight", &config),
        WeightTarget::Embedding
    );
    assert_eq!(
        PhiWeightMapper::map_weight("transformer.ln_f.weight", &config),
        WeightTarget::FinalNorm
    );
    assert_eq!(
        PhiWeightMapper::map_weight("lm_head.weight", &config),
        WeightTarget::LmHead
    );
    assert_eq!(
        PhiWeightMapper::map_weight("transformer.h.0.attn.q_proj.weight", &config),
        WeightTarget::AttentionQ { layer_idx: 0 }
    );
    assert_eq!(
        PhiWeightMapper::map_weight("transformer.h.1.attn.k_proj.weight", &config),
        WeightTarget::AttentionK { layer_idx: 1 }
    );
    assert_eq!(
        PhiWeightMapper::map_weight("transformer.h.2.attn.v_proj.weight", &config),
        WeightTarget::AttentionV { layer_idx: 2 }
    );
    assert_eq!(
        PhiWeightMapper::map_weight("transformer.h.3.attn.dense.weight", &config),
        WeightTarget::AttentionO { layer_idx: 3 }
    );
    assert_eq!(
        PhiWeightMapper::map_weight("transformer.h.4.mlp.fc1.weight", &config),
        WeightTarget::FfnUp { layer_idx: 4 }
    );
    assert_eq!(
        PhiWeightMapper::map_weight("transformer.h.4.mlp.fc2.weight", &config),
        WeightTarget::FfnDown { layer_idx: 4 }
    );
    assert_eq!(
        PhiWeightMapper::map_weight("transformer.h.5.ln.weight", &config),
        WeightTarget::AttnNorm { layer_idx: 5 }
    );
    // New-style phi-1/phi-2 checkpoints use `model.layers.N.*`.
    assert_eq!(
        PhiWeightMapper::map_weight("model.layers.0.self_attn.q_proj.weight", &config),
        WeightTarget::AttentionQ { layer_idx: 0 }
    );
    assert_eq!(
        PhiWeightMapper::map_weight("model.layers.1.self_attn.dense.weight", &config),
        WeightTarget::AttentionO { layer_idx: 1 }
    );
    assert_eq!(
        PhiWeightMapper::map_weight("model.layers.2.mlp.fc1.weight", &config),
        WeightTarget::FfnUp { layer_idx: 2 }
    );
    assert_eq!(
        PhiWeightMapper::map_weight("model.layers.2.mlp.fc2.weight", &config),
        WeightTarget::FfnDown { layer_idx: 2 }
    );
    assert_eq!(
        PhiWeightMapper::map_weight("model.layers.3.input_layernorm.weight", &config),
        WeightTarget::AttnNorm { layer_idx: 3 }
    );
    assert_eq!(
        PhiWeightMapper::map_weight("model.final_layernorm.weight", &config),
        WeightTarget::FinalNorm
    );
}

#[test]
fn test_gemma_weight_mapper() {
    let config = ModelConfig::tiny_test();

    assert_eq!(
        GemmaWeightMapper::map_weight("model.embed_tokens.weight", &config),
        WeightTarget::Embedding
    );
    assert_eq!(
        GemmaWeightMapper::map_weight("model.norm.weight", &config),
        WeightTarget::FinalNorm
    );
    assert_eq!(
        GemmaWeightMapper::map_weight("lm_head.weight", &config),
        WeightTarget::LmHead
    );
    assert_eq!(
        GemmaWeightMapper::map_weight("model.layers.0.self_attn.q_proj.weight", &config),
        WeightTarget::AttentionQ { layer_idx: 0 }
    );
    assert_eq!(
        GemmaWeightMapper::map_weight("model.layers.1.self_attn.q_norm.weight", &config),
        WeightTarget::AttentionQNorm { layer_idx: 1 }
    );
    assert_eq!(
        GemmaWeightMapper::map_weight("model.layers.1.self_attn.k_norm.weight", &config),
        WeightTarget::AttentionKNorm { layer_idx: 1 }
    );
    assert_eq!(
        GemmaWeightMapper::map_weight("model.layers.2.mlp.gate_proj.weight", &config),
        WeightTarget::FfnGate { layer_idx: 2 }
    );
    assert_eq!(
        GemmaWeightMapper::map_weight("model.layers.2.mlp.down_proj.weight", &config),
        WeightTarget::FfnDown { layer_idx: 2 }
    );
    assert_eq!(
        GemmaWeightMapper::map_weight("model.layers.3.input_layernorm.weight", &config),
        WeightTarget::AttnNorm { layer_idx: 3 }
    );
    assert_eq!(
        GemmaWeightMapper::map_weight("model.layers.3.post_attention_layernorm.weight", &config),
        WeightTarget::FfnNorm { layer_idx: 3 }
    );
}

#[test]
fn test_architecture_dispatch() {
    let config = ModelConfig::tiny_test();

    // Default tiny_test is Llama
    assert_eq!(
        map_weight_for_architecture("model.layers.0.self_attn.q_proj.weight", &config),
        WeightTarget::AttentionQ { layer_idx: 0 }
    );

    // GPT-2 config dispatches to Gpt2WeightMapper
    let mut gpt2_config = config.clone();
    gpt2_config.architecture = Architecture::Gpt2;
    assert_eq!(
        map_weight_for_architecture("transformer.h.0.attn.c_attn.weight", &gpt2_config),
        WeightTarget::AttentionQkvSplit { layer_idx: 0 }
    );
    // Llama-style names are Unknown for GPT-2
    assert!(matches!(
        map_weight_for_architecture("model.layers.0.self_attn.q_proj.weight", &gpt2_config),
        WeightTarget::Unknown(_)
    ));

    // Phi config dispatches to PhiWeightMapper
    let mut phi_config = config.clone();
    phi_config.architecture = Architecture::Phi;
    assert_eq!(
        map_weight_for_architecture("transformer.h.0.attn.q_proj.weight", &phi_config),
        WeightTarget::AttentionQ { layer_idx: 0 }
    );

    // Mistral and Qwen dispatch to Llama layout
    let mut mistral_config = config.clone();
    mistral_config.architecture = Architecture::Mistral;
    assert_eq!(
        map_weight_for_architecture("model.layers.0.self_attn.q_proj.weight", &mistral_config),
        WeightTarget::AttentionQ { layer_idx: 0 }
    );
}

#[test]
fn a_mapped_file_gives_the_same_tensors() {
    let data = create_test_safetensors();
    let read = SafeTensorsLoader::load(&data).unwrap();
    let mapped = MmapSafeTensors::load_mmap(&data).unwrap();
    assert_eq!(read.tensor_names(), mapped.tensor_names());
    for name in read.tensor_names() {
        let a = read.load_tensor(name).unwrap();
        let b = mapped.load_tensor(name).unwrap();
        assert_eq!(a.shape(), b.shape());
        assert_eq!(floats(&a), floats(&b));
        assert_eq!(read.tensor_info(name), mapped.tensor_info(name));
    }
    assert_eq!(mapped.load_all_tensors().unwrap().len(), 2);
    assert!(mapped.load_tensor("nonexistent").is_err());
}

#[test]
fn metadata_is_kept_apart_from_tensors() {
    let header = r#"{"__metadata__": {"format": "pt"}, "w": {"dtype": "F32", "shape": [1], "data_offsets": [0, 4]}}"#;
    let bytes = file(header, &2.5f32.to_le_bytes());
    let loader = SafeTensorsLoader::from_bytes(&bytes).unwrap();
    assert_eq!(loader.tensor_names(), vec!["w"]);
    assert_eq!(loader.metadata().len(), 1);
    assert_eq!(loader.metadata()[0].0, "format");
    assert_eq!(loader.metadata()[0].1, "pt");
    assert_eq!(floats(&loader.load_tensor("w").unwrap()), vec![2.5]);
    assert_eq!(MmapSafeTensors::load_mmap(&bytes).unwrap().metadata().len(), 1);
}

#[test]
fn half_precision_becomes_single() {
    // 1.5 and -2.0 as halves, then as brain floats.
    let t = bytes_to_tensor("F16", &[0x00, 0x3e, 0x00, 0xc0], &[2]).unwrap();
    assert_eq!(floats(&t), vec![1.5, -2.0]);
    let t = bytes_to_tensor("BF16", &[0xc0, 0x3f, 0x00, 0xc0], &[2]).unwrap();
    assert_eq!(floats(&t), vec![1.5, -2.0]);
    let t = bytes_to_tensor("F32", &1.25f32.to_le_bytes(), &[1]).unwrap();
    assert_eq!(floats(&t), vec![1.25]);
    assert_eq!(t.dtype(), DType::F32);
}

#[test]
fn an_unknown_element_type_is_an_error() {
    assert!(storage_of("F32").is_some());
    assert!(storage_of("F99").is_none());
    assert!(matches!(storage_of("F32"), Some(Stored::F32)));
    let e = bytes_to_tensor("F99", &[], &[0]).err().unwrap();
    assert!(e.message().contains("F99"), "{}", e.message());
}

#[test]
fn errors_say_what_is_wrong() {
    let short = SafeTensorsLoader::from_bytes(&[0u8; 4]).unwrap_err();
    assert!(matches!(short, LoadError::InvalidFormat(_)), "{:?}", short);
    let not_json = SafeTensorsLoader::from_bytes(&file("{ no json", &[])).unwrap_err();
    assert!(matches!(not_json, LoadError::JsonError(_)), "{:?}", not_json);
    let odd = SafeTensorsLoader::from_bytes(&file(r#"{"w": 3}"#, &[])).unwrap_err();
    assert!(matches!(odd, LoadError::JsonError(_)), "{:?}", odd);
    let data = create_test_safetensors();
    let missing = SafeTensorsLoader::from_bytes(&data).unwrap().load_tensor("nowhere").err().unwrap();
    assert!(missing.message().contains("nowhere"), "{}", missing.message());
    let past = file(r#"{"w": {"dtype": "F32", "shape": [2], "data_offsets": [0, 8]}}"#, &[0u8; 4]);
    let past = SafeTensorsLoader::from_bytes(&past).unwrap().load_tensor("w").err().unwrap();
    assert!(
        matches!(past, LoadError::OffsetOutOfBounds { start: 0, end: 8, data_len: 4, .. }),
        "{:?}",
        past
    );
    let dtype = file(r#"{"w": {"dtype": "C64", "shape": [1], "data_offsets": [0, 4]}}"#, &[0u8; 4]);
    let dtype = SafeTensorsLoader::from_bytes(&dtype).unwrap().load_tensor("w").err().unwrap();
    assert!(matches!(dtype, LoadError::UnsupportedDtype(_)), "{:?}", dtype);
}

#[test]
fn the_name_of_a_layer_tensor_maps_back() {
    let config = ModelConfig::tiny_test();
    for idx in [0usize, 1, 12, 305] {
        let name = LlamaWeightMapper::layer_tensor_name(idx, "attention.wq.weight");
        assert_eq!(
            LlamaWeightMapper::map_weight(&name, &config),
            WeightTarget::AttentionQ { layer_idx: idx },
            "{}",
            name
        );
    }
}

#[test]
fn other_families_share_the_llama_names() {
    let config = ModelConfig::tiny_test();
    let name = "model.layers.3.self_attn.v_proj.weight";
    let wanted = WeightTarget::AttentionV { layer_idx: 3 };
    assert_eq!(MistralWeightMapper::map_weight(name, &config), wanted);
    assert_eq!(QwenWeightMapper::map_weight(name, &config), wanted);
    assert_eq!(CustomWeightMapper::map_weight(name, &config), wanted);
    assert!(matches!(
        LlamaWeightMapper::map_weight("model.layers.x.self_attn.v_proj.weight", &config),
        WeightTarget::Unknown(_)
    ));
}

#[test]
fn every_tensor_is_loaded_or_named_as_left_out() {
    let config = ModelConfig::tiny_test();
    let h = config.hidden_size;
    let header = format!(
        r#"{{"model.norm.weight": {{"dtype": "F32", "shape": [{}], "data_offsets": [0, {}]}}, "rotary.inv_freq": {{"dtype": "F32", "shape": [1], "data_offsets": [{}, {}]}}}}"#,
        h,
        4 * h,
        4 * h,
        4 * h + 4
    );
    let data: Vec<u8> = (0..h + 1).flat_map(|i| (i as f32).to_le_bytes()).collect();
    let loader = SafeTensorsLoader::from_bytes(&file(&header, &data)).unwrap();
    let mut model = Model::new(config.clone());
    assert!(can_load(&loader, &config, &config));
    let stats = load_safetensors_weights(&mut model, &loader, &config, None, &pack);
    assert_eq!(stats.loaded, 1);
    assert_eq!(stats.skipped, vec!["rotary.inv_freq".to_string()]);
    assert_eq!(floats(&model.norm.weight)[5], 5.0);
}

#[test]
fn packing_hands_each_layer_over_once() {
    let data = create_tiny_safetensors();
    let loader = SafeTensorsLoader::from_bytes(&data).unwrap();
    let config = ModelConfig::tiny_test();
    let mut model = Model::new(config.clone());
    load_safetensors_weights(&mut model, &loader, &config, Some("ternary"), &pack);
    assert!(model.is_bit1());
    let layers = model.bit_layers.as_ref().unwrap();
    assert_eq!(layers.len(), config.num_layers);
    assert!(layers.iter().all(|l| l.ffn_up.bits.is_some() && l.attention.o_proj.bits.is_some()));
    assert!(layers.iter().all(|l| l.ffn_up.weight.dtype() == DType::BIT1));
    assert_eq!(model.lm_head.weight.dtype(), DType::F32);
    let mut other = Model::new(config.clone());
    load_safetensors_weights(&mut other, &loader, &config, Some("eightfold"), &pack);
    assert!(!other.is_bit1());
}

#[test]
fn a_shape_that_does_not_fit_is_refused() {
    let mut config = ModelConfig::tiny_test();
    config.num_kv_heads = Some(2);
    let mut model = Model::new(config.clone());
    let h = config.hidden_size;
    let w = config.head_dim();
    let before = floats(&model.layers[0].attention.q_proj.weight);
    let place = |model: &mut Model, target: WeightTarget, shape: &[usize]| {
        let n: usize = shape.iter().product();
        apply_weight_target(model, &target, Tensor::from_slice(&vec![1.0f32.to_bits(); n], shape))
    };
    assert!(!place(&mut model, WeightTarget::AttentionQ { layer_idx: 0 }, &[1]));
    assert_eq!(floats(&model.layers[0].attention.q_proj.weight), before);
    assert!(!place(&mut model, WeightTarget::AttentionQ { layer_idx: 0 }, &[h, h + 1]));
    assert!(place(&mut model, WeightTarget::AttentionQ { layer_idx: 0 }, &[h, h]));
    assert_eq!(floats(&model.layers[0].attention.q_proj.weight)[0], 1.0);
    assert!(!place(&mut model, WeightTarget::AttentionQ { layer_idx: 9 }, &[h, h]));
    assert!(!place(&mut model, WeightTarget::AttentionK { layer_idx: 1 }, &[h, h]));
    assert!(place(&mut model, WeightTarget::AttentionK { layer_idx: 1 }, &[2 * w, h]));
    assert!(place(&mut model, WeightTarget::AttentionVBias { layer_idx: 1 }, &[2 * w]));
    assert!(!place(&mut model, WeightTarget::AttentionQNorm { layer_idx: 0 }, &[config.num_heads, w]));
    assert!(!place(&mut model, WeightTarget::AttentionQkvSplit { layer_idx: 0 }, &[3 * h, h]));
    assert!(!place(&mut model, WeightTarget::Embedding, &[h, config.vocab_size + 1]));
    assert!(place(&mut model, WeightTarget::LmHead, &[config.vocab_size, h]));
    assert!(place(&mut model, WeightTarget::FfnDown { layer_idx: 0 }, &[h, config.intermediate_size]));
    assert!(!place(&mut model, WeightTarget::FinalNorm, &[h, 1]));
    assert!(!place(&mut model, WeightTarget::Unknown("x".to_string()), &[h]));
    let mut even = Model::new(ModelConfig::tiny_test());
    assert!(!place(&mut even, WeightTarget::AttentionQkvSplit { layer_idx: 0 }, &[3 * h, 1]));
    assert!(place(&mut even, WeightTarget::AttentionQkvSplit { layer_idx: 0 }, &[3 * h, h]));
    assert_eq!(even.layers[0].attention.v_proj.weight.shape(), &[h, h]);
}

#[test]
fn a_half_too_small_for_an_exponent_keeps_its_value() {
    let t = bytes_to_tensor("F16", &[0x01, 0x00, 0xff, 0x83, 0x00, 0x7c], &[3]).unwrap();
    assert_eq!(floats(&t), vec![2.0f32.powi(-24), -1023.0 * 2.0f32.powi(-24), f32::INFINITY]);
}

#[test]
fn each_name_is_listed_once() {
    let header = r#"{"w": {"dtype": "F32", "shape": [1], "data_offsets": [0, 4]}, "w": {"dtype": "F32", "shape": [1], "data_offsets": [4, 8]}}"#;
    let data: Vec<u8> = [1.0f32, 2.0].iter().flat_map(|f| f.to_le_bytes()).collect();
    let loader = SafeTensorsLoader::from_bytes(&file(header, &data)).unwrap();
    assert_eq!(loader.tensor_names(), vec!["w"]);
    assert_eq!(floats(&loader.load_tensor("w").unwrap()), vec![2.0]);
    let list = |start: u64| {
        let number = |n: u64| Json::Number { natural: Some(n), double: Some((n as f64).to_bits()) };
        Json::List(vec![
            Json::Text("F32".to_string()),
            Json::List(vec![number(1)]),
            Json::List(vec![number(start), number(start + 4)]),
        ])
    };
    let twice = Json::Object(vec![
        ("w".to_string(), list(0)),
        ("u".to_string(), list(4)),
        ("w".to_string(), list(8)),
    ]);
    let read = SafeTensorsHeader::read(&twice).unwrap();
    assert_eq!(read.names(), vec!["w", "u"]);
    assert_eq!(read.info("w").unwrap().data_offsets, [8, 12]);
}

#[test]
fn a_misfit_is_named_as_left_out() {
    let config = ModelConfig::tiny_test();
    let header = r#"{"model.norm.weight": {"dtype": "F32", "shape": [1], "data_offsets": [0, 4]}}"#;
    let loader = SafeTensorsLoader::from_bytes(&file(header, &1.0f32.to_le_bytes())).unwrap();
    let mut model = Model::new(config.clone());
    let stats = load_safetensors_weights(&mut model, &loader, &config, None, &pack);
    assert_eq!(stats.loaded, 0);
    assert_eq!(stats.skipped, vec!["model.norm.weight".to_string()]);
    assert_eq!(model.norm.weight.shape(), &[config.hidden_size]);
    assert_eq!(floats(&model.lm_head.weight), floats(&model.embedding.weight));
}
