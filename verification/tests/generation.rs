//! Running a model: attention, layers, generation alone, in batches and with a draft.
use bitllm::runtime::attention::Attention;
use bitllm::runtime::bits::{QuantConfig, QuantizedTensor};
use bitllm::runtime::cache::KvCache;
use bitllm::runtime::config::{Activation, ModelConfig, Real};
use bitllm::runtime::continuous::ContinuousBatch;
use bitllm::runtime::gpu::GpuContext;
use bitllm::runtime::heads::attend;
use bitllm::runtime::layers::{Embedding, Linear, RmsNorm};
use bitllm::runtime::loading::load_safetensors_weights;
use bitllm::runtime::model::Model;
use bitllm::runtime::record::{ProjectionKind, ProjectionRecorder};
use bitllm::runtime::rope::{
    apply_rotary_emb, apply_rotary_emb_batch, apply_rotary_emb_inplace, apply_rotary_emb_with_cache,
    RoPECache,
};
use bitllm::runtime::safetensors::SafeTensorsLoader;
use bitllm::runtime::sampler::{greedy_sample, Sampler, SamplingStrategy};
use bitllm::runtime::speculative::SpeculativeDecoder;
use bitllm::runtime::unit::Op;
use bitllm::tensor::tensor::Tensor;
use bitllm::tensor::types::DType;
use rand::Rng;

fn float(b: u32) -> f32 {
    f32::from_bits(b)
}

fn bits(v: &[f32]) -> Vec<u32> {
    v.iter().map(|x| x.to_bits()).collect()
}

fn single(r: Real) -> f32 {
    match r {
        Real::Single(b) => f32::from_bits(b),
        Real::Double(b) => f64::from_bits(b) as f32,
    }
}

fn dot(x: &[u32], y: &[u32]) -> f32 {
    x.iter().zip(y.iter()).map(|(a, b)| float(*a) * float(*b)).sum()
}

/// A plain float unit.
fn unit(op: Op, x: &[u32], y: &[u32], z: &[u32]) -> Vec<u32> {
    let n = x.len();
    match op {
        Op::Dot => vec![dot(x, y).to_bits()],
        Op::BitDot { a8 } => vec![bit_dot(a8, x, y, z).to_bits()],
        Op::Minus => (0..n).map(|i| (float(x[i]) - float(y[i])).to_bits()).collect(),
        Op::Plus => (0..n).map(|i| (float(x[i]) + float(y[i])).to_bits()).collect(),
        Op::Norm { layer, centered, eps } => {
            let mean = if layer { x.iter().map(|b| float(*b)).sum::<f32>() / n as f32 } else { 0.0 };
            let power = x.iter().map(|b| (float(*b) - mean) * (float(*b) - mean)).sum::<f32>() / n as f32;
            let scale = 1.0 / (power + single(eps)).sqrt();
            (0..n)
                .map(|i| {
                    let gain = if centered { 1.0 + float(y[i]) } else { float(y[i]) };
                    let shift = if layer && !z.is_empty() { float(z[i]) } else { 0.0 };
                    ((float(x[i]) - mean) * scale * gain + shift).to_bits()
                })
                .collect()
        }
        Op::HeadNorm { centered, eps } => {
            let scale = 1.0 / (dot(x, x) / n as f32 + single(eps)).sqrt();
            (0..n)
                .map(|i| {
                    let gain = if centered { 1.0 + float(y[i]) } else { float(y[i]) };
                    (float(x[i]) * scale * gain).to_bits()
                })
                .collect()
        }
        Op::Rotate { position, theta, factor } => {
            let half = n / 2;
            let mut r = x.to_vec();
            for i in 0..half {
                let frequency = 1.0 / single(theta).powf((2 * i) as f32 / n as f32);
                let angle = position as f32 / single(factor) * frequency;
                let (lo, hi) = (float(x[i]), float(x[i + half]));
                r[i] = (lo * angle.cos() - hi * angle.sin()).to_bits();
                r[i + half] = (lo * angle.sin() + hi * angle.cos()).to_bits();
            }
            r
        }
        Op::Attend { softcap } => attention(x, y, z, 1.0 / (n as f32).sqrt(), softcap),
        Op::Gate(kind) => (0..n)
            .map(|i| {
                let a = float(x[i]);
                let r = match kind {
                    Activation::SiluGated => a / (1.0 + (-a).exp()) * float(y[i]),
                    Activation::GeluGated => gelu(a) * float(y[i]),
                    Activation::Gelu => gelu(a),
                };
                r.to_bits()
            })
            .collect(),
        Op::Softcap { cap } => x
            .iter()
            .map(|b| (single(cap) * (float(*b) / single(cap)).tanh()).to_bits())
            .collect(),
        Op::Softmax { temperature } => {
            let top = x.iter().map(|b| float(*b)).fold(f32::NEG_INFINITY, f32::max);
            let e: Vec<f32> = x.iter().map(|b| ((float(*b) - top) / float(temperature)).exp()).collect();
            let sum: f32 = e.iter().sum();
            e.iter().map(|v| (v / sum).to_bits()).collect()
        }
        Op::Share => {
            let sum: f32 = x.iter().map(|b| float(*b)).sum();
            x.iter().map(|b| (float(*b) / sum).to_bits()).collect()
        }
    }
}

/// The inner product with signs, group by group; with `a8`, of the row in steps of a 127th of its
/// greatest element.
fn bit_dot(a8: bool, x: &[u32], signs: &[u32], scales: &[u32]) -> f32 {
    let n = x.len();
    let top = x.iter().map(|b| float(*b).abs()).fold(0.0, f32::max);
    let step = if a8 && top > 0.0 { top / 127.0 } else { 1.0 };
    let group = (n + scales.len() - 1) / scales.len();
    let mut sum = 0.0f64;
    for t in 0..n {
        let v = if a8 { (float(x[t]) / step).round() } else { float(x[t]) };
        sum += v as f64 * float(signs[t]) as f64 * float(scales[t / group]) as f64;
    }
    (sum * step as f64) as f32
}

fn gelu(a: f32) -> f32 {
    0.5 * a * (1.0 + (0.797_884_6 * (a + 0.044715 * a * a * a)).tanh())
}

fn attention(q: &[u32], keys: &[u32], values: &[u32], scale: f32, softcap: Option<Real>) -> Vec<u32> {
    let n = q.len();
    let scores: Vec<f32> = keys
        .chunks(n)
        .map(|k| {
            let s = dot(q, k) * scale;
            match softcap {
                Some(cap) if single(cap) > 0.0 => single(cap) * (s / single(cap)).tanh(),
                _ => s,
            }
        })
        .collect();
    let top = scores.iter().cloned().fold(f32::NEG_INFINITY, f32::max);
    let e: Vec<f32> = scores.iter().map(|s| (s - top).exp()).collect();
    let sum: f32 = e.iter().sum();
    (0..n)
        .map(|j| {
            let mut r = 0.0f32;
            for t in 0..e.len() {
                r += e[t] / sum * float(values[t * n + j]);
            }
            r.to_bits()
        })
        .collect()
}

/// Signs, and the greatest element of each group of columns for a scale.
fn pack(weight: &Tensor, config: QuantConfig) -> QuantizedTensor {
    let columns = *weight.shape().last().unwrap();
    let group = if config.group_size > 0 { config.group_size } else { columns };
    let values = weight.as_f32_slice();
    let mut scales = vec![0.0f32; (columns + group - 1) / group];
    for (i, b) in values.iter().enumerate() {
        let g = i % columns / group;
        scales[g] = scales[g].max(float(*b).abs());
    }
    QuantizedTensor { signs: weight.to_bit1(), scales: bits(&scales) }
}

const ONE: Real = Real::Single(0x3f80_0000);

/// 10000.
const THETA: Real = Real::Single(0x461c_4000);

fn floats(t: &Tensor) -> Vec<f32> {
    t.as_f32_slice().iter().map(|b| float(*b)).collect()
}

fn random(shape: &[usize]) -> Tensor {
    let n: usize = shape.iter().product();
    let mut rng = rand::thread_rng();
    let data: Vec<u32> = (0..n).map(|_| rng.gen_range(-1.0f32..1.0).to_bits()).collect();
    Tensor::from_slice(&data, shape)
}

fn same(t: &Tensor) -> Tensor {
    Tensor::from_slice(&t.as_f32_slice(), t.shape())
}

/// The place of the highest score, as a sampler gives it.
fn greedy_sample_of(logits: &[u32]) -> u32 {
    Sampler::greedy().sample(logits, 0, &unit)
}

fn rate((accepted, proposed): (u64, u64)) -> f32 {
    if proposed == 0 {
        0.0
    } else {
        accepted as f32 / proposed as f32
    }
}

fn entry(shape: &[usize], start: usize, end: usize) -> serde_json::Value {
    let text = format!(
        r#"{{"dtype": "F32", "shape": {:?}, "data_offsets": [{}, {}]}}"#,
        shape, start, end
    );
    serde_json::from_str(&text).unwrap()
}

#[test]
fn test_rms_norm_one_centered() {
    let input = Tensor::from_slice(&bits(&[3.0, 4.0, 5.0, 12.0]), &[2, 2]);
    let eps = Real::Single(1e-5f32.to_bits());

    let norm = RmsNorm::new_one_centered(Tensor::ones(&[2], DType::F32), eps);
    let out = norm.forward(&input, &unit);

    let standard = RmsNorm::new(Tensor::ones(&[2], DType::F32), eps);
    let std_out = standard.forward(&input, &unit);

    let one = floats(&out);
    let std = floats(&std_out);
    for i in 0..4 {
        assert!(
            (one[i] - 2.0 * std[i]).abs() < 1e-5,
            "one-centered (w=1) scales by (1 + w) = 2"
        );
    }

    let zero = RmsNorm::new_one_centered(Tensor::zeros(&[2], DType::F32), eps);
    let z_out = zero.forward(&input, &unit);
    let zin = floats(&z_out);
    for i in 0..4 {
        assert!(
            (zin[i] - std[i]).abs() < 1e-5,
            "one-centered (w=0) equals standard RMSNorm"
        );
    }
}

#[test]
fn test_rope_preserves_norm() {
    let head_dim = 8;
    let num_heads = 2;
    let seq_len = 4;
    let data: Vec<f32> = (0..(num_heads * seq_len * head_dim) as i32)
        .map(|i| i as f32 * 0.1)
        .collect();
    let x = Tensor::from_slice(&bits(&data), &[num_heads, seq_len, head_dim]);

    let input_norm: f32 = data.iter().map(|v| v * v).sum::<f32>().sqrt();

    let result = apply_rotary_emb(&x, 0, head_dim, THETA, &unit);
    let output_norm: f32 = (0..result.num_elements())
        .map(|i| float(result.get_flat_f32(i)).powi(2))
        .sum::<f32>()
        .sqrt();

    let diff = (input_norm - output_norm).abs();
    assert!(
        diff < 1e-4,
        "RoPE changed vector norm: input={}, output={}",
        input_norm,
        output_norm
    );
}

#[test]
fn test_rope_different_positions_give_different_outputs() {
    let head_dim = 8;
    let num_heads = 1;
    let seq_len = 1;
    let data = vec![1.0f32; head_dim];
    let x = Tensor::from_slice(&bits(&data), &[num_heads, seq_len, head_dim]);

    let r0 = apply_rotary_emb(&x, 0, head_dim, THETA, &unit);
    let r1 = apply_rotary_emb(&x, 1, head_dim, THETA, &unit);

    let mut differ = false;
    for i in 0..head_dim {
        if (float(r0.get_flat_f32(i)) - float(r1.get_flat_f32(i))).abs() > 1e-6 {
            differ = true;
            break;
        }
    }
    assert!(
        differ,
        "Different positions should produce different outputs"
    );
}

#[test]
fn test_rope_position_zero() {
    let head_dim = 4;
    let x = Tensor::from_slice(&bits(&[1.0, 0.0, 0.0, 1.0]), &[1, 1, head_dim]);
    let result = apply_rotary_emb(&x, 0, head_dim, THETA, &unit);

    let freq = 1.0 / 10000.0_f32.powf(0.0);
    let angle = 0.0 * freq;
    let cos_val = angle.cos();
    let sin_val = angle.sin();

    let expected_even = 1.0 * cos_val - 0.0 * sin_val;
    let expected_odd = 1.0 * sin_val + 0.0 * cos_val;
    let diff = (float(result.get_flat_f32(0)) - expected_even).abs()
        + (float(result.get_flat_f32(1)) - expected_odd).abs();
    assert!(diff < 1e-6, "RoPE at position 0 failed: diff={}", diff);
}

#[test]
fn test_rope_inplace_matches_outplace() {
    let head_dim = 8;
    let num_heads = 2;
    let seq_len = 3;
    let data: Vec<f32> = (0..(num_heads * seq_len * head_dim) as i32)
        .map(|i| i as f32 * 0.1)
        .collect();
    let x = Tensor::from_slice(&bits(&data), &[num_heads, seq_len, head_dim]);

    let mut q = x.clone();
    let mut k = x.clone();
    apply_rotary_emb_inplace(&mut q, &mut k, 5, head_dim, THETA, &unit);

    let outplace_q = apply_rotary_emb(&x, 5, head_dim, THETA, &unit);

    for i in 0..outplace_q.num_elements() {
        let diff = (float(outplace_q.get_flat_f32(i)) - float(q.get_flat_f32(i))).abs();
        assert!(
            diff < 1e-6,
            "Inplace/outplace mismatch at {}: outplace={}, inplace={}",
            i,
            float(outplace_q.get_flat_f32(i)),
            float(q.get_flat_f32(i))
        );
    }
}

#[test]
fn test_attention_softcap_bounds_logits() {
    let num_heads = 1;
    let head_dim = 2;

    let q = Tensor::from_slice(&bits(&[1.0, 1.0]), &[num_heads, 1, head_dim]);
    let k = Tensor::from_slice(&bits(&[1.0, 1.0, 2.0, 2.0]), &[1, 1, 2, head_dim]);
    let v = Tensor::from_slice(&bits(&[10.0, 20.0, 30.0, 40.0]), &[1, 1, 2, head_dim]);
    // A unit that takes scores as they are.
    let plain = |op: Op, x: &[u32], y: &[u32], z: &[u32]| match op {
        Op::Attend { softcap } => attention(x, y, z, 1.0, softcap),
        _ => unit(op, x, y, z),
    };

    let no_cap = attend(&q, &k, &v, num_heads, 1, head_dim, &[0], &[2], None, &plain);
    let one = Real::Single(1.0f32.to_bits());
    let capped = attend(&q, &k, &v, num_heads, 1, head_dim, &[0], &[2], Some(one), &plain);

    let no = floats(&no_cap);
    let cap = floats(&capped);
    assert!(
        no[1] > 35.0,
        "uncapped attention is dominated by the high-dot key (got {})",
        no[1]
    );
    assert!(
        cap[1] < 32.0,
        "softcap=1.0 flattens the distribution toward uniform (got {})",
        cap[1]
    );
}

#[test]
fn test_attention_with_rope() {
    let config = ModelConfig::tiny_test();
    let hidden = config.hidden_size;
    let head_dim = config.head_dim();

    let attention = Attention::new(
        Linear::new(random(&[hidden, hidden]), None),
        Linear::new(
            random(&[hidden, config.num_kv_heads() * head_dim]),
            None,
        ),
        Linear::new(
            random(&[hidden, config.num_kv_heads() * head_dim]),
            None,
        ),
        Linear::new(random(&[hidden, hidden]), None),
        config.clone(),
    );

    let input = random(&[1, hidden]);
    let mut cache = KvCache::new(
        config.num_layers,
        1,
        config.max_seq_len,
        config.num_kv_heads(),
        head_dim,
    );

    let output = attention.forward_gpu_with_rope_cache(&input, &mut cache, 0, 0, 0, ONE, &unit);
    assert_eq!(output.shape(), &[1, hidden]);

    let output2 = attention.forward_gpu_with_rope_cache(&input, &mut cache, 0, 0, 1, ONE, &unit);
    assert_eq!(output2.shape(), &[1, hidden]);

    assert_eq!(
        cache.seq_len(0),
        0,
        "Attention does not advance cache - Model does"
    );
}

#[test]
fn test_batched_attention_isolates_slots() {
    let config = ModelConfig::tiny_test();
    let hidden = config.hidden_size;
    let head_dim = config.head_dim();
    let num_kv_heads = config.num_kv_heads();

    let attention = Attention::new(
        Linear::new(random(&[hidden, hidden]), None),
        Linear::new(
            random(&[hidden, num_kv_heads * head_dim]),
            None,
        ),
        Linear::new(
            random(&[hidden, num_kv_heads * head_dim]),
            None,
        ),
        Linear::new(random(&[hidden, hidden]), None),
        config.clone(),
    );

    let batch = 3;
    let mut cache = KvCache::new(
        config.num_layers,
        batch,
        config.max_seq_len,
        num_kv_heads,
        head_dim,
    );

    // Each slot writes one token at its own position.
    for b in 0..batch {
        let input = random(&[1, hidden]);
        let positions = [b];
        attention.forward_batch_gpu(&input, &mut cache, 0, &positions, ONE, &unit);
        cache.reserve(b, b, 1);
    }

    // Slots must have independent lengths.
    for b in 0..batch {
        assert_eq!(cache.seq_len(b), b + 1);
    }

    let next = random(&[batch, hidden]);
    let positions: Vec<usize> = (0..batch).map(|b| cache.seq_len(b)).collect();
    let out = attention.forward_batch_gpu(&next, &mut cache, 0, &positions, ONE, &unit);
    assert_eq!(out.shape(), &[batch, hidden]);
}

#[test]
fn test_model_creation() {
    let config = ModelConfig::tiny_test();
    let model = Model::new(config.clone());
    assert_eq!(model.config.vocab_size, config.vocab_size);
    assert_eq!(model.layers.len(), config.num_layers);
}

#[test]
fn test_model_forward() {
    let config = ModelConfig::tiny_test();
    let mut model = Model::new(config);
    let tokens = vec![0u32, 1, 2];
    let logits = model.forward(&tokens, &unit);
    assert_eq!(logits.shape(), &[3, 256]);
}

#[test]
fn test_generation() {
    let config = ModelConfig::tiny_test();
    let mut model = Model::new(config);
    let generated = model.generate(&[0, 1], 5, &greedy_sample_of, &unit);
    assert_eq!(generated.len(), 5);
}

#[test]
fn test_generation_empty_prompt() {
    let config = ModelConfig::tiny_test();
    let mut model = Model::new(config);
    let generated = model.generate(&[], 5, &greedy_sample_of, &unit);
    assert!(generated.is_empty());
}

#[test]
fn test_generation_deterministic() {
    let config = ModelConfig::tiny_test();
    let mut model1 = Model::new(config.clone());
    let mut model2 = Model::new(config);
    let gen1 = model1.generate(&[0, 1, 2], 10, &greedy_sample_of, &unit);
    let gen2 = model2.generate(&[0, 1, 2], 10, &greedy_sample_of, &unit);
    assert_eq!(gen1, gen2);
}

#[test]
fn test_generate_batch_matches_single_sequence() {
    // A batch of one must reproduce the single-sequence path exactly.
    let config = ModelConfig::tiny_test();

    let mut single = Model::new(config.clone());
    let expected = single.generate(&[0, 1, 2, 5], 6, &greedy_sample_of, &unit);

    let mut batched = Model::new(config);
    let prompts = [vec![0u32, 1, 2, 5]];
    let refs: Vec<&[u32]> = prompts.iter().map(|v| v.as_slice()).collect();
    let got = batched.generate_batch(&refs, 6, &greedy_sample_of, None, &unit);

    assert_eq!(got.len(), 1);
    assert_eq!(got[0], expected);
}

#[test]
fn test_generate_batch_multiple_sequences() {
    let config = ModelConfig::tiny_test();
    let mut model = Model::new(config);

    let p0 = [0u32, 1];
    let p1 = [2u32, 3, 4];
    let prompts = [p0.as_slice(), p1.as_slice()];
    let outputs = model.generate_batch(&prompts, 5, &greedy_sample_of, None, &unit);

    assert_eq!(outputs.len(), 2);
    assert_eq!(outputs[0].len(), 5);
    assert_eq!(outputs[1].len(), 5);

    // Each slot must have independently advanced its cache.
    let cache = model.cache.as_ref().unwrap();
    assert_eq!(cache.seq_len(0), 2 + 5);
    assert_eq!(cache.seq_len(1), 3 + 5);
}

#[test]
fn test_generate_batch_eos_stops_sequence() {
    // The zero-initialized tiny model has all-equal logits, so greedy
    // always samples token 0. With eos = Some(0) each sequence must stop
    // after its very first generated token.
    let config = ModelConfig::tiny_test();
    let mut model = Model::new(config.clone());

    let p0 = [0u32, 1];
    let p1 = [2u32, 3];
    let prompts = [p0.as_slice(), p1.as_slice()];
    let outputs = model.generate_batch(&prompts, 8, &greedy_sample_of, Some(0), &unit);

    assert_eq!(outputs.len(), 2);
    for seq in &outputs {
        assert_eq!(seq.len(), 1, "EOS should stop after the first token");
        assert_eq!(seq[0], 0);
    }

    // A different EOS never fires, so sequences run to max_new_tokens.
    let mut model = Model::new(config.clone());
    let outputs = model.generate_batch(&prompts, 8, &greedy_sample_of, Some(2), &unit);
    assert_eq!(outputs.len(), 2);
    assert_eq!(outputs[0].len(), 8);
    assert_eq!(outputs[1].len(), 8);
}

#[test]
fn test_generate_batch_bit1() {
    let config = ModelConfig::tiny_test();
    let data = create_test_model_safetensors(&config);
    let loader = SafeTensorsLoader::from_bytes(&data).unwrap();
    let mut model = Model::new(config.clone());
    let stats =
        load_safetensors_weights(&mut model, &loader, &config, Some("ternary"), &pack);
    assert_eq!(stats.loaded, 20);
    assert!(model.is_bit1());

    let p0 = [0u32, 1];
    let p1 = [2u32, 3];
    let prompts = [p0.as_slice(), p1.as_slice()];
    let outputs = model.generate_batch(&prompts, 4, &greedy_sample_of, None, &unit);
    assert_eq!(outputs.len(), 2);
    assert_eq!(outputs[0].len(), 4);
    assert_eq!(outputs[1].len(), 4);
}

#[test]
fn test_forward_single_token() {
    let config = ModelConfig::tiny_test();
    let mut model = Model::new(config);
    let logits = model.forward(&[42], &unit);
    assert_eq!(logits.shape(), &[1, 256]);
}

#[test]
fn test_forward_caches_position() {
    let config = ModelConfig::tiny_test();
    let mut model = Model::new(config);
    model.forward(&[0, 1, 2], &unit);
    let cache_len = model.cache.as_ref().unwrap().seq_len(0);
    assert_eq!(cache_len, 3);
}

#[test]
fn test_clear_cache() {
    let config = ModelConfig::tiny_test();
    let mut model = Model::new(config);
    model.forward(&[0, 1, 2, 3], &unit);
    assert!(model.cache.as_ref().unwrap().seq_len(0) > 0);
    model.clear_cache();
    assert_eq!(model.cache.as_ref().unwrap().seq_len(0), 0);
}

#[test]
fn test_load_weights_and_generate() {
    let config = ModelConfig::tiny_test();
    let data = create_test_model_safetensors(&config);
    let loader = SafeTensorsLoader::from_bytes(&data).unwrap();

    let mut model = Model::new(config.clone());
    let stats = load_safetensors_weights(&mut model, &loader, &config, None, &pack);
    assert_eq!(stats.loaded, 20);
    assert!(!model.is_bit1());

    let generated = model.generate(&[0, 1], 3, &greedy_sample_of, &unit);
    assert_eq!(generated.len(), 3);
}

#[test]
fn test_load_weights_ternary_bit1_and_generate() {
    let config = ModelConfig::tiny_test();
    let data = create_test_model_safetensors(&config);
    let loader = SafeTensorsLoader::from_bytes(&data).unwrap();

    let mut model = Model::new(config.clone());
    let stats =
        load_safetensors_weights(&mut model, &loader, &config, Some("ternary"), &pack);
    assert_eq!(stats.loaded, 20);
    assert!(model.is_bit1());

    let logits = model.forward(&[0, 1, 2], &unit);
    assert_eq!(logits.shape(), &[3, 256]);

    model.clear_cache();
    let generated = model.generate(&[0, 1], 3, &greedy_sample_of, &unit);
    assert_eq!(generated.len(), 3);
}

#[test]
fn test_model_forward_shape_varies_with_seq_len() {
    let config = ModelConfig::tiny_test();
    let mut model = Model::new(config);
    let logits1 = model.forward(&[0], &unit);
    assert_eq!(logits1.shape(), &[1, 256]);
    model.clear_cache();
    let logits3 = model.forward(&[0, 1, 2], &unit);
    assert_eq!(logits3.shape(), &[3, 256]);
}

fn create_test_model_safetensors(config: &ModelConfig) -> Vec<u8> {
    let mut tensors: Vec<(String, Vec<f32>, Vec<usize>)> = Vec::new();

    tensors.push((
        "model.embed_tokens.weight".into(),
        vec![0.1; config.vocab_size * config.hidden_size],
        vec![config.vocab_size, config.hidden_size],
    ));

    tensors.push((
        "model.norm.weight".into(),
        vec![1.0; config.hidden_size],
        vec![config.hidden_size],
    ));

    for i in 0..config.num_layers {
        let h = config.hidden_size;
        let kv = config.num_kv_heads() * config.head_dim();
        let inter = config.intermediate_size;

        let layer_tensors = vec![
            (
                format!("model.layers.{}.self_attn.q_proj.weight", i),
                vec![0.01; h * kv],
                vec![kv, h],
            ),
            (
                format!("model.layers.{}.self_attn.k_proj.weight", i),
                vec![0.01; h * kv],
                vec![kv, h],
            ),
            (
                format!("model.layers.{}.self_attn.v_proj.weight", i),
                vec![0.01; h * kv],
                vec![kv, h],
            ),
            (
                format!("model.layers.{}.self_attn.o_proj.weight", i),
                vec![0.01; h * kv],
                vec![h, kv],
            ),
            (
                format!("model.layers.{}.mlp.gate_proj.weight", i),
                vec![0.01; inter * h],
                vec![inter, h],
            ),
            (
                format!("model.layers.{}.mlp.up_proj.weight", i),
                vec![0.01; inter * h],
                vec![inter, h],
            ),
            (
                format!("model.layers.{}.mlp.down_proj.weight", i),
                vec![0.01; h * inter],
                vec![h, inter],
            ),
            (
                format!("model.layers.{}.input_layernorm.weight", i),
                vec![1.0; h],
                vec![h],
            ),
            (
                format!("model.layers.{}.post_attention_layernorm.weight", i),
                vec![1.0; h],
                vec![h],
            ),
        ];
        tensors.extend(layer_tensors);
    }

    let mut header_map = serde_json::Map::new();
    let mut data_blob = Vec::new();
    let mut offset = 0usize;

    for (name, data, shape) in &tensors {
        let bytes: Vec<u8> = data.iter().flat_map(|f| f.to_le_bytes()).collect();
        let len = bytes.len();
        header_map.insert(
            name.clone(),
            entry(shape, offset, offset + len),
        );
        data_blob.extend_from_slice(&bytes);
        offset += len;
    }

    let header = serde_json::Value::Object(header_map);
    let header_str = serde_json::to_string(&header).unwrap();
    let header_bytes = header_str.as_bytes();

    let mut file = Vec::new();
    file.extend_from_slice(&(header_bytes.len() as u64).to_le_bytes());
    file.extend_from_slice(header_bytes);
    file.extend_from_slice(&data_blob);
    file
}

#[test]
fn test_tie_word_embeddings() {
    let mut config = ModelConfig::tiny_test();
    config.tie_word_embeddings = true;
    let mut model = Model::new(config);

    // Set embedding to a known pattern
    let emb_data: Vec<f32> = (0..model.embedding.weight.num_elements())
        .map(|i| i as f32 * 0.001)
        .collect();
    model.embedding.weight = Tensor::from_slice(&bits(&emb_data), model.embedding.weight.shape());

    // Tie embeddings
    model.tie_embeddings();

    // Verify lm_head weight matches embedding weight
    assert_eq!(model.lm_head.weight.shape(), model.embedding.weight.shape());
    let lm_data = model.lm_head.weight.as_f32_slice();
    let emb_data = model.embedding.weight.as_f32_slice();
    assert_eq!(lm_data, emb_data);

    // Verify forward pass uses tied weights (logits should be based on embedding)
    let logits = model.forward(&[0, 1], &unit);
    assert_eq!(logits.shape(), &[2, 256]); // vocab_size = 256 for tiny_test
}

#[test]
fn test_greedy() {
    let logits = vec![1.0, 3.0, 2.0, 0.5];
    assert_eq!(greedy_sample(&bits(&logits)), 1);
}

#[test]
fn test_greedy_all_equal() {
    let logits = vec![1.0, 1.0, 1.0];
    assert_eq!(greedy_sample(&bits(&logits)), 0);
}

#[test]
fn recording_forward_matches_normal_forward() {
    let config = ModelConfig::tiny_test();
    let mut model = Model::new(config.clone());
    for layer in &mut model.layers {
        layer.attention.q_proj.weight = random(&[config.hidden_size, config.hidden_size]);
        layer.attention.k_proj.weight = random(&[config.hidden_size, config.hidden_size]);
        layer.attention.v_proj.weight = random(&[config.hidden_size, config.hidden_size]);
        layer.attention.o_proj.weight = random(&[config.hidden_size, config.hidden_size]);
        layer.ffn_up.weight = random(&[config.intermediate_size, config.hidden_size]);
        layer.ffn_gate.weight = random(&[config.intermediate_size, config.hidden_size]);
        layer.ffn_down.weight = random(&[config.hidden_size, config.intermediate_size]);
    }

    let tokens: Vec<u32> = (0..16).map(|i| i * 13 % config.vocab_size as u32).collect();

    model.clear_cache();
    let normal = model.forward_hidden(&tokens, 0, &unit);

    model.clear_cache();
    let mut recorder = ProjectionRecorder::new(64);
    let recorded = model.forward_record(&tokens, &mut recorder, &unit);

    assert_eq!(normal.shape(), recorded.shape());
    for i in 0..normal.num_elements() {
        assert!(
            (float(normal.get_flat_f32(i)) - float(recorded.get_flat_f32(i))).abs() < 1e-4,
            "i={}: normal {} recorded {}",
            i,
            float(normal.get_flat_f32(i)),
            float(recorded.get_flat_f32(i))
        );
    }

    // Every projection must have produced at least one sample.
    for kind in [
        ProjectionKind::Q,
        ProjectionKind::K,
        ProjectionKind::V,
        ProjectionKind::O,
        ProjectionKind::Up,
        ProjectionKind::Gate,
        ProjectionKind::Down,
    ] {
        assert!(
            recorder.samples.iter().any(|s| s.kind == kind),
            "no samples for {kind:?}"
        );
    }

    // Target rows must equal the projection's FP32 output on the input.
    for sample in &recorder.samples {
        assert_eq!(sample.input.shape()[0], sample.target.shape()[0]);
    }
}

#[test]
fn test_continuous_matches_generate_batch() {
    // Same prompts, same greedy sampling: continuous batching must
    // reproduce the lockstep batch output token-for-token.
    let config = ModelConfig::tiny_test();

    let mut batched = Model::new(config.clone());
    let prompts: Vec<Vec<u32>> = vec![vec![0, 1], vec![2, 3, 4], vec![5, 0, 1, 2]];
    let refs: Vec<&[u32]> = prompts.iter().map(|v| v.as_slice()).collect();
    let expected = batched.generate_batch(&refs, 6, &greedy_sample_of, None, &unit);

    let mut model = Model::new(config);
    let mut batch = ContinuousBatch::new(3);
    for p in &prompts {
        batch.submit(p, 6, None);
    }
    let got = model.continuous_run(&mut batch, &greedy_sample_of, &unit, 1000);

    assert_eq!(got.len(), 3);
    for (i, seq) in got.iter().enumerate() {
        assert_eq!(seq.tokens, expected[i], "sequence {} diverged", i);
    }
}

#[test]
fn test_continuous_staggered_finish_reuses_slots() {
    // capacity 1: requests must run back-to-back, each finishing frees the
    // slot for the next. Final cache seq_len proves slot reuse.
    let config = ModelConfig::tiny_test();
    let mut model = Model::new(config.clone());

    let mut batch = ContinuousBatch::new(1);
    batch.submit(&[0u32, 1], 2, None);
    batch.submit(&[2u32, 3], 3, None);
    batch.submit(&[4u32], 1, None);

    let got = model.continuous_run(&mut batch, &greedy_sample_of, &unit, 1000);

    assert_eq!(got.len(), 3);
    assert_eq!(got[0].tokens.len(), 2);
    assert_eq!(got[1].tokens.len(), 3);
    assert_eq!(got[2].tokens.len(), 1);
    assert!(batch.active_count() == 0);

    // With capacity 1 each sequence needs exactly its max_new_tokens
    // iterations, back to back (slot reuse, no idle steps).
    assert_eq!(batch.iterations(), 2 + 3 + 1);

    // The final slot was freed on completion.
    let cache = model.cache.as_ref().unwrap();
    assert_eq!(cache.seq_len(0), 0);
}

#[test]
fn test_continuous_eos_stops_sequence() {
    // Zero-init model: greedy always samples token 0, so eos = Some(0)
    // stops every sequence after its first generated token and frees the
    // slot immediately.
    let config = ModelConfig::tiny_test();
    let mut model = Model::new(config);

    let mut batch = ContinuousBatch::new(2);
    batch.submit(&[0u32, 1], 8, Some(0));
    batch.submit(&[2u32, 3], 8, Some(0));

    let got = model.continuous_run(&mut batch, &greedy_sample_of, &unit, 1000);

    assert_eq!(got.len(), 2);
    for seq in &got {
        assert_eq!(seq.tokens.len(), 1);
        assert_eq!(seq.tokens[0], 0);
    }
}

#[test]
fn test_continuous_capacity_limits_active() {
    // 7 requests through capacity 2: active slots must never exceed 2 and
    // all requests must complete.
    let config = ModelConfig::tiny_test();
    let mut model = Model::new(config);

    let mut batch = ContinuousBatch::new(2);
    for i in 0..7u32 {
        batch.submit(&[i, i + 1], 3, None);
    }

    let mut max_active = 0;
    let mut iters = 0;
    while batch.is_running() && iters < 1000 {
        model.continuous_step(&mut batch, &greedy_sample_of, &unit);
        max_active = max_active.max(batch.active_count());
        iters += 1;
    }

    assert!(max_active <= 2, "capacity exceeded: {}", max_active);
    assert_eq!(batch.pop_completed().len(), 7);
    assert_eq!(batch.pending(), 0);
}

#[test]
fn test_continuous_zero_new_tokens() {
    let config = ModelConfig::tiny_test();
    let mut model = Model::new(config);

    let mut batch = ContinuousBatch::new(1);
    batch.submit(&[0u32, 1], 0, None);
    let got = model.continuous_run(&mut batch, &greedy_sample_of, &unit, 100);
    assert_eq!(got.len(), 1);
    assert!(got[0].tokens.is_empty());
}

/// A draft that disagrees with the (zero-init) target: randomize every
/// weight so its greedy proposals are mostly wrong, forcing the rollback
/// path to run.
fn divergent_draft(config: &ModelConfig) -> Model {
    let mut draft = Model::new(config.clone());
    draft.lm_head.weight =
        random(&[config.vocab_size, config.hidden_size]);
    draft.embedding.weight =
        random(&[config.vocab_size, config.hidden_size]);
    for layer in draft.layers.iter_mut() {
        let shapes = [
            layer.attention.q_proj.weight.shape().to_vec(),
            layer.attention.k_proj.weight.shape().to_vec(),
            layer.attention.v_proj.weight.shape().to_vec(),
            layer.attention.o_proj.weight.shape().to_vec(),
            layer.ffn_up.weight.shape().to_vec(),
            layer.ffn_gate.weight.shape().to_vec(),
            layer.ffn_down.weight.shape().to_vec(),
        ];
        let tensors = shapes
            .iter()
            .map(|s| random(s))
            .collect::<Vec<_>>();
        layer.attention.q_proj.weight = same(&tensors[0]);
        layer.attention.k_proj.weight = same(&tensors[1]);
        layer.attention.v_proj.weight = same(&tensors[2]);
        layer.attention.o_proj.weight = same(&tensors[3]);
        layer.ffn_up.weight = same(&tensors[4]);
        layer.ffn_gate.weight = same(&tensors[5]);
        layer.ffn_down.weight = same(&tensors[6]);
    }
    draft
}

#[test]
fn test_speculative_matches_greedy() {
    // Zero-init target: greedy always samples token 0, but the divergent
    // draft proposes random tokens. Speculative decoding must still match
    // target-only greedy exactly (target logits are authoritative).
    let config = ModelConfig::tiny_test();

    let mut target = Model::new(config.clone());
    let expected = target.generate(&[0, 1, 2], 20, &greedy_sample_of, &unit);

    let mut target = Model::new(config.clone());
    let mut draft = divergent_draft(&config);
    let mut decoder = SpeculativeDecoder::new(&mut target, &mut draft, 4);
    let got = decoder.generate(&[0, 1, 2], 20, None, &unit);

    assert_eq!(got, expected, "speculative output diverged from greedy");

    // A disagreeing draft should force real rollbacks.
    assert!(
        rate(decoder.acceptance()) < 1.0,
        "draft should not agree with the target: {}",
        rate(decoder.acceptance())
    );
}

#[test]
fn test_speculative_all_accept_bonus_path() {
    // A draft identical to the target always agrees, so every token is
    // accepted and the bonus path runs (k+1 tokens per round).
    let config = ModelConfig::tiny_test();

    let mut target = Model::new(config.clone());
    let mut draft = Model::new(config.clone());
    let mut decoder = SpeculativeDecoder::new(&mut target, &mut draft, 3);

    let got = decoder.generate(&[0, 1, 2], 15, None, &unit);
    assert_eq!(got.len(), 15);
    assert_eq!(rate(decoder.acceptance()), 1.0);
    // Draft and target identical: bonus acceptance should be perfect too.
    assert!(decoder.target_tokens() <= got.len() as u64 + 1);
}

#[test]
fn test_speculative_eos_stops() {
    // Zero-init target always samples 0; with eos = Some(0) the very first
    // generated token terminates generation.
    let config = ModelConfig::tiny_test();
    let mut target = Model::new(config.clone());
    let mut draft = divergent_draft(&config);
    let mut decoder = SpeculativeDecoder::new(&mut target, &mut draft, 4);
    let got = decoder.generate(&[0, 1], 12, Some(0), &unit);
    assert_eq!(got.len(), 1);
    assert_eq!(got[0], 0);
}

#[test]
fn test_speculative_deterministic() {
    // Same inputs, same models: identical output.
    let config = ModelConfig::tiny_test();
    let mut t1 = Model::new(config.clone());
    let mut d1 = divergent_draft(&config);
    let mut s1 = SpeculativeDecoder::new(&mut t1, &mut d1, 2);
    let got1 = s1.generate(&[1, 2, 3], 10, None, &unit);

    let mut t2 = Model::new(config.clone());
    let mut d2 = divergent_draft(&config);
    let mut s2 = SpeculativeDecoder::new(&mut t2, &mut d2, 2);
    let got2 = s2.generate(&[1, 2, 3], 10, None, &unit);

    assert_eq!(got1, got2);
}

fn random_model(config: &ModelConfig) -> Model {
    divergent_draft(config)
}

#[test]
fn a_linear_layer_is_rows_times_weights_plus_bias() {
    let weight = Tensor::from_slice(&bits(&[1.0, 2.0, 3.0, 4.0, 5.0, 6.0]), &[3, 2]);
    let bias = Tensor::from_slice(&bits(&[0.5, 0.25, 0.125]), &[3]);
    let input = Tensor::from_slice(&bits(&[1.0, 1.0, 2.0, -1.0]), &[2, 2]);
    let out = Linear::new(weight, Some(bias)).forward(&input, &unit);
    assert_eq!(out.shape(), &[2, 3]);
    assert_eq!(floats(&out), vec![3.5, 7.25, 11.125, 0.5, 2.25, 4.125]);
    let plain = Linear::from_f32(&bits(&[2.0, 0.0]), &[1, 2]);
    assert_eq!(floats(&plain.forward(&input, &unit)), vec![2.0, 4.0]);
}

#[test]
fn an_embedding_gives_the_rows_of_its_tokens() {
    let e = Embedding::from_f32(&bits(&[1.0, 2.0, 3.0, 4.0, 5.0, 6.0]), 3, 2);
    assert_eq!(floats(&e.forward(&[2, 0, 2])), vec![5.0, 6.0, 1.0, 2.0, 5.0, 6.0]);
}

#[test]
fn a_layer_norm_takes_the_mean_away() {
    let weight = Tensor::from_slice(&bits(&[2.0, 2.0]), &[2]);
    let bias = Tensor::from_slice(&bits(&[1.0, 1.0]), &[2]);
    let norm = RmsNorm::new_layer(weight, Some(bias), Real::Single(0.0f32.to_bits()));
    let out = norm.forward(&Tensor::from_slice(&bits(&[1.0, 3.0]), &[1, 2]), &unit);
    assert_eq!(floats(&out), vec![-1.0, 3.0]);
}

#[test]
fn a_block_runs_as_its_tokens_one_by_one() {
    let config = ModelConfig::tiny_test();
    let mut model = random_model(&config);
    let block = model.forward(&[7, 3, 9], &unit);
    model.clear_cache();
    for (i, token) in [7u32, 3, 9].iter().enumerate() {
        let alone = model.forward(&[*token], &unit);
        for j in 0..config.vocab_size {
            let a = float(block.get_flat_f32(i * config.vocab_size + j));
            let b = float(alone.get_flat_f32(j));
            assert_eq!(a.to_bits(), b.to_bits(), "row {} score {}", i, j);
        }
    }
}

#[test]
fn a_truncated_cache_runs_as_if_the_rest_had_never_been() {
    let config = ModelConfig::tiny_test();
    let mut model = random_model(&config);
    model.forward(&[1, 2], &unit);
    model.forward(&[8, 9], &unit);
    model.truncate_cache(0, 2);
    let again = model.forward(&[5], &unit);
    model.clear_cache();
    model.forward(&[1, 2], &unit);
    let fresh = model.forward(&[5], &unit);
    assert_eq!(again.as_f32_slice(), fresh.as_f32_slice());
}

#[test]
fn a_batch_gives_what_each_prompt_gives_alone() {
    let config = ModelConfig::tiny_test();
    let mut model = random_model(&config);
    let prompts: Vec<Vec<u32>> = vec![vec![4, 2], vec![9], vec![1, 1, 8]];
    let refs: Vec<&[u32]> = prompts.iter().map(|p| p.as_slice()).collect();
    let together = model.generate_batch(&refs, 4, &greedy_sample_of, None, &unit);
    for (i, p) in prompts.iter().enumerate() {
        model.clear_cache();
        assert_eq!(together[i], model.generate(p, 4, &greedy_sample_of, &unit), "prompt {}", i);
    }
}

#[test]
fn requests_come_out_as_if_each_had_run_alone() {
    let config = ModelConfig::tiny_test();
    let mut model = random_model(&config);
    let mut batch = ContinuousBatch::new(2);
    let wanted: Vec<(Vec<u32>, usize)> = vec![(vec![4, 2], 3), (vec![9], 5), (vec![1, 1, 8], 2)];
    let ids: Vec<u64> = wanted.iter().map(|(p, n)| batch.submit(p, *n, None)).collect();
    assert_eq!(batch.pending(), 3);
    let done = model.continuous_run(&mut batch, &greedy_sample_of, &unit, 100);
    for (i, (p, n)) in wanted.iter().enumerate() {
        let got = done.iter().find(|s| s.id == ids[i]).unwrap();
        model.clear_cache();
        assert_eq!(got.tokens, model.generate(p, *n, &greedy_sample_of, &unit), "request {}", i);
    }
}

#[test]
fn requests_of_one_length_finish_in_order() {
    let config = ModelConfig::tiny_test();
    let prompts: Vec<Vec<u32>> = vec![vec![4, 2], vec![9], vec![1, 1, 8], vec![], vec![7, 3]];
    let refs: Vec<&[u32]> = prompts.iter().map(|p| p.as_slice()).collect();
    for limit in [0usize, 1, 3] {
        let mut model = random_model(&config);
        let expected = model.generate_batch(&refs, limit, &greedy_sample_of, None, &unit);
        for capacity in [1usize, 2, 3, 5, 8] {
            let mut batch = ContinuousBatch::new(capacity);
            for p in &prompts {
                batch.submit(p, limit, None);
            }
            let done = model.continuous_run(&mut batch, &greedy_sample_of, &unit, 100);
            assert_eq!(done.len(), prompts.len());
            for (i, got) in done.iter().enumerate() {
                assert_eq!(got.id, i as u64);
                assert_eq!(got.tokens, expected[i], "limit {} capacity {} request {}", limit, capacity, i);
            }
            assert!(!batch.is_running());
        }
    }
}

#[test]
fn each_request_is_answered_once_and_when_it_finishes() {
    let config = ModelConfig::tiny_test();
    let mut model = random_model(&config);
    let mut batch = ContinuousBatch::new(2);
    // Two slots: the second request finishes first, and the third and fourth take its place.
    for (p, n) in [(vec![4u32, 2], 5usize), (vec![9], 2), (vec![1, 1], 2), (vec![6], 0), (vec![2], 1)] {
        batch.submit(&p, n, None);
    }
    let done = model.continuous_run(&mut batch, &greedy_sample_of, &unit, 100);
    let ids: Vec<u64> = done.iter().map(|c| c.id).collect();
    assert_eq!(ids, vec![1, 2, 3, 0, 4]);
    let lens: Vec<usize> = done.iter().map(|c| c.tokens.len()).collect();
    assert_eq!(lens, vec![2, 2, 0, 5, 1]);
    // A batch that is stopped early keeps what is left.
    let mut batch = ContinuousBatch::new(1);
    batch.submit(&[1], 2, None);
    batch.submit(&[2], 2, None);
    let first = model.continuous_run(&mut batch, &greedy_sample_of, &unit, 3);
    assert_eq!(first.len(), 1);
    assert_eq!(first[0].id, 0);
    assert_eq!((batch.pending(), batch.active_count()), (0, 1));
}

#[test]
fn lockstep_leaves_what_it_has_run() {
    let config = ModelConfig::tiny_test();
    let mut model = random_model(&config);
    let prompts: Vec<&[u32]> = vec![&[4, 2], &[9], &[]];
    let plain = model.generate_batch(&prompts, 4, &greedy_sample_of, None, &unit);
    let cache = model.cache.as_ref().unwrap();
    assert_eq!(cache.batch, 3);
    assert_eq!((cache.seq_len(0), cache.seq_len(1), cache.seq_len(2)), (6, 5, 5));
    // The batch can be run again, and where nothing is asked for the cache stays.
    assert_eq!(model.generate_batch(&prompts, 4, &greedy_sample_of, None, &unit), plain);
    assert!(model.generate_batch(&prompts, 0, &greedy_sample_of, None, &unit).iter().all(|o| o.is_empty()));
    assert_eq!(model.cache.as_ref().unwrap().seq_len(0), 6);
    // All end with their first token: nothing is run after the prompts.
    let mut zero = Model::new(config);
    let out = zero.generate_batch(&prompts, 4, &greedy_sample_of, Some(0), &unit);
    assert!(out.iter().all(|o| o == &vec![0]));
    let cache = zero.cache.as_ref().unwrap();
    assert_eq!((cache.seq_len(0), cache.seq_len(1), cache.seq_len(2)), (2, 1, 1));
}

#[test]
fn a_decoder_runs_again_and_counts_on() {
    let config = ModelConfig::tiny_test();
    let mut target = random_model(&config);
    let mut draft = random_model(&config);
    let mut decoder = SpeculativeDecoder::new(&mut target, &mut draft, 3);
    let once = decoder.generate(&[3, 1], 9, None, &unit);
    let (accepted, proposed) = decoder.acceptance();
    assert_eq!(decoder.generate(&[3, 1], 9, None, &unit), once);
    assert_eq!(decoder.acceptance(), (2 * accepted, 2 * proposed));
    assert!(decoder.target.cache.as_ref().unwrap().seq_len(0) >= 11);
    assert_eq!(
        decoder.target.cache.as_ref().unwrap().seq_len(0),
        decoder.draft.cache.as_ref().unwrap().seq_len(0)
    );
}

#[test]
fn a_draft_changes_nothing_but_the_pace() {
    let config = ModelConfig::tiny_test();
    let mut target = random_model(&config);
    let expected = target.generate(&[3, 1], 12, &greedy_sample_of, &unit);
    target.clear_cache();
    let mut draft = random_model(&config);
    let mut decoder = SpeculativeDecoder::new(&mut target, &mut draft, 3);
    assert_eq!(decoder.generate(&[3, 1], 12, None, &unit), expected);
    let (accepted, proposed) = decoder.acceptance();
    assert!(accepted <= proposed);
    assert_eq!(proposed, decoder.target_tokens());
}

#[test]
fn a_recorder_keeps_so_many_rows_of_each_projection() {
    let config = ModelConfig::tiny_test();
    let mut model = random_model(&config);
    model.forward(&[1], &unit);
    model.clear_cache();
    let mut recorder = ProjectionRecorder::new(3);
    model.forward_record(&[1, 2], &mut recorder, &unit);
    model.forward_record(&[3, 4], &mut recorder, &unit);
    model.forward_record(&[5], &mut recorder, &unit);
    for layer in 0..config.num_layers {
        let rows: Vec<usize> = recorder
            .samples
            .iter()
            .filter(|s| s.layer == layer && s.kind == ProjectionKind::Down)
            .map(|s| s.input.shape()[0])
            .collect();
        assert_eq!(rows, vec![2, 1], "layer {}", layer);
    }
}

#[test]
fn ties_and_nan_in_greedy_choices() {
    assert_eq!(greedy_sample(&bits(&[-1.0, -0.5, -2.0])), 1);
    assert_eq!(greedy_sample(&bits(&[0.0, f32::INFINITY, 3.0])), 1);
}

#[test]
fn a_draw_falls_into_the_share_of_a_token() {
    let logits = bits(&[0.0, 0.0, 0.0, 0.0]);
    let sampler = Sampler::temperature(1.0f32.to_bits());
    assert_eq!(sampler.sample(&logits, 0.1f32.to_bits(), &unit), 0);
    assert_eq!(sampler.sample(&logits, 0.3f32.to_bits(), &unit), 1);
    assert_eq!(sampler.sample(&logits, 0.99f32.to_bits(), &unit), 3);
    let top = Sampler::top_k(1, 1.0f32.to_bits());
    let skewed = bits(&[1.0, 5.0, 2.0]);
    assert_eq!(top.sample(&skewed, 0.999f32.to_bits(), &unit), 1);
    let nucleus = Sampler::new(SamplingStrategy::TopP {
        p: 0.5f32.to_bits(),
        temperature: 1.0f32.to_bits(),
    });
    assert_eq!(nucleus.sample(&skewed, 0.999f32.to_bits(), &unit), 1);
}

#[test]
fn stretched_positions_turn_less() {
    let x = Tensor::from_slice(&bits(&[1.0, 0.0]), &[1, 1, 2]);
    let two = Real::Single(2.0f32.to_bits());
    let cache = RoPECache::with_scaling(8, 2, THETA, two);
    let stretched = apply_rotary_emb_with_cache(&x, 4, 2, THETA, Some(&cache), &unit);
    let plain = apply_rotary_emb(&x, 2, 2, THETA, &unit);
    assert_eq!(floats(&stretched), floats(&plain));
    assert!((floats(&plain)[0] - 2.0f32.cos()).abs() < 1e-6);
    let other = apply_rotary_emb_with_cache(&x, 2, 2, two, Some(&RoPECache::new(8, 2, THETA)), &unit);
    assert_eq!(floats(&other), floats(&apply_rotary_emb(&x, 2, 2, two, &unit)));
    let mut batch = Tensor::from_slice(&bits(&[1.0, 0.0, 1.0, 0.0]), &[1, 2, 2]);
    apply_rotary_emb_batch(&mut batch, &[2, 0], 2, THETA, None, &unit);
    assert_eq!(&floats(&batch)[..2], &floats(&plain)[..]);
    assert_eq!(&floats(&batch)[2..], &[1.0, 0.0]);
}

#[test]
fn there_is_no_gpu_here() {
    assert!(GpuContext::new(0).is_err());
}

#[test]
fn slots_of_a_cache_are_apart() {
    let mut cache = KvCache::new(1, 2, 4, 1, 2);
    let k = Tensor::from_slice(&bits(&[1.0, 2.0]), &[1, 1, 2]);
    let v = Tensor::from_slice(&bits(&[3.0, 4.0]), &[1, 1, 2]);
    cache.update(0, 1, &k, &v, 2);
    cache.reserve(1, 2, 1);
    assert_eq!(cache.kv_lens(), &[0, 3]);
    let (keys, _) = cache.get_kv(0);
    assert_eq!(keys.shape(), &[2, 1, 4, 2]);
    assert_eq!(float(keys.get_f32(&[1, 0, 2, 1])), 2.0);
    assert_eq!(float(keys.get_f32(&[0, 0, 2, 1])), 0.0);
    let (_, values, filled) = cache.get_kv_used(0, 1);
    assert_eq!(filled, 3);
    assert_eq!(float(values.get_f32(&[1, 0, 2, 0])), 3.0);
    cache.clear_slot(1);
    assert_eq!(cache.seq_len(1), 0);
}

fn windowed(window: usize) -> ModelConfig {
    let mut config = ModelConfig::tiny_test();
    config.sliding_window = Some(window);
    config
}

#[test]
fn a_window_is_counted_from_each_row() {
    let config = windowed(2);
    let mut model = random_model(&config);
    let tokens = [3u32, 1, 4, 1, 5];
    let block = model.forward(&tokens, &unit);
    model.clear_cache();
    let mut last = Vec::new();
    for t in tokens {
        last = floats(&model.forward(&[t], &unit));
    }
    let v = config.vocab_size;
    assert_eq!(&floats(&block)[4 * v..], &last[..]);
    // Without a cache the rows come out the same.
    model.cache = None;
    assert_eq!(floats(&model.forward(&tokens, &unit)), floats(&block));
    // The second row sees both positions, so without a window it is the same; the last is not.
    for layer in model.layers.iter_mut() {
        layer.attention.config.sliding_window = None;
    }
    let open = floats(&model.forward(&tokens, &unit));
    assert_eq!(&open[..2 * v], &floats(&block)[..2 * v]);
    assert_ne!(&open[4 * v..], &floats(&block)[4 * v..]);
}

#[test]
fn a_draft_changes_nothing_under_a_window() {
    let config = windowed(2);
    let mut target = random_model(&config);
    let expected = target.generate(&[3, 1, 4, 1], 14, &greedy_sample_of, &unit);
    let mut draft = random_model(&config);
    let mut decoder = SpeculativeDecoder::new(&mut target, &mut draft, 3);
    assert_eq!(decoder.generate(&[3, 1, 4, 1], 14, None, &unit), expected);
}

#[test]
fn accepted_proposals_are_counted() {
    let config = ModelConfig::tiny_test();
    let mut target = Model::new(config.clone());
    let mut draft = Model::new(config.clone());
    let mut decoder = SpeculativeDecoder::new(&mut target, &mut draft, 3);
    // Rounds of three and one more: twice four tokens, then two of the last three.
    assert_eq!(decoder.generate(&[1], 10, None, &unit).len(), 10);
    assert_eq!(decoder.acceptance(), (11, 11));
    assert_eq!(decoder.target_tokens(), 11);
}

#[test]
fn a_limit_of_none_generates_nothing() {
    let config = ModelConfig::tiny_test();
    let mut model = random_model(&config);
    assert!(model.generate(&[1, 2], 0, &greedy_sample_of, &unit).is_empty());
    assert_eq!(model.cache.as_ref().unwrap().seq_len(0), 0);
    let mut draft = random_model(&config);
    let mut decoder = SpeculativeDecoder::new(&mut model, &mut draft, 2);
    assert!(decoder.generate(&[1, 2], 0, None, &unit).is_empty());
    assert_eq!(decoder.acceptance(), (0, 0));
}

#[test]
fn batched_tokens_without_a_cache_see_only_themselves() {
    let config = ModelConfig::tiny_test();
    let mut model = random_model(&config);
    model.cache = None;
    let both = floats(&model.forward_batch_decode(&[7, 9], &[0, 4], &unit));
    let alone = floats(&model.forward(&[7], &unit));
    let v = config.vocab_size;
    assert_eq!(&both[..v], &alone[..]);
    let second = floats(&model.forward_batch_decode(&[9], &[4], &unit));
    assert_eq!(&both[v..], &second[..]);
    assert_eq!(floats(&model.decode_batch(&[7], &unit)), alone);
}

#[test]
fn without_a_cache_each_token_is_followed_alone() {
    let config = ModelConfig::tiny_test();
    let mut model = random_model(&config);
    model.cache = None;
    assert!(model.test_generate(&[3, 1, 4], 4));
    let got = model.generate(&[3, 1, 4], 4, &greedy_sample_of, &unit);
    assert_eq!(got.len(), 4);
    assert!(model.cache.is_none());
    let mut expected = vec![model.first_token(&[3, 1, 4], &greedy_sample_of, &unit)];
    for j in 0..3 {
        expected.push(model.first_token(&[expected[j]], &greedy_sample_of, &unit));
    }
    assert_eq!(got, expected);
}

#[test]
fn recording_needs_no_cache() {
    let config = ModelConfig::tiny_test();
    let mut model = random_model(&config);
    let with = floats(&model.forward_hidden(&[1, 2, 3], 0, &unit));
    model.cache = None;
    let mut recorder = ProjectionRecorder::new(0);
    assert_eq!(floats(&model.forward_record(&[1, 2, 3], &mut recorder, &unit)), with);
    assert_eq!(recorder.samples.len(), 7 * config.num_layers);
    let up = recorder.samples.iter().find(|s| s.layer == 1 && s.kind == ProjectionKind::Up).unwrap();
    let gate = recorder.samples.iter().find(|s| s.layer == 1 && s.kind == ProjectionKind::Gate).unwrap();
    assert_eq!(floats(&up.input), floats(&gate.input));
    assert_eq!(floats(&model.layers[1].ffn_up.forward(&up.input, &unit)), floats(&up.target));
}

#[test]
fn an_empty_slot_has_no_positions() {
    let cache = KvCache::new(1, 2, 4, 1, 2);
    let (keys, values, filled) = cache.get_kv_used(0, 1);
    assert_eq!(filled, 0);
    assert_eq!(cache.seq_len(1), filled);
    assert_eq!(keys.shape(), values.shape());
}

#[test]
fn a_batched_update_is_one_update_for_each_slot() {
    let k = random(&[2, 3, 4]);
    let v = random(&[2, 3, 4]);
    let positions = [4usize, 0, 2];
    let mut batched = KvCache::new(1, 3, 5, 2, 4);
    batched.update_batch(0, &k, &v, &positions);
    let mut single = KvCache::new(1, 3, 5, 2, 4);
    for (b, position) in positions.iter().enumerate() {
        let column = |t: &Tensor| {
            let f = floats(t);
            let rows: Vec<f32> = (0..2).flat_map(|g| f[(g * 3 + b) * 4..(g * 3 + b + 1) * 4].to_vec()).collect();
            Tensor::from_slice(&bits(&rows), &[2, 1, 4])
        };
        single.update(0, b, &column(&k), &column(&v), *position);
    }
    assert_eq!(floats(&batched.k[0]), floats(&single.k[0]));
    assert_eq!(floats(&batched.v[0]), floats(&single.v[0]));
    assert_eq!(batched.seq_lens, single.seq_lens);
}

#[test]
fn a_row_is_mapped_among_others_as_by_itself() {
    let map = Linear::new(random(&[3, 4]), Some(random(&[3])));
    let input = random(&[2, 4]);
    let whole = floats(&map.forward(&input, &unit));
    for i in 0..2 {
        let row = Tensor::from_slice(&bits(&floats(&input)[4 * i..4 * i + 4]), &[1, 4]);
        assert_eq!(&whole[3 * i..3 * i + 3], &floats(&map.forward(&row, &unit))[..]);
    }
}
