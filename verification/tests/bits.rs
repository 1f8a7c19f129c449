//! Layers with weights of one bit per element.
use bitllm::runtime::bits::{QuantConfig, QuantizedTensor};
use bitllm::runtime::config::{Activation, ModelConfig, Real};
use bitllm::runtime::layers::{Linear, RmsNorm};
use bitllm::runtime::model::Model;
use bitllm::runtime::sampler::greedy_sample;
use bitllm::runtime::transformer::{pair_rows, TransformerLayer};
use bitllm::runtime::unit::Op;
use bitllm::tensor::tensor::Tensor;
use bitllm::tensor::types::DType;

fn float(b: u32) -> f32 {
    f32::from_bits(b)
}

fn bits(v: &[f32]) -> Vec<u32> {
    v.iter().map(|x| x.to_bits()).collect()
}

fn single(r: Real) -> f32 {
    match r {
        Real::Single(b) => f32::from_bits(b),
        Real::Double(b) => f64::from_bits(b) as f32,
    }
}

fn dot(x: &[u32], y: &[u32]) -> f32 {
    x.iter().zip(y.iter()).map(|(a, b)| float(*a) * float(*b)).sum()
}

/// A plain float unit.
fn unit(op: Op, x: &[u32], y: &[u32], z: &[u32]) -> Vec<u32> {
    let n = x.len();
    match op {
        Op::Dot => vec![dot(x, y).to_bits()],
        Op::BitDot { a8 } => vec![bit_dot(a8, x, y, z).to_bits()],
        Op::Minus => (0..n).map(|i| (float(x[i]) - float(y[i])).to_bits()).collect(),
        Op::Plus => (0..n).map(|i| (float(x[i]) + float(y[i])).to_bits()).collect(),
        Op::Norm { layer, centered, eps } => {
            let mean = if layer { x.iter().map(|b| float(*b)).sum::<f32>() / n as f32 } else { 0.0 };
            let power = x.iter().map(|b| (float(*b) - mean) * (float(*b) - mean)).sum::<f32>() / n as f32;
            let scale = 1.0 / (power + single(eps)).sqrt();
            (0..n)
                .map(|i| {
                    let gain = if centered { 1.0 + float(y[i]) } else { float(y[i]) };
                    let shift = if layer && !z.is_empty() { float(z[i]) } else { 0.0 };
                    ((float(x[i]) - mean) * scale * gain + shift).to_bits()
                })
                .collect()
        }
        Op::HeadNorm { centered, eps } => {
            let scale = 1.0 / (dot(x, x) / n as f32 + single(eps)).sqrt();
            (0..n)
                .map(|i| {
                    let gain = if centered { 1.0 + float(y[i]) } else { float(y[i]) };
                    (float(x[i]) * scale * gain).to_bits()
                })
                .collect()
        }
        Op::Rotate { position, theta, factor } => {
            let half = n / 2;
            let mut r = x.to_vec();
            for i in 0..half {
                let frequency = 1.0 / single(theta).powf((2 * i) as f32 / n as f32);
                let angle = position as f32 / single(factor) * frequency;
                let (lo, hi) = (float(x[i]), float(x[i + half]));
                r[i] = (lo * angle.cos() - hi * angle.sin()).to_bits();
                r[i + half] = (lo * angle.sin() + hi * angle.cos()).to_bits();
            }
            r
        }
        Op::Attend { softcap } => attention(x, y, z, 1.0 / (n as f32).sqrt(), softcap),
        Op::Gate(kind) => (0..n)
            .map(|i| {
                let a = float(x[i]);
                let r = match kind {
                    Activation::SiluGated => a / (1.0 + (-a).exp()) * float(y[i]),
                    Activation::GeluGated => gelu(a) * float(y[i]),
                    Activation::Gelu => gelu(a),
                };
                r.to_bits()
            })
            .collect(),
        Op::Softcap { cap } => x
            .iter()
            .map(|b| (single(cap) * (float(*b) / single(cap)).tanh()).to_bits())
            .collect(),
        Op::Softmax { temperature } => {
            let top = x.iter().map(|b| float(*b)).fold(f32::NEG_INFINITY, f32::max);
            let e: Vec<f32> = x.iter().map(|b| ((float(*b) - top) / float(temperature)).exp()).collect();
            let sum: f32 = e.iter().sum();
            e.iter().map(|v| (v / sum).to_bits()).collect()
        }
        Op::Share => {
            let sum: f32 = x.iter().map(|b| float(*b)).sum();
            x.iter().map(|b| (float(*b) / sum).to_bits()).collect()
        }
    }
}

/// The inner product with signs, group by group; with `a8`, of the row in steps of a 127th of its
/// greatest element.
fn bit_dot(a8: bool, x: &[u32], signs: &[u32], scales: &[u32]) -> f32 {
    let n = x.len();
    let top = x.iter().map(|b| float(*b).abs()).fold(0.0, f32::max);
    let step = if a8 && top > 0.0 { top / 127.0 } else { 1.0 };
    let group = (n + scales.len() - 1) / scales.len();
    let mut sum = 0.0f64;
    for t in 0..n {
        let v = if a8 { (float(x[t]) / step).round() } else { float(x[t]) };
        sum += v as f64 * float(signs[t]) as f64 * float(scales[t / group]) as f64;
    }
    (sum * step as f64) as f32
}

fn gelu(a: f32) -> f32 {
    0.5 * a * (1.0 + (0.797_884_6 * (a + 0.044715 * a * a * a)).tanh())
}

fn attention(q: &[u32], keys: &[u32], values: &[u32], scale: f32, softcap: Option<Real>) -> Vec<u32> {
    let n = q.len();
    let scores: Vec<f32> = keys
        .chunks(n)
        .map(|k| {
            let s = dot(q, k) * scale;
            match softcap {
                Some(cap) if single(cap) > 0.0 => single(cap) * (s / single(cap)).tanh(),
                _ => s,
            }
        })
        .collect();
    let top = scores.iter().cloned().fold(f32::NEG_INFINITY, f32::max);
    let e: Vec<f32> = scores.iter().map(|s| (s - top).exp()).collect();
    let sum: f32 = e.iter().sum();
    (0..n)
        .map(|j| {
            let mut r = 0.0f32;
            for t in 0..e.len() {
                r += e[t] / sum * float(values[t * n + j]);
            }
            r.to_bits()
        })
        .collect()
}

/// Signs, and the greatest element of each group of columns for a scale.
fn pack(weight: &Tensor, config: QuantConfig) -> QuantizedTensor {
    let columns = *weight.shape().last().unwrap();
    let group = if config.group_size > 0 { config.group_size } else { columns };
    let values = weight.as_f32_slice();
    let mut scales = vec![0.0f32; (columns + group - 1) / group];
    for (i, b) in values.iter().enumerate() {
        let g = i % columns / group;
        scales[g] = scales[g].max(float(*b).abs());
    }
    QuantizedTensor { signs: weight.to_bit1(), scales: bits(&scales) }
}

fn floats(t: &Tensor) -> Vec<f32> {
    t.as_f32_slice().iter().map(|b| float(*b)).collect()
}

fn greedy(logits: &[u32]) -> u32 {
    greedy_sample(logits)
}

/// Reference dequantized ternary matmul for a single input row.
fn ref_bitlinear(x: &[f32], wq: &Linear) -> Vec<f32> {
    let n = wq.weight.shape()[0];
    let w_scale = float(wq.bits.as_ref().unwrap().scales[0]);
    let mut out = vec![0.0f32; n];
    for (j, o) in out.iter_mut().enumerate() {
        let mut sum = 0.0f64;
        for (t, &xt) in x.iter().enumerate() {
            let w = if float(wq.weight.get_f32(&[j, t])) > 0.0 {
                w_scale as f64
            } else {
                -w_scale as f64
            };
            sum += xt as f64 * w;
        }
        *o = sum as f32;
    }
    out
}

#[test]
fn forward_scales_weights_exactly_once() {
    let w = Tensor::from_slice(&bits(&[2.0, -2.0, 1.0, -1.0, 3.0, -3.0]), &[2, 3]);
    let lin = Linear::quantize(&w, &QuantConfig::ternary().without_a8(), &pack);
    let x = Tensor::from_slice(&bits(&[1.0, -1.0, 0.5]), &[1, 3]);
    let out = lin.forward(&x, &unit);

    let expected = ref_bitlinear(&floats(&x), &lin);
    for (j, (&got, &exp)) in floats(&out).iter().zip(expected.iter()).enumerate() {
        assert!(
            (got - exp).abs() < 1e-3,
            "j={}: got {} expected {}",
            j,
            got,
            exp
        );
    }
}

#[test]
fn forward_a8_matches_manual_int8() {
    let w = Tensor::from_slice(&bits(&[2.0, -2.0, 1.0, -1.0, 3.0, -3.0]), &[2, 3]);
    let lin = Linear::quantize(&w, &QuantConfig::ternary(), &pack);
    let x = Tensor::from_slice(&bits(&[1.0, -1.0, 0.5]), &[1, 3]);
    let out = lin.forward(&x, &unit);

    // Manual int8: act_scale = 1.0/127, xq = [127, -127, 64] (rounded).
    // dot vs signs [-1,1,-1]? w row0 signs: [2->+, -2->-, 1->+] -> [+1,-1,+1]
    // dot = 127*+1 + (-127)*(-1) + 64*1 = 318; *w_scale(3) * act_scale(1/127).
    // = 318 * 3 / 127 = 7.5118...
    let got = floats(&out)[0];
    let expected = 318.0 * 3.0 / 127.0;
    assert!(
        (got - expected).abs() < 1e-3,
        "a8 j=0: got {} expected {}",
        got,
        expected
    );
}

#[test]
fn forward_grouped_matches_reference() {
    // [2, 16] weight with two magnitude bands: cols 0..8 are ~10x larger
    // than cols 8..16. Grouped quantize with gs=8 should give two scales.
    let mut data = Vec::with_capacity(32);
    for _row in 0..2 {
        for col in 0..8 {
            data.push((col as f32 - 4.0) * 1.0);
        }
        for col in 0..8 {
            data.push((col as f32 - 4.0) * 0.1);
        }
    }
    let w = Tensor::from_slice(&bits(&data), &[2, 16]);
    let config = QuantConfig::ternary_grouped(8);
    let lin = Linear::quantize(&w, &config, &pack);
    assert_eq!(lin.bits.as_ref().unwrap().scales.len(), 2);

    let x = Tensor::from_slice(&bits(&[1.0f32; 16]), &[1, 16]);

    // Manual grouped reference.
        let gs = 8;
    let mut expected = [0.0f32; 2];
    for (j, exp) in expected.iter_mut().enumerate() {
        let mut sum = 0.0f64;
        for t in 0..16 {
            let g = t / gs;
            let scale = float(lin.bits.as_ref().unwrap().scales[g]);
            let w = if float(lin.weight.get_f32(&[j, t])) > 0.0 { scale } else { -scale };
            sum += 1.0f64 * w as f64;
        }
        *exp = sum as f32;
    }

    // Both the exact f32 path and the W1A8 path must reproduce it. With
    // all-ones input the int8 quantization is lossless (127 * 1/127 = 1),
    // so the two paths agree exactly on this input.
    for a8 in [false, true] {
        let lin = Linear::quantize(&w, &config.with_a8(a8), &pack);
        let out = lin.forward(&x, &unit);
        for (j, (&got, &exp)) in floats(&out).iter().zip(expected.iter()).enumerate() {
            let diff = (got - exp).abs();
            assert!(
                diff < 1e-3,
                "a8={}: j={}: got {} expected {}",
                a8,
                j,
                got,
                exp
            );
        }
    }
}

#[test]
fn default_path_is_a8() {
    // W1A8 is the default: a plain ternary config selects the int8 kernel.
    let w = Tensor::from_slice(&bits(&[2.0, -2.0, 1.0, -1.0, 3.0, -3.0]), &[2, 3]);
    let lin = Linear::quantize(&w, &QuantConfig::ternary(), &pack);
    assert!(lin.bits.unwrap().a8, "W1A8 should be the default quantized path");
    let lin2 = Linear::quantize(&w, &QuantConfig::ternary().without_a8(), &pack);
    assert!(!lin2.bits.unwrap().a8);
}

/// Manual `x - RMSNorm(x)` with unit (ones) weights, for verifying the
/// SubLN math against an independent implementation.
fn manual_sub_ln(input: &Tensor, eps: f32) -> Tensor {
    let hidden = input.shape().last().copied().unwrap_or(input.num_elements());
    let slice = floats(input);
    let mean_sq: f64 = slice.iter().map(|v| (v * v) as f64).sum::<f64>() / hidden as f64;
    let rms = (mean_sq + eps as f64).sqrt();
    let out: Vec<f32> = slice.iter().map(|v| *v - (*v as f64 / rms) as f32).collect();
    Tensor::from_slice(&bits(&out), input.shape())
}

#[test]
fn test_sub_ln_math() {
    // The layer computes block input = x - RMSNorm(x).
    let hidden = 8;
    let data: Vec<f32> = (0..hidden).map(|i| (i as f32 - 3.0) * 0.5).collect();
    let input = Tensor::from_slice(&bits(&data), &[1, hidden]);
    let sub_ln = RmsNorm::new(Tensor::ones(&[hidden], DType::F32), Real::Single(1e-5f32.to_bits()));
    let normed = sub_ln.forward(&input, &unit);
    let got = pair_rows(Op::Minus, &input, &normed, &unit);
    let expected = manual_sub_ln(&input, 1e-5);

    let g = floats(&got);
    let e = floats(&expected);
    for i in 0..hidden {
        assert!(
            (g[i] - e[i]).abs() < 1e-5,
            "i={}: got {} expected {}",
            i,
            g[i],
            e[i]
        );
    }
}

#[test]
fn test_sub_ln_layer_forward_and_generate() {
    // Quantized model with the mixed-precision residual enabled must
    // generate through both the single-sequence and batched paths.
    let config = ModelConfig {
        sub_ln: true,
        ..ModelConfig::tiny_test()
    };
    let mut model = Model::new(config.clone());
    model.quantize_to_bit1(&pack);

    let layers = model.bit_layers.as_ref().unwrap();
    assert_eq!(layers.len(), config.num_layers);
    assert!(
        layers.iter().all(|l| l.sub_ln.is_some()),
        "every quantized layer should carry a SubLN norm when config.sub_ln"
    );

    let gen = model.generate(&[0, 1, 2], 5, &greedy, &unit);
    assert_eq!(gen.len(), 5);

    model.clear_cache();
    let p = [vec![0u32, 1], vec![2u32, 3]];
    let refs: Vec<&[u32]> = p.iter().map(|v| v.as_slice()).collect();
    let out = model.generate_batch(&refs, 4, &greedy, None, &unit);
    assert_eq!(out.len(), 2);
    assert_eq!(out[0].len(), 4);
    assert_eq!(out[1].len(), 4);
}

#[test]
fn a_packed_map_keeps_its_bias() {
    let w = Tensor::from_slice(&bits(&[2.0, -2.0]), &[1, 2]);
    let b = Tensor::from_slice(&bits(&[0.5]), &[1]);
    let linear = Linear::new(w, Some(b));
    let x = Tensor::from_slice(&bits(&[1.0, 3.0]), &[1, 2]);
    let config = QuantConfig::ternary().without_a8();
    let packed = Linear::from_linear_with_config(&linear, &config, &pack);
    assert_eq!(floats(&packed.forward(&x, &unit)), vec![-3.5]);
    assert_eq!(floats(&linear.forward(&x, &unit)), vec![-3.5]);
    assert!(Linear::from_linear(&linear, &pack).bits.unwrap().a8);
    let again = Linear::from_quantized(pack(&linear.weight, config), None);
    assert_eq!(again.weight.dtype(), DType::BIT1);
    assert!(again.bias.is_none());
}

#[test]
fn a_packed_layer_keeps_its_norms() {
    let config = ModelConfig { sub_ln: true, ..ModelConfig::tiny_test() };
    let layer = TransformerLayer::new_dummy(&config);
    let packed = TransformerLayer::from_fp32_layer(&layer, &pack);
    assert_eq!(packed.attn_norm.weight.as_f32_slice(), layer.attn_norm.weight.as_f32_slice());
    assert_eq!(packed.attention.q_proj.weight.shape(), layer.attention.q_proj.weight.shape());
    let away = packed.sub_ln.unwrap();
    assert_eq!(floats(&away.weight), vec![1.0; config.hidden_size]);
    assert_eq!(away.eps, config.norm_eps);
}

#[test]
fn models_are_packed_in_several_ways() {
    let scales = |m: &Model| m.bit_layers.as_ref().unwrap()[0].ffn_up.bits.as_ref().unwrap().scales.len();
    let mut model = Model::new(ModelConfig::tiny_test());
    assert!(!model.is_bit1());
    model.quantize_to_bit1_a8(&pack);
    assert!(model.is_bit1());
    assert_eq!(scales(&model), 1);
    let mut model = Model::new(ModelConfig::tiny_test());
    model.quantize_to_bit1_grouped(16, &pack);
    assert_eq!(scales(&model), 4);
    let mut model = Model::new(ModelConfig::tiny_test());
    model.quantize_to_bit1_grouped_a8(32, &pack);
    assert_eq!(scales(&model), 2);
    let mut model = Model::new(ModelConfig::tiny_test());
    model.quantize_to_bit1_outliers(0.01f64.to_bits(), &pack);
    assert!(model.is_bit1());
    let mut model = Model::new(ModelConfig::tiny_test());
    model.quantize_to_bit1_outliers_a8(0.01f64.to_bits(), &pack);
    assert!(model.layers.is_empty());
}
