//! GGUF files: headers, tensors, the names of weights, and filling a model.
use bitllm::runtime::config::{Architecture, ModelConfig};
use bitllm::runtime::gguf::{GgmlType, GgufError, GgufHeader, MetadataValue, GGUF_MAGIC};
use bitllm::runtime::gguf_loader::{
    align_offset, load_gguf_weights, to_torch_layout, GgufLoader, GgufWeightMapper,
};
use bitllm::runtime::model::Model;
use bitllm::runtime::weights::WeightTarget;
use bitllm::tensor::tensor::Tensor;
use bitllm::tensor::types::{DType, Device};

fn float(b: u32) -> f32 {
    f32::from_bits(b)
}

fn floats(t: &Tensor) -> Vec<f32> {
    t.as_f32_slice().iter().map(|b| float(*b)).collect()
}

fn times(a: u32, b: u32) -> u32 {
    (float(a) * float(b)).to_bits()
}

fn write_u8(buf: &mut Vec<u8>, v: u8) {
    buf.push(v);
}

fn write_u32(buf: &mut Vec<u8>, v: u32) {
    buf.extend_from_slice(&v.to_le_bytes());
}

fn write_u64(buf: &mut Vec<u8>, v: u64) {
    buf.extend_from_slice(&v.to_le_bytes());
}

fn write_gguf_string(buf: &mut Vec<u8>, s: &str) {
    write_u64(buf, s.len() as u64);
    buf.extend_from_slice(s.as_bytes());
}

fn write_metadata_kv(buf: &mut Vec<u8>, key: &str, value: &MetadataValue) {
    write_gguf_string(buf, key);
    match value {
        MetadataValue::Uint64(v) => {
            write_u32(buf, 10);
            write_u64(buf, *v);
        }
        MetadataValue::Float32(v) => {
            write_u32(buf, 6);
            buf.extend_from_slice(&v.to_le_bytes());
        }
        MetadataValue::String(v) => {
            write_u32(buf, 8);
            write_gguf_string(buf, v);
        }
        MetadataValue::Bool(v) => {
            write_u32(buf, 7);
            write_u8(buf, if *v { 1 } else { 0 });
        }
        _ => panic!("unsupported test value type"),
    }
}

fn create_test_gguf(f32_tensors: Vec<(&str, Vec<f32>)>) -> Vec<u8> {
    let mut buf = Vec::new();

    write_u32(&mut buf, GGUF_MAGIC);
    write_u32(&mut buf, 3);

    let tensor_count = f32_tensors.len() as u64;
    let metadata = vec![
        (
            "general.architecture".to_string(),
            MetadataValue::String("llama".to_string()),
        ),
        ("llama.block_count".to_string(), MetadataValue::Uint64(2)),
        (
            "llama.embedding_length".to_string(),
            MetadataValue::Uint64(64),
        ),
        (
            "llama.attention.head_count".to_string(),
            MetadataValue::Uint64(4),
        ),
        ("general.alignment".to_string(), MetadataValue::Uint64(32)),
    ];

    write_u64(&mut buf, tensor_count);
    write_u64(&mut buf, metadata.len() as u64);

    for (key, value) in &metadata {
        write_metadata_kv(&mut buf, key, value);
    }

    let alignment = 32u64;
    let mut current_offset = 0u64;

    for (name, data) in &f32_tensors {
        write_gguf_string(&mut buf, name);
        let n_dims = if data.len() > 1 { 2 } else { 1 };
        write_u32(&mut buf, n_dims);
        if n_dims == 2 {
            let rows = 1u64;
            let cols = data.len() as u64;
            write_u64(&mut buf, rows);
            write_u64(&mut buf, cols);
        } else {
            write_u64(&mut buf, data.len() as u64);
        }
        write_u32(&mut buf, GgmlType::F32.to_u32());
        write_u64(&mut buf, current_offset);
        current_offset += (data.len() * 4) as u64;
    }

    let header_end = buf.len() as u64;
    let data_start = align_offset(header_end, alignment);
    let padding = (data_start - header_end) as usize;
    buf.extend(std::iter::repeat(0u8).take(padding));

    for (_name, data) in &f32_tensors {
        for val in data {
            buf.extend_from_slice(&val.to_le_bytes());
        }
    }

    buf
}

#[test]
fn test_gguf_magic_and_version() {
    let data = create_test_gguf(vec![]);
    let loader = GgufLoader::load(&data).unwrap();
    assert_eq!(loader.header().version, 3);
    assert_eq!(loader.header().tensor_count, 0);
}

#[test]
fn test_gguf_metadata() {
    let data = create_test_gguf(vec![]);
    let loader = GgufLoader::load(&data).unwrap();
    assert_eq!(loader.metadata_str("general.architecture"), Some("llama"));
    assert_eq!(loader.metadata_u64("llama.block_count"), Some(2));
    assert_eq!(loader.metadata_u64("llama.embedding_length"), Some(64));
}

#[test]
fn test_gguf_tensor_loading() {
    let data = create_test_gguf(vec![
        ("token_embd.weight", vec![1.0, 2.0, 3.0, 4.0]),
        ("output_norm.weight", vec![0.5, -0.5]),
    ]);
    let loader = GgufLoader::load(&data).unwrap();

    assert!(loader.has_tensor("token_embd.weight"));
    assert!(loader.has_tensor("output_norm.weight"));
    assert!(!loader.has_tensor("nonexistent"));

    let t = loader.load_tensor("token_embd.weight", &times).unwrap();
    assert_eq!(t.shape(), &[1, 4]);
    assert_eq!(t.dtype(), DType::F32);
    assert!((float(t.get_flat_f32(0)) - 1.0).abs() < 1e-6);
    assert!((float(t.get_flat_f32(3)) - 4.0).abs() < 1e-6);

    let t2 = loader.load_tensor("output_norm.weight", &times).unwrap();
    assert_eq!(t2.shape(), &[1, 2]);
    assert!((float(t2.get_flat_f32(0)) - 0.5).abs() < 1e-6);
    assert!((float(t2.get_flat_f32(1)) - (-0.5)).abs() < 1e-6);
}

#[test]
fn test_config_from_metadata() {
    let data = create_test_gguf(vec![]);
    let loader = GgufLoader::load(&data).unwrap();
    let config = loader.config_from_metadata().unwrap();
    assert_eq!(config.num_layers, 2);
    assert_eq!(config.hidden_size, 64);
    assert_eq!(config.num_heads, 4);
}

#[test]
fn test_weight_mapper() {
    assert_eq!(
        GgufWeightMapper::map_weight("token_embd.weight"),
        WeightTarget::Embedding
    );
    assert_eq!(
        GgufWeightMapper::map_weight("output_norm.weight"),
        WeightTarget::FinalNorm
    );
    assert_eq!(
        GgufWeightMapper::map_weight("output.weight"),
        WeightTarget::LmHead
    );
    assert_eq!(
        GgufWeightMapper::map_weight("blk.0.attn_q.weight"),
        WeightTarget::AttentionQ { layer_idx: 0 }
    );
    assert_eq!(
        GgufWeightMapper::map_weight("blk.3.ffn_gate.weight"),
        WeightTarget::FfnGate { layer_idx: 3 }
    );
    assert_eq!(
        GgufWeightMapper::map_weight("blk.7.ffn_down.weight"),
        WeightTarget::FfnDown { layer_idx: 7 }
    );
    assert_eq!(
        GgufWeightMapper::map_weight("blk.1.attn_norm.weight"),
        WeightTarget::AttnNorm { layer_idx: 1 }
    );
    assert_eq!(
        GgufWeightMapper::map_weight("blk.5.ffn_norm.weight"),
        WeightTarget::FfnNorm { layer_idx: 5 }
    );
}

#[test]
fn test_invalid_magic() {
    let mut data = vec![0u8; 64];
    data[0..4].copy_from_slice(b"FAIL");
    assert!(GgufLoader::load(&data).is_err());
}

#[test]
fn gguf_test_tensor_not_found() {
    let data = create_test_gguf(vec![("a.weight", vec![1.0])]);
    let loader = GgufLoader::load(&data).unwrap();
    assert!(loader.load_tensor("nonexistent", &times).is_err());
}

#[test]
fn test_tensor_names() {
    let data = create_test_gguf(vec![("a.weight", vec![1.0]), ("b.weight", vec![2.0])]);
    let loader = GgufLoader::load(&data).unwrap();
    let names = loader.tensor_names();
    assert_eq!(names.len(), 2);
    assert!(names.contains(&"a.weight"));
    assert!(names.contains(&"b.weight"));
}

fn w_u32(buf: &mut Vec<u8>, v: u32) {
    buf.extend_from_slice(&v.to_le_bytes());
}

fn w_u64(buf: &mut Vec<u8>, v: u64) {
    buf.extend_from_slice(&v.to_le_bytes());
}

fn w_str(buf: &mut Vec<u8>, s: &str) {
    w_u64(buf, s.len() as u64);
    buf.extend_from_slice(s.as_bytes());
}

fn w_kv_string(buf: &mut Vec<u8>, key: &str, val: &str) {
    w_str(buf, key);
    w_u32(buf, 8);
    w_str(buf, val);
}

fn w_kv_u64(buf: &mut Vec<u8>, key: &str, val: u64) {
    w_str(buf, key);
    w_u32(buf, 10);
    w_u64(buf, val);
}

fn w_kv_f32(buf: &mut Vec<u8>, key: &str, val: f32) {
    w_str(buf, key);
    w_u32(buf, 6);
    buf.extend_from_slice(&val.to_le_bytes());
}

fn w_kv_string_array(buf: &mut Vec<u8>, key: &str, items: &[&str]) {
    w_str(buf, key);
    w_u32(buf, 9); // array
    w_u32(buf, 8); // element type: string
    w_u64(buf, items.len() as u64);
    for s in items {
        w_str(buf, s);
    }
}

/// Build a Qwen-shaped GGUF v3, F32. `tensors` are
/// `(name, ggml_dims, torch_row_major_data)` where `ggml_dims` is the
/// declared GGUF dims (reverse of the logical torch shape).
fn build_qwen_gguf(tensors: &[(&str, &[u64], &[f32])]) -> Vec<u8> {
    let mut buf = Vec::new();
    w_u32(&mut buf, 0x4655_4747); // GGUF magic
    w_u32(&mut buf, 3); // version

    w_u64(&mut buf, tensors.len() as u64);
    w_u64(&mut buf, 11); // metadata kv count

    w_kv_string(&mut buf, "general.architecture", "qwen2");
    w_kv_u64(&mut buf, "general.alignment", 32);
    w_kv_u64(&mut buf, "qwen2.block_count", 1);
    w_kv_u64(&mut buf, "qwen2.embedding_length", 8);
    w_kv_u64(&mut buf, "qwen2.attention.head_count", 2);
    w_kv_u64(&mut buf, "qwen2.attention.head_count_kv", 1);
    w_kv_u64(&mut buf, "qwen2.attention.key_length", 4);
    w_kv_u64(&mut buf, "qwen2.context_length", 32);
    w_kv_f32(&mut buf, "qwen2.layer_norm_rms_epsilon", 1e-5);
    w_kv_f32(&mut buf, "qwen2.rope.freq_base", 1e6);
    w_kv_string_array(
        &mut buf,
        "tokenizer.ggml.tokens",
        &["<unk>", "<s>", "</s>", "a", "b", "c", "d", "e"],
    );

    let mut data_offset = 0u64;
    for (name, dims, data) in tensors.iter().copied() {
        w_str(&mut buf, name);
        w_u32(&mut buf, dims.len() as u32);
        for &d in dims {
            w_u64(&mut buf, d);
        }
        w_u32(&mut buf, 0); // GgmlType::F32
        w_u64(&mut buf, data_offset);
        data_offset += (data.len() * 4) as u64;
    }
    let header_end = buf.len() as u64;
    let data_start = (header_end + 31) & !31;
    buf.extend(std::iter::repeat(0u8).take((data_start - header_end) as usize));

    for (_name, _dims, data) in tensors.iter().copied() {
        for &val in data {
            buf.extend_from_slice(&val.to_le_bytes());
        }
    }
    buf
}

/// Deterministic row-distinct data so any row reorder is caught.
fn seq(n: usize, base: f32) -> Vec<f32> {
    (0..n).map(|i| base + (i as f32) * 0.5).collect()
}

fn load_test_model(gguf_bytes: Vec<u8>) -> (Model, ModelConfig) {
    let loader = GgufLoader::load(&gguf_bytes).unwrap();
    let config = loader
        .config_from_metadata()
        .expect("config from test GGUF metadata");
    assert_eq!(config.architecture, Architecture::Qwen2);
    assert_eq!(config.head_dim(), 4);
    let mut model = Model::new(config.clone());
    load_gguf_weights(&mut model, &loader, Device::Cpu, &config, &times);
    (model, config)
}

#[test]
fn qwen_gguf_attn_projections_keep_plain_torch_layout() {
    // torch [out, in]: q/o = [8, 8] (2 heads x head_dim 4), k/v = [4, 8].
    // GGUF declares dims reversed (ggml ne order); data is torch row-major.
    let q = seq(8 * 8, 100.0);
    let k = seq(4 * 8, 300.0);
    let v = seq(4 * 8, 500.0);
    let o = seq(8 * 8, 700.0);
    let q_bias = seq(8, 900.0);
    let k_bias = seq(4, 950.0);
    let v_bias = seq(4, 980.0);
    let ffn_gate = seq(8 * 8, 2000.0);
    let ffn_down = seq(8 * 8, 3000.0);
    let ffn_up = seq(8 * 8, 4000.0);
    let attn_norm = seq(8, 5000.0);
    let ffn_norm = seq(8, 6000.0);
    let output_norm = seq(8, 7000.0);

    let gguf = build_qwen_gguf(&[
        ("blk.0.attn_q.weight", &[8, 8], &q),
        ("blk.0.attn_k.weight", &[8, 4], &k),
        ("blk.0.attn_v.weight", &[8, 4], &v),
        ("blk.0.attn_output.weight", &[8, 8], &o),
        ("blk.0.attn_q.bias", &[8], &q_bias),
        ("blk.0.attn_k.bias", &[4], &k_bias),
        ("blk.0.attn_v.bias", &[4], &v_bias),
        ("blk.0.ffn_gate.weight", &[8, 8], &ffn_gate),
        ("blk.0.ffn_down.weight", &[8, 8], &ffn_down),
        ("blk.0.ffn_up.weight", &[8, 8], &ffn_up),
        ("blk.0.attn_norm.weight", &[8], &attn_norm),
        ("blk.0.ffn_norm.weight", &[8], &ffn_norm),
        ("output_norm.weight", &[8], &output_norm),
    ]);

    let (model, _config) = load_test_model(gguf);
    let att = &model.layers[0].attention;

    assert_eq!(att.q_proj.weight.shape(), &[8, 8]);
    assert_eq!(floats(&att.q_proj.weight), &q[..]);
    assert_eq!(att.k_proj.weight.shape(), &[4, 8]);
    assert_eq!(floats(&att.k_proj.weight), &k[..]);
    assert_eq!(att.v_proj.weight.shape(), &[4, 8]);
    assert_eq!(floats(&att.v_proj.weight), &v[..]);
    assert_eq!(att.o_proj.weight.shape(), &[8, 8]);
    assert_eq!(floats(&att.o_proj.weight), &o[..]);

    assert_eq!(floats(att.q_proj.bias.as_ref().unwrap()), &q_bias[..]);
    assert_eq!(floats(att.k_proj.bias.as_ref().unwrap()), &k_bias[..]);
    assert_eq!(floats(att.v_proj.bias.as_ref().unwrap()), &v_bias[..]);
}

#[test]
fn qwen_gguf_round_trip_rejects_unneeded_qk_repack() {
    // Rows in another order must come out in that order.
    let mut q_interleaved = seq(8 * 8, 100.0);
    let hd = 4usize;
    let n_heads = 2usize;
    let inner = 8usize;
    let perm: Vec<usize> = (0..n_heads * hd)
        .map(|r| {
            let d_lo = r % (hd / 2);
            let d_hi = (r / (hd / 2)) % 2;
            hd * (r / hd) + 2 * d_lo + d_hi
        })
        .collect();
    let src = q_interleaved.clone();
    for r in 0..n_heads * hd {
        for c in 0..inner {
            q_interleaved[perm[r] * inner + c] = src[r * inner + c];
        }
    }

    let gguf = build_qwen_gguf(&[
        ("blk.0.attn_q.weight", &[8, 8], &q_interleaved),
        ("blk.0.attn_k.weight", &[8, 4], &seq(4 * 8, 300.0)),
        ("blk.0.attn_v.weight", &[8, 4], &seq(4 * 8, 500.0)),
        ("blk.0.attn_output.weight", &[8, 8], &seq(8 * 8, 700.0)),
    ]);

    let (model, _config) = load_test_model(gguf);
    // Whatever the file contains, it is stored verbatim (plain pass-through).
    assert_eq!(
        floats(&model.layers[0].attention.q_proj.weight),
        &q_interleaved[..]
    );
}

/// A file with one tensor of a kind and nothing else.
fn lone_tensor(kind: u32, dims: &[u64], data: &[u8]) -> Vec<u8> {
    let mut buf = Vec::new();
    write_u32(&mut buf, GGUF_MAGIC);
    write_u32(&mut buf, 3);
    write_u64(&mut buf, 1);
    write_u64(&mut buf, 0);
    write_gguf_string(&mut buf, "w");
    write_u32(&mut buf, dims.len() as u32);
    for d in dims {
        write_u64(&mut buf, *d);
    }
    write_u32(&mut buf, kind);
    write_u64(&mut buf, 0);
    let start = align_offset(buf.len() as u64, 32) as usize;
    buf.resize(start, 0);
    buf.extend_from_slice(data);
    buf
}

#[test]
fn offsets_are_aligned_upwards() {
    assert_eq!(align_offset(0, 32), 0);
    assert_eq!(align_offset(1, 32), 32);
    assert_eq!(align_offset(32, 32), 32);
    assert_eq!(align_offset(33, 32), 64);
}

#[test]
fn kinds_have_codes_and_blocks() {
    for code in 0..40u32 {
        if let Some(kind) = GgmlType::from_u32(code) {
            assert_eq!(kind.to_u32(), code);
        }
    }
    assert_eq!(GgmlType::from_u32(999), None);
    assert_eq!(GgmlType::F32.block_size(), 4);
    assert_eq!(GgmlType::F16.block_size(), 2);
    assert_eq!(GgmlType::Q8_0.block_size(), 16);
    assert_eq!(GgmlType::Q4_0.block_size(), 32);
    assert_eq!(GgmlType::F16.to_dtype(), Some(DType::F32));
}

#[test]
fn halves_become_floats() {
    let data = lone_tensor(GgmlType::F16.to_u32(), &[2], &[0x00, 0x3e, 0x00, 0xc0]);
    let loader = GgufLoader::load(&data).unwrap();
    assert_eq!(floats(&loader.load_tensor("w", &times).unwrap()), vec![1.5, -2.0]);
}

#[test]
fn eight_bit_blocks_are_scaled() {
    // One block: the scale as a signed byte, then 16 signed bytes.
    let mut block = vec![-2i8 as u8];
    block.extend((0..16).map(|i| (i as i8 - 8) as u8));
    let data = lone_tensor(GgmlType::Q8_0.to_u32(), &[16], &block);
    let loader = GgufLoader::load(&data).unwrap();
    let got = floats(&loader.load_tensor("w", &times).unwrap());
    assert_eq!(got.len(), 16);
    assert_eq!(got[0], 16.0);
    assert_eq!(got[8], 0.0);
    assert_eq!(got[15], -14.0);
}

#[test]
fn four_bit_blocks_are_scaled() {
    // One block: the scale 0.5 as a half, then 16 bytes of two elements each, lower half first.
    let mut block = vec![0x00u8, 0x38];
    block.extend((0..16).map(|i| if i == 0 { 0xf1u8 } else { 0x88 }));
    let data = lone_tensor(GgmlType::Q4_0.to_u32(), &[32], &block);
    let loader = GgufLoader::load(&data).unwrap();
    let got = floats(&loader.load_tensor("w", &times).unwrap());
    assert_eq!(got.len(), 32);
    assert_eq!(got[0], -3.5);
    assert_eq!(got[1], 3.5);
    assert_eq!(got[2], 0.0);
    assert_eq!(got[31], 0.0);
}

#[test]
fn each_fault_has_its_error() {
    let whole = create_test_gguf(vec![("a.weight", vec![1.0])]);
    assert!(matches!(GgufLoader::load(b"FAIL0000"), Err(GgufError::InvalidMagic)));
    assert!(matches!(GgufLoader::load(&whole[..20]), Err(GgufError::Io(_))));
    let mut old = whole.clone();
    old[4] = 9;
    assert!(matches!(GgufLoader::load(&old), Err(GgufError::UnsupportedVersion(9))));
    let odd = lone_tensor(999, &[1], &[0; 4]);
    assert!(matches!(GgufLoader::load(&odd), Err(GgufError::InvalidGgmlType(999))));
    let mut meta = Vec::new();
    write_u32(&mut meta, GGUF_MAGIC);
    write_u32(&mut meta, 3);
    write_u64(&mut meta, 0);
    write_u64(&mut meta, 1);
    write_gguf_string(&mut meta, "k");
    write_u32(&mut meta, 77);
    assert!(matches!(GgufHeader::read(&meta), Err(GgufError::InvalidMetadataType(77))));
    let loader = GgufLoader::load(&whole).unwrap();
    let missing = loader.load_tensor("nowhere", &times).err().unwrap();
    assert!(matches!(missing, GgufError::MissingField(_)), "{:?}", missing);
    assert!(missing.message().contains("nowhere"), "{}", missing.message());
}

#[test]
fn a_checked_load_agrees_with_a_plain_one() {
    let whole = create_test_gguf(vec![("a.weight", vec![1.0])]);
    let checked = GgufLoader::load_checked(&whole).unwrap().unwrap();
    let plain = GgufLoader::load(&whole).unwrap();
    assert_eq!(checked.data_offset, plain.data_offset);
    assert_eq!(checked.tensor_names(), plain.tensor_names());
    assert!(plain.test_readable("a.weight"));
    assert_eq!(plain.tensor_info("a.weight").unwrap().dimensions, vec![1]);
    assert_eq!(plain.tensor_infos().len(), 1);
    assert_eq!(plain.metadata().len(), 5);
    assert!(plain.metadata_f32("llama.block_count").is_some());
    assert!(plain.metadata_f32("general.architecture").is_none());
}

#[test]
fn metadata_values_convert() {
    assert_eq!(MetadataValue::Uint8(7).as_u64(), Some(7));
    assert_eq!(MetadataValue::Bool(true).as_bool(), Some(true));
    assert_eq!(MetadataValue::String("x".into()).as_str(), Some("x"));
    assert_eq!(MetadataValue::Bool(true).as_str(), None);
    assert_eq!(MetadataValue::Array(vec![MetadataValue::Uint8(1)]).as_array().unwrap().len(), 1);
    assert!(MetadataValue::Float32(1.5f32.to_bits()).as_f32().is_some());
}

#[test]
fn dimensions_are_reversed() {
    let t = Tensor::from_slice(&(0..6).map(|i| (i as f32).to_bits()).collect::<Vec<u32>>(), &[3, 2]);
    let r = to_torch_layout(t);
    assert_eq!(r.shape(), &[2, 3]);
    assert_eq!(floats(&r), vec![0.0, 1.0, 2.0, 3.0, 4.0, 5.0]);
}
