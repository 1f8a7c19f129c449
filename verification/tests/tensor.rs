use bitllm::tensor::binary::BinaryTensor;
use bitllm::tensor::init::InitMethod;
use bitllm::tensor::pnword::{PNActivation256, PNActivation512, PNWeight256};
use bitllm::tensor::shape::checked_count;
use bitllm::tensor::simd;
use bitllm::tensor::tensor::Tensor;
use bitllm::tensor::types::{DType, Device, TensorError};
use bitllm::tensor::view::TensorView;
use rand::Rng;

fn bits(v: &[f32]) -> Vec<u32> {
    v.iter().map(|x| x.to_bits()).collect()
}

fn tensor(data: &[f32], shape: &[usize]) -> Tensor {
    Tensor::from_slice(&bits(data), shape)
}

fn at(t: &Tensor, i: usize) -> f32 {
    f32::from_bits(t.get_flat_f32(i))
}

fn plus(a: u32, b: u32) -> u32 {
    (f32::from_bits(a) + f32::from_bits(b)).to_bits()
}

fn minus(a: u32, b: u32) -> u32 {
    (f32::from_bits(a) - f32::from_bits(b)).to_bits()
}

fn times(a: u32, b: u32) -> u32 {
    (f32::from_bits(a) * f32::from_bits(b)).to_bits()
}

fn quotient(a: u32, b: u32) -> u32 {
    (f32::from_bits(a) / f32::from_bits(b)).to_bits()
}

fn inner(a: &[u32], b: &[u32]) -> u32 {
    let mut sum = 0.0f32;
    for i in 0..a.len() {
        sum += f32::from_bits(a[i]) * f32::from_bits(b[i]);
    }
    sum.to_bits()
}

#[test]
fn test_dtype_properties() {
    assert_eq!(DType::F32.bit_width(), 32);
    assert_eq!(DType::BIT1.bit_width(), 1);
    assert_eq!(DType::F32.elems_per_byte(), 1);
    assert_eq!(DType::BIT1.elems_per_byte(), 8);
    assert!(DType::F32.is_float());
    assert!(DType::BIT1.is_quantized());
    assert!(!DType::F32.is_quantized());
}

#[test]
fn test_tensor_creation_f32() {
    let t = Tensor::new(&[2, 3], DType::F32);
    assert_eq!(t.shape(), &[2, 3]);
    assert_eq!(t.dtype(), DType::F32);
    assert_eq!(t.num_elements(), 6);
    assert_eq!(t.nbytes(), 24);
    assert_eq!(t.ndim(), 2);
}

#[test]
fn test_tensor_creation_bit1() {
    let t = Tensor::new(&[16], DType::BIT1);
    assert_eq!(t.num_elements(), 16);
    assert_eq!(t.nbytes(), 2);
}

#[test]
fn test_from_slice() {
    let data = [1.0f32, 2.0, 3.0, 4.0];
    let t = tensor(&data, &[2, 2]);
    assert_eq!(f32::from_bits(t.get_f32(&[0, 0])), 1.0);
    assert_eq!(f32::from_bits(t.get_f32(&[0, 1])), 2.0);
    assert_eq!(f32::from_bits(t.get_f32(&[1, 0])), 3.0);
    assert_eq!(f32::from_bits(t.get_f32(&[1, 1])), 4.0);
}

#[test]
fn test_zeros_and_ones() {
    let z = Tensor::zeros(&[3], DType::F32);
    for i in 0..3 {
        assert_eq!(at(&z, i), 0.0);
    }

    let o = Tensor::ones(&[3], DType::F32);
    for i in 0..3 {
        assert_eq!(at(&o, i), 1.0);
    }
}

#[test]
fn test_reshape() {
    let t = tensor(&[1.0, 2.0, 3.0, 4.0, 5.0, 6.0], &[2, 3]);
    let r = t.reshape(&[3, 2]);
    assert_eq!(r.shape(), &[3, 2]);
    assert_eq!(at(&r, 0), 1.0);
    assert_eq!(at(&r, 5), 6.0);
}

#[test]
fn reshaping_to_another_size_is_an_error() {
    let t = tensor(&[1.0, 2.0, 3.0], &[3]);
    assert!(t.try_reshape(&[2, 2]).is_err());
    assert_eq!(t.try_reshape(&[1, 3]).unwrap().shape(), &[1, 3]);
}

#[test]
fn test_flatten() {
    let t = tensor(&[1.0, 2.0, 3.0, 4.0], &[2, 2]);
    let f = t.flatten();
    assert_eq!(f.shape(), &[4]);
    assert_eq!(at(&f, 0), 1.0);
    assert_eq!(at(&f, 3), 4.0);
}

#[test]
fn test_transpose() {
    let t = tensor(&[1.0, 2.0, 3.0, 4.0, 5.0, 6.0], &[2, 3]);
    let tr = t.transpose();
    assert_eq!(tr.shape(), &[3, 2]);
    assert_eq!(f32::from_bits(tr.get_f32(&[0, 0])), 1.0);
    assert_eq!(f32::from_bits(tr.get_f32(&[0, 1])), 4.0);
    assert_eq!(f32::from_bits(tr.get_f32(&[2, 0])), 3.0);
    assert_eq!(f32::from_bits(tr.get_f32(&[2, 1])), 6.0);
}

#[test]
fn transposing_twice_gives_the_matrix_back() {
    let t = tensor(&[1.0, 2.0, 3.0, 4.0, 5.0, 6.0], &[2, 3]);
    let twice = t.transpose().transpose();
    assert_eq!(twice.shape(), t.shape());
    assert_eq!(twice.as_f32_slice(), t.as_f32_slice());
}

#[test]
fn test_to_f32_roundtrip() {
    let data = [1.5f32, -2.5, 0.0, 100.0];
    let t = tensor(&data, &[4]);
    let result = t.to_f32();
    for i in 0..4 {
        assert_eq!(at(&result, i), data[i]);
    }
}

#[test]
fn test_to_bit1_roundtrip() {
    let data = [1.0f32, -1.0, 1.0, -1.0];
    let t = tensor(&data, &[4]);
    let result = t.to_bit1();
    assert_eq!(result.dtype(), DType::BIT1);
    for i in 0..4 {
        assert_eq!(at(&result, i), data[i]);
    }
}

#[test]
fn test_to_bit1_positive_negative() {
    let data = [0.5f32, -0.5, 0.1, -0.9, 0.01, -0.01, 1.0, -1.0];
    let t = tensor(&data, &[8]);
    let result = t.to_bit1();
    for i in 0..8 {
        let expected = if data[i] > 0.0 { 1.0 } else { -1.0 };
        assert_eq!(at(&result, i), expected);
    }
}

#[test]
fn test_to_dtype_dispatch() {
    let t = tensor(&[1.0f32], &[1]);
    let b1 = t.to_dtype(DType::BIT1);
    assert_eq!(b1.dtype(), DType::BIT1);
    let f32 = t.to_dtype(DType::F32);
    assert_eq!(f32.dtype(), DType::F32);
}

#[test]
fn test_add() {
    let a = tensor(&[1.0, 2.0, 3.0], &[3]);
    let b = tensor(&[4.0, 5.0, 6.0], &[3]);
    let c = a.add(&b, plus).unwrap();
    assert_eq!(at(&c, 0), 5.0);
    assert_eq!(at(&c, 1), 7.0);
    assert_eq!(at(&c, 2), 9.0);
}

#[test]
fn test_sub() {
    let a = tensor(&[10.0, 20.0], &[2]);
    let b = tensor(&[3.0, 7.0], &[2]);
    let c = a.sub(&b, minus).unwrap();
    assert_eq!(at(&c, 0), 7.0);
    assert_eq!(at(&c, 1), 13.0);
}

#[test]
fn test_mul() {
    let a = tensor(&[2.0, 3.0], &[2]);
    let b = tensor(&[4.0, 5.0], &[2]);
    let c = a.mul(&b, times).unwrap();
    assert_eq!(at(&c, 0), 8.0);
    assert_eq!(at(&c, 1), 15.0);
}

#[test]
fn test_add_shape_mismatch() {
    let a = tensor(&[1.0, 2.0], &[2]);
    let b = tensor(&[1.0, 2.0, 3.0], &[3]);
    assert!(a.add(&b, plus).is_err());
}

#[test]
fn test_dot() {
    let a = tensor(&[1.0, 2.0, 3.0, 4.0], &[2, 2]);
    let b = tensor(&[5.0, 6.0, 7.0, 8.0], &[2, 2]);
    let c = a.dot(&b, inner).unwrap();
    assert_eq!(c.shape(), &[2, 2]);
    assert_eq!(at(&c, 0), 19.0);
    assert_eq!(at(&c, 1), 22.0);
    assert_eq!(at(&c, 2), 43.0);
    assert_eq!(at(&c, 3), 50.0);
}

#[test]
fn one_row_times_a_matrix_is_a_matrix_product() {
    let a = tensor(&[1.0, 2.0], &[1, 2]);
    let b = tensor(&[5.0, 6.0, 7.0, 8.0, 9.0, 10.0], &[2, 3]);
    let c = a.dot(&b, inner).unwrap();
    assert_eq!(c.shape(), &[1, 3]);
    assert_eq!(c.as_f32_slice(), bits(&[21.0, 24.0, 27.0]));
}

#[test]
fn test_dot_requires_2d() {
    let a = tensor(&[1.0, 2.0, 3.0], &[3]);
    let b = tensor(&[1.0, 2.0, 3.0], &[3]);
    assert!(a.dot(&b, inner).is_err());
}

#[test]
fn test_dot_incompatible_dims() {
    let a = tensor(&[1.0, 2.0, 3.0, 4.0], &[2, 2]);
    let b = tensor(&[1.0, 2.0, 3.0], &[3, 1]);
    assert!(a.dot(&b, inner).is_err());
}

#[test]
fn errors_have_their_texts() {
    let a = tensor(&[1.0, 2.0, 3.0, 4.0], &[2, 2]);
    let b = tensor(&[1.0, 2.0, 3.0], &[3, 1]);
    match a.dot(&b, inner) {
        Err(e) => assert_eq!(e.message(), "Shape mismatch: dot shape mismatch: [2, 2] x [3, 1]"),
        Ok(_) => panic!("multiplied"),
    }
    match a.add(&b, plus) {
        Err(e) => assert_eq!(e.message(), "Shape mismatch: shape mismatch in add"),
        Ok(_) => panic!("added"),
    }
    assert_eq!(TensorError::OutOfBounds.message(), "Out of bounds access");
    assert_eq!(TensorError::InvalidShape("x".to_string()).message(), "Invalid shape: x");
}

#[test]
fn test_dot_non_square() {
    let a = tensor(&[1.0, 2.0, 3.0, 4.0, 5.0, 6.0], &[2, 3]);
    let b = tensor(&[1.0, 2.0, 3.0, 4.0, 5.0, 6.0], &[3, 2]);
    let c = a.dot(&b, inner).unwrap();
    assert_eq!(c.shape(), &[2, 2]);
    assert_eq!(at(&c, 0), 22.0);
    assert_eq!(at(&c, 1), 28.0);
    assert_eq!(at(&c, 2), 49.0);
    assert_eq!(at(&c, 3), 64.0);
}

#[test]
fn test_init_constant() {
    let mut t = Tensor::new(&[10], DType::F32);
    InitMethod::Constant(42.0f32.to_bits()).initialize(&mut t, &[]);
    for i in 0..10 {
        assert_eq!(at(&t, i), 42.0);
    }
}

fn drawn_mean(method: InitMethod) -> f32 {
    let mut t = Tensor::new(&[100], DType::F32);
    let (a, b) = method.bound(t.shape()).unwrap();
    let bound = (a as f32 / b as f32).sqrt();
    let mut rng = rand::thread_rng();
    let drawn: Vec<u32> = (0..100).map(|_| rng.gen_range(-bound..bound).to_bits()).collect();
    method.initialize(&mut t, &drawn);
    assert_eq!(t.as_f32_slice(), drawn);
    let mut sum = 0.0;
    for i in 0..100 {
        sum += at(&t, i);
    }
    sum / 100.0
}

#[test]
fn test_init_xavier_normal() {
    let mean = drawn_mean(InitMethod::XavierNormal);
    assert!(mean.abs() < 1.0, "XavierNormal mean too large: {}", mean);
}

#[test]
fn test_init_he_normal() {
    let mean = drawn_mean(InitMethod::HeNormal);
    assert!(mean.abs() < 1.0, "HeNormal mean too large: {}", mean);
}

#[test]
fn bounds_go_by_inputs_and_outputs() {
    assert_eq!(InitMethod::XavierUniform.bound(&[7, 3, 5]), Some((6, 8)));
    assert_eq!(InitMethod::XavierNormal.bound(&[100]), Some((6, 101)));
    assert_eq!(InitMethod::HeNormal.bound(&[3, 5]), Some((2, 3)));
    assert_eq!(InitMethod::HeUniform.bound(&[3, 5]), Some((6, 3)));
    assert_eq!(InitMethod::Constant(0).bound(&[3]), None);
}

#[test]
fn test_tensor_view() {
    let t = tensor(&[1.0, 2.0, 3.0, 4.0, 5.0, 6.0], &[2, 3]);
    let view = TensorView::new(&t, 0, vec![3, 2], vec![1, 3]);
    assert_eq!(view.shape(), &[3, 2]);
    assert_eq!(view.num_elements(), 6);
    assert_eq!(f32::from_bits(view.get_f32(&[0, 0])), 1.0);
}

#[test]
fn test_tensor_view_with_offset() {
    let t = tensor(&[1.0, 2.0, 3.0, 4.0, 5.0, 6.0], &[6]);
    let view = TensorView::new(&t, 2, vec![3], vec![1]);
    assert_eq!(f32::from_bits(view.get_f32(&[0])), 3.0);
    assert_eq!(f32::from_bits(view.get_f32(&[1])), 4.0);
    assert_eq!(f32::from_bits(view.get_f32(&[2])), 5.0);
}

#[test]
fn a_transposed_view_reads_like_the_transposed_tensor() {
    let t = tensor(&[1.0, 2.0, 3.0, 4.0, 5.0, 6.0], &[2, 3]);
    let view = t.transpose_view();
    let tr = t.transpose();
    for i in 0..3 {
        for j in 0..2 {
            assert_eq!(view.get_f32(&[i, j]), tr.get_f32(&[i, j]));
        }
    }
    assert_eq!(view.transpose_view().shape(), &[2, 3]);
}

#[test]
fn test_bit1_roundtrip_odd_elements() {
    let data = [1.0f32, -1.0, 1.0, -1.0, 1.0];
    let t = tensor(&data, &[5]);
    let result = t.to_bit1();
    assert_eq!(result.num_elements(), 5);
    for i in 0..5 {
        assert_eq!(at(&result, i), data[i]);
    }
}

#[test]
fn test_set_f32_multi_index() {
    let mut t = Tensor::new(&[3, 3], DType::F32);
    t.set_f32(&[1, 2], 42.0f32.to_bits());
    assert_eq!(f32::from_bits(t.get_f32(&[1, 2])), 42.0);
    assert_eq!(f32::from_bits(t.get_f32(&[0, 0])), 0.0);
}

#[test]
fn test_1d_tensor() {
    let t = tensor(&[1.0, 2.0, 3.0], &[3]);
    assert_eq!(t.ndim(), 1);
    assert_eq!(f32::from_bits(t.get_f32(&[0])), 1.0);
    assert_eq!(f32::from_bits(t.get_f32(&[2])), 3.0);
}

#[test]
fn test_high_dimensional() {
    let t = Tensor::new(&[2, 2, 2, 2], DType::F32);
    assert_eq!(t.ndim(), 4);
    assert_eq!(t.num_elements(), 16);
    let mut t2 = t;
    t2.set_f32(&[1, 1, 1, 1], 7.0f32.to_bits());
    assert_eq!(f32::from_bits(t2.get_f32(&[1, 1, 1, 1])), 7.0);
}

#[test]
fn test_simd_info() {
    let info = simd::detect_simd_info();
    assert!(!info.is_empty());
    assert_eq!(simd::simd_tier(false, true, true), "avx2");
    assert_eq!(simd::simd_tier(true, true, true), "avx512");
    assert_eq!(simd::simd_tier(false, false, true), "sse4.1");
    assert_eq!(simd::simd_tier(false, false, false), "sse2");
}

#[test]
fn test_simd_i8_dot_product() {
    let a: Vec<u8> = (0..64).map(|i| (i as i8) as u8).collect();
    let b: Vec<u8> = (0..64).map(|i| ((i + 1) as i8) as u8).collect();
    let result = simd::i8_dot_product(&a, &b, 64);
    let expected: i32 = (0..64).map(|i| (a[i] as i8 as i32) * (b[i] as i8 as i32)).sum();
    assert_eq!(result, expected);
    assert_eq!(simd::i8_dot_product(&[0xff, 0x80], &[2, 3], 2), -2 - 384);
}

#[test]
fn test_simd_tensor_add_uses_simd() {
    let a = tensor(&(0..256).map(|i| i as f32).collect::<Vec<_>>(), &[256]);
    let b = tensor(&(0..256).map(|i| i as f32 * 2.0).collect::<Vec<_>>(), &[256]);
    let c = a.add(&b, plus).unwrap();
    for i in 0..256 {
        assert!((at(&c, i) - (i as f32 * 3.0)).abs() < 1e-4, "tensor add SIMD failed at {}", i);
    }
}

#[test]
fn test_simd_tensor_dot_uses_simd() {
    let a = tensor(&(0..64).map(|i| i as f32).collect::<Vec<_>>(), &[8, 8]);
    let b = tensor(&(0..64).map(|i| (i + 1) as f32).collect::<Vec<_>>(), &[8, 8]);
    let c = a.dot(&b, inner).unwrap();
    assert_eq!(c.shape(), &[8, 8]);

    for i in 0..8 {
        for j in 0..8 {
            let mut expected = 0.0f32;
            for k in 0..8 {
                expected += at(&a, i * 8 + k) * at(&b, k * 8 + j);
            }
            let got = at(&c, i * 8 + j);
            assert!((got - expected).abs() < 0.01, "tensor dot SIMD failed at [{},{}]: got {} expected {}", i, j, got, expected);
        }
    }
}

#[test]
fn test_binary_tensor_creation() {
    let w = tensor(&[1.0, -1.0, 2.0, -2.0, 3.0, -3.0], &[3, 2]);
    let bt = BinaryTensor::from_tensor(&w, quotient);
    assert_eq!(bt.rows, 3);
    assert_eq!(bt.cols, 2);
    assert_eq!(bt.scales.len(), 3);
    assert!((f32::from_bits(bt.scales[0]) - 1.0).abs() < 1e-6);
    assert!((f32::from_bits(bt.scales[1]) - 2.0).abs() < 1e-6);
    assert!((f32::from_bits(bt.scales[2]) - 3.0).abs() < 1e-6);
}

#[test]
fn test_binary_tensor_matmul_small() {
    let w = tensor(&[1.0, -1.0, -1.0, 1.0], &[2, 2]);
    let bt = BinaryTensor::from_tensor(&w, quotient);
    let input = tensor(&[1.0, 1.0], &[1, 2]);
    let out = bt.matmul(&input, inner, times);
    assert_eq!(out.shape(), &[1, 2]);
}

#[test]
fn test_binary_tensor_compression() {
    let data: Vec<f32> = (0..1024).map(|i| (i as f32 - 512.0) / 512.0).collect();
    let t = tensor(&data, &[32, 32]);
    let bt = BinaryTensor::from_tensor(&t, quotient);
    let compression_ratio = (bt.rows * bt.cols * 4) as f64 / bt.nbytes() as f64;
    assert!(compression_ratio > 30.0, "binary should compress > 30x, got {}", compression_ratio);
}

#[test]
fn test_binary_dequantize() {
    let data: Vec<f32> = (0..64).map(|i| (i as f32 - 32.0) / 32.0).collect();
    let w = tensor(&data, &[8, 8]);
    let bt = BinaryTensor::from_tensor(&w, quotient);
    let recon = bt.dequantize();
    assert_eq!(recon.shape(), &[8, 8]);
    for row in 0..8 {
        let s = f32::from_bits(bt.scales[row]);
        for col in 0..8 {
            let v = at(&recon, row * 8 + col);
            assert!((v - s).abs() < 1e-6 || (v + s).abs() < 1e-6, "dequantize at [{},{}]: got {} expected +/-{}", row, col, v, s);
        }
    }
}

#[test]
fn test_binary_matmul_matches_fp32_reference() {
    let data: Vec<f32> = (0..256).map(|i| (i as f32 - 128.0) / 128.0).collect();
    let w = tensor(&data, &[8, 32]);
    let bt = BinaryTensor::from_tensor(&w, quotient);

    let input_data: Vec<f32> = (0..32).map(|i| (i as f32 - 16.0) / 16.0).collect();
    let input = tensor(&input_data, &[1, 32]);

    let out_simd = bt.matmul(&input, inner, times);
    let bpr = bt.bytes_per_row();

    for row in 0..bt.rows {
        let mut expected_dot = 0.0f32;
        for col in 0..32 {
            let bit = (bt.data[row * bpr + col / 8] >> (col % 8)) & 1;
            let w_sign = if bit == 1 { 1.0f32 } else { -1.0f32 };
            expected_dot += input_data[col] * w_sign;
        }
        let expected = expected_dot * f32::from_bits(bt.scales[row]);
        let got = at(&out_simd, row);
        assert!((got - expected).abs() < 1e-4, "binary matmul mismatch at row {}: got {} expected {}", row, got, expected);
    }
}

#[test]
fn packed_rows_multiply_like_their_signs() {
    let w = tensor(&[1.0, -1.0, -1.0, 1.0, 1.0, -1.0, 1.0, 1.0, -1.0, 1.0, 1.0, -1.0, 1.0, 1.0, 1.0, 1.0, 1.0, -1.0], &[2, 9]);
    let bt = BinaryTensor::from_tensor(&w, quotient);
    let input = [0b1010_1010u8, 0b1];
    let got = bt.matmul_binary(&input, 9, 1);
    for row in 0..2 {
        let mut sum = 0i64;
        for col in 0..9 {
            let x: i64 = if (input[col / 8] >> (col % 8)) & 1 == 1 { 1 } else { -1 };
            let y: i64 = if at(&w, row * 9 + col) > 0.0 { 1 } else { -1 };
            sum += x * y;
        }
        assert_eq!(got[row], sum);
    }
}

#[test]
fn test_pnactivation256_pack_unpack() {
    let mut values = [0i8; 128];
    values[0] = 1;
    values[1] = -1;
    values[31] = 1;
    values[64] = -1;
    let packed = PNActivation256::pack(&values);
    let mut unpacked = [0i8; 128];
    packed.unpack(&mut unpacked);
    assert_eq!(values, unpacked);
}

#[test]
fn test_pnword256_dot_product() {
    let a = PNActivation256::pack(&[1, -1, 1, -1]);
    let w = PNWeight256::pack(&[1, -1, -1, 1], 2.5f32.to_bits());
    assert_eq!(a.dot(&w) as f32 * f32::from_bits(w.scale), 0.0);

    let a2 = PNActivation256::pack(&[1, -1, 1, -1, 0, 1]);
    let w2 = PNWeight256::pack(&[1, -1, -1, 1, 0, 1], 2.5f32.to_bits());
    assert_eq!(a2.dot(&w2) as f32 * f32::from_bits(w2.scale), 2.5);
    assert_eq!(a.popcount(), 4);
    assert_eq!(a.popcount(), a2.popcount() - 1);
    assert_eq!(1.0 - (a.popcount() as f32 / 128.0), 1.0 - (4.0 / 128.0));
}

#[test]
fn test_pnword256_bitwise() {
    let a = PNActivation256::pack(&[1, -1, 0, 1, -1]);
    let b = PNActivation256::pack(&[-1, 1, 1, 0, -1]);
    let _and_result = a.and(&b);
    let _xor_result = a.xor(&b);
    assert_eq!(a.popcount(), 4);
    assert_eq!(a.xor(&a).trits, [0; 4]);
    assert_eq!(a.and(&a).trits, a.trits);
}

#[test]
fn test_pnweight256_bitwise() {
    let a = PNWeight256::pack(&[1, -1, 1, -1, 1], 2.5f32.to_bits());
    let b = PNWeight256::pack(&[-1, 1, -1, 1, -1], 2.0f32.to_bits());
    let _and_result = a.and(&b);
    let _xor_result = a.xor(&b);
    assert_eq!(a.and(&b).trits, [0; 4]);
}

#[test]
fn test_pnactivation512_pack_unpack() {
    let mut values = [0i8; 256];
    values[0] = 1;
    values[1] = -1;
    values[255] = 1;
    let packed = PNActivation512::pack(&values);
    assert!(packed.active_mask_low != 0);
    assert_eq!(packed.popcount(), 3);
}

#[test]
fn test_pnactivation512_bitwise() {
    let a = PNActivation512::pack(&[1, -1, 0, 1, -1]);
    let b = PNActivation512::pack(&[-1, 1, 1, 0, -1]);
    let _and_result = a.and(&b);
    let _xor_result = a.xor(&b);
    assert_eq!(a.popcount(), 4);
}

#[test]
fn test_xnor_popcount_1bit_debug() {
    let a: Vec<u8> = (0..32).map(|i| i as u8).collect();
    let b: Vec<u8> = (0..32).map(|i| (i * 3 + 7) as u8).collect();
    let mut got = vec![0u32; 32];
    simd::xnor_popcount_1bit(&a, &b, &mut got, 256);
    for i in 0..32 {
        let expected = (!a[i] ^ b[i]).count_ones();
        assert_eq!(got[i], expected, "mismatch at byte {}", i);
    }
}

#[test]
fn test_xnor_popcount_1bit() {
    let a: Vec<u8> = vec![0b1010_1010, 0b1111_0000];
    let b: Vec<u8> = vec![0b1000_1010, 0b1111_0000];
    let mut popcounts = vec![0u32; 2];
    simd::xnor_popcount_1bit(&a, &b, &mut popcounts, 16);
    assert_eq!(popcounts[0], 7);
    assert_eq!(popcounts[1], 8);
}

#[test]
fn test_xnor_popcount_1bit_various_sizes() {
    let mut rng = rand::thread_rng();
    for size in [1usize, 7, 8, 31, 32, 33, 64, 127, 128, 129, 256, 1000] {
        let n_bytes = size.div_ceil(8);
        let a: Vec<u8> = (0..n_bytes).map(|_| rng.gen::<u8>()).collect();
        let b: Vec<u8> = (0..n_bytes).map(|_| rng.gen::<u8>()).collect();
        let mut got = vec![0u32; n_bytes];
        simd::xnor_popcount_1bit(&a, &b, &mut got, size);

        for i in 0..n_bytes {
            let valid_bits = if i == n_bytes - 1 && size % 8 != 0 { size % 8 } else { 8 };
            let mask = if valid_bits == 8 { 0xFF } else { (1u32 << valid_bits) - 1 } as u8;
            let expected = ((!a[i] ^ b[i]) & mask).count_ones();
            assert_eq!(got[i], expected, "mismatch at byte {} for size {}", i, size);
        }
    }
}

fn expected_2bit(a: &[u8], b: &[u8], n: usize) -> Vec<u8> {
    let n_out = n.div_ceil(8);
    let mut out = vec![0u8; n_out];
    for i in 0..n {
        let shift = (i % 4) * 2;
        let bits_a = (a[i / 4] >> shift) & 0x03;
        let bits_b = (b[i / 4] >> shift) & 0x03;
        let w_a = match bits_a {
            0x01 => 1.0f32,
            0x02 => -1.0f32,
            _ => 0.0f32,
        };
        let w_b = match bits_b {
            0x01 => 1.0f32,
            0x02 => -1.0f32,
            _ => 0.0f32,
        };
        if w_a * w_b > 0.0 {
            out[i / 8] |= 1 << (i % 8);
        }
    }
    out
}

#[test]
fn test_xnor_popcount_2bit_basic() {
    let a: Vec<u8> = vec![0b01_10_01_10];
    let b: Vec<u8> = vec![0b01_10_10_01];
    let n = 4;
    let mut out = vec![0u8; 1];
    simd::xnor_popcount_2bit(&a, &b, &mut out, n);
    let expected = expected_2bit(&a, &b, n);
    assert_eq!(out, expected);
}

#[test]
fn test_xnor_popcount_2bit_various_sizes() {
    let mut rng = rand::thread_rng();
    for size in [1usize, 7, 8, 31, 32, 33, 64, 127, 128, 129, 256, 1000] {
        let n_packed = size.div_ceil(4);
        let a: Vec<u8> = (0..n_packed).map(|_| rng.gen::<u8>()).collect();
        let b: Vec<u8> = (0..n_packed).map(|_| rng.gen::<u8>()).collect();
        let mut got = vec![0u8; size.div_ceil(8)];
        simd::xnor_popcount_2bit(&a, &b, &mut got, size);
        let expected = expected_2bit(&a, &b, size);
        assert_eq!(got, expected, "mismatch for size {}", size);
    }
}

#[test]
fn counting_stops_where_sizes_end() {
    assert_eq!(checked_count(&[2, 3, 4]), Some(24));
    assert_eq!(checked_count(&[usize::MAX, 2]), None);
    assert_eq!(checked_count(&[usize::MAX, 2, 0]), Some(0));
    assert_eq!(checked_count(&[]), Some(1));
}

#[test]
fn a_tensor_can_be_tagged_for_a_device() {
    let t = tensor(&[1.0], &[1]).tagged(Device::Gpu { device_id: 3 });
    assert!(t.is_gpu());
    assert_eq!(t.device(), Device::Gpu { device_id: 3 });
    assert_eq!(at(&t, 0), 1.0);
}

#[test]
fn building_from_the_wrong_number_of_elements_is_refused() {
    let t = Tensor::try_from_slice(&bits(&[1.0, 2.0]), &[2]).ok().unwrap();
    assert_eq!(at(&t, 1), 2.0);
    assert!(Tensor::try_from_slice(&bits(&[1.0, 2.0]), &[3]).is_err());
    assert!(t.try_transpose().is_err());
    let m = tensor(&[1.0, 2.0, 3.0, 4.0], &[2, 2]);
    assert_eq!(at(&m.try_transpose().ok().unwrap(), 1), 3.0);
}

#[test]
fn sums_in_place_need_the_same_shape() {
    let mut t = tensor(&[1.0, 2.0], &[2]);
    assert!(t.add_assign(&tensor(&[0.5, 0.25], &[2]), plus).is_ok());
    assert_eq!(at(&t, 0), 1.5);
    assert_eq!(at(&t, 1), 2.25);
    assert!(t.add_assign(&tensor(&[1.0], &[1]), plus).is_err());
}

#[test]
fn bytes_can_be_written_through() {
    let mut t = Tensor::on_device(&[1], DType::F32, Device::Gpu { device_id: 2 });
    assert!(t.is_gpu());
    t.data_mut().copy_from_slice(&3.5f32.to_le_bytes());
    assert_eq!(at(&t, 0), 3.5);
    assert_eq!(DType::F32.size_in_bytes(), 4);
    assert_eq!(DType::BIT1.size_in_bytes(), 1);
}

#[test]
fn a_second_conversion_to_floats_changes_nothing() {
    let signs = tensor(&[0.5, -2.0, 3.0], &[3]).to_bit1();
    let once = signs.to_f32();
    assert_eq!((at(&once, 0), at(&once, 1), at(&once, 2)), (1.0, -1.0, 1.0));
    let twice = once.to_f32();
    assert_eq!(twice.shape(), once.shape());
    assert!((0..3).all(|i| twice.get_flat_f32(i) == once.get_flat_f32(i)));
}

#[test]
fn sums_do_not_depend_on_the_order() {
    let a = tensor(&[1.0, 0.1, -3.5], &[3]);
    let b = tensor(&[2.0, 0.2, 8.25], &[3]);
    let c = a.add(&b, plus).unwrap();
    let d = b.add(&a, plus).unwrap();
    assert!((0..3).all(|i| c.get_flat_f32(i) == d.get_flat_f32(i)));
    assert_eq!(at(&c, 2), 4.75);
    let e = tensor(&[1.0], &[1]);
    assert!(a.add(&e, plus).is_err() && e.add(&a, plus).is_err());
}
