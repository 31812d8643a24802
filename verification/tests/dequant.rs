use hodu::gguf::dequant::{dequant, f16_to_f32_bits, ggml_type_name, Decoded, DequantError, Lane};

fn f16_to_f32(bits: u16) -> f32 {
    f32::from_bits(f16_to_f32_bits(bits))
}

fn lane_value(l: &Lane) -> f32 {
    (f16_to_f32(l.scale) * l.mult as f32) * l.q as f32 - f16_to_f32(l.min_scale) * l.min_mult as f32
}

fn values(d: Decoded) -> Vec<f32> {
    match d {
        Decoded::F32(v) => v.into_iter().map(f32::from_bits).collect(),
        Decoded::F16(v) => v.into_iter().map(f16_to_f32).collect(),
        Decoded::Affine(v) => v.iter().map(lane_value).collect(),
    }
}

fn deq(ty: u32, data: &[u8], n: usize) -> Result<Vec<f32>, DequantError> {
    dequant(ty, data, n).map(values)
}

fn hex(s: &str) -> Vec<u8> {
    (0..s.len()).step_by(2).map(|i| u8::from_str_radix(&s[i..i + 2], 16).unwrap()).collect()
}

fn assert_close(got: &[f32], want: &[f32]) {
    assert_eq!(got.len(), want.len());
    for (i, (&g, &w)) in got.iter().zip(want).enumerate() {
        assert!((g - w).abs() <= 1e-5, "idx {i}: got {g}, want {w}");
    }
}

const Q5_0_HEX: &str = "94a6e9b5da145109eb694f4c252360dd38e6d53a1a99";
const Q5_0_WANT: [f32; 16] = [
    -0.025696, 0.179871, 0.128479, -0.231262, 0.025696, -0.30835, -0.128479, -0.077087, -0.0, 0.077087, -0.205566,
    0.256958, -0.128479, -0.256958, 0.154175, -0.231262,
];
const Q4_K_HEX: &str = "1814c220ebaef9f3a4aab6f08145edff966bacaea8b99b8c61cc66a28936b6375e87bf6acb2179dc01e9a9829baa50559c6767f7a9088ee6a99fbb66f9c1ca5059adb9766619574caaa35a98f66e39abc547bfe8858403d5ba3d6bc65a86a807028ae5a6908b8bd87ba847c688656e96c7a5a9e585a85486a982f844b3d7c85a48d578c9d408836659b8d08ea897a784";
const Q4_K_WANT: [f32; 16] = [
    -0.076675, 0.138206, 0.181183, 0.267136, 0.009277, 0.052254, 0.138206, 0.181183, -0.291557, 0.181183, -0.076675,
    -0.248581, 0.052254, -0.076675, -0.076675, -0.033699,
];
const Q6_K_HEX: &str = "196ede1954181be3ec3adcf16cefec907c4d8d045f7b8e12a5f70c2e71d270a2800e5406f9460b966e9021a5b47ecaa020b2abf9a3db41035b5bbde5420eabec94f006d6d064b4e04de1ddf765c50301c3e143169f86ffb10649b65f76b8064256587004c7be82b43116e5f3d1e444b93402fb8978cdd2b400cfc1f0a271768e8ba8c5a72a6b19b5643596a79640c640a2ea990aa5759df95a86e9a9641d9a123898aa1698e5e205aa69545a1aab8eb092296b66505a98448cb56711675e9563d48045cbd455cec929c049e2c5412855e80d";
const Q6_K_WANT: [f32; 16] = [
    -0.396538, 0.285507, 0.031723, -0.396538, -0.063446, -0.380676, 0.079308, 0.2062, 0.31723, 0.095169, -0.190338,
    -0.269646, -0.190338, 0.269646, -0.190338, 0.507568,
];

fn q8_0_case() {
    let mut data = vec![0x00u8, 0x3c];
    data.extend((1..=32i8).map(|q| q as u8));
    let got = deq(8, &data, 32).unwrap();
    let want: Vec<f32> = (1..=32).map(|i| i as f32).collect();
    assert_eq!(got, want);
}

fn q4_0_case() {
    let mut data = vec![0x00u8, 0x40];
    data.extend(0u8..16);
    let got = deq(2, &data, 32).unwrap();
    let mut want = vec![0f32; 32];
    for j in 0..16 {
        want[j] = 2.0 * (j as f32 - 8.0);
        want[j + 16] = -16.0;
    }
    assert_eq!(got, want);
}

fn f16_case() {
    let data = [0x00u8, 0x3c, 0x00, 0xc0];
    assert_eq!(deq(1, &data, 2).unwrap(), vec![1.0, -2.0]);
}

#[test]
fn dequant_q8_0_block() {
    q8_0_case();
}

#[test]
fn dequant_q4_0_block() {
    q4_0_case();
}

#[test]
fn dequant_f16_tensor() {
    f16_case();
}

#[test]
fn linear_q8_0_block() {
    q8_0_case();
}

#[test]
fn linear_q4_0_block() {
    q4_0_case();
}

#[test]
fn linear_f16_tensor() {
    f16_case();
}

#[test]
fn k_quant_errs_by_name() {
    // Q5_K (13) is still undecoded; it must fail loud, naming the type.
    let e = dequant(13, &[0u8; 64], 32).err().unwrap();
    assert!(e.to_string().contains("Q5_K"), "unsupported quant error must name the type: {e:?}");
}

#[test]
fn dequant_error_messages() {
    assert_eq!(ggml_type_name(13), "Q5_K");
    assert_eq!(DequantError::Unsupported { ggml_type: 13 }.to_string(), "gguf: ggml type 13 (Q5_K) not supported");
    assert_eq!(DequantError::Unsupported { ggml_type: 1234567 }.to_string(), "gguf: ggml type 1234567 (unknown) not supported");
    assert_eq!(
        DequantError::NotBlocked { ggml_type: 8, n: 16 }.to_string(),
        "gguf: Q8_0 tensor len 16 is not a multiple of the 32-element block"
    );
    assert_eq!(
        DequantError::NotBlocked { ggml_type: 14, n: 300 }.to_string(),
        "gguf: Q6_K tensor len 300 is not a multiple of the 256-element block"
    );
    assert_eq!(DequantError::Truncated { ggml_type: 0 }.to_string(), "gguf: F32 tensor truncated");
    assert_eq!(dequant(0, &[0u8; 7], 2).err().unwrap().to_string(), "gguf: F32 tensor truncated");
}

#[test]
fn dequant_q5_0_llama_bytes() {
    let got = deq(6, &hex(Q5_0_HEX), 32).unwrap();
    assert_close(&got[..16], &Q5_0_WANT);
}

#[test]
fn linear_q5_0_llama_bytes() {
    let got = deq(6, &hex(Q5_0_HEX), 32).unwrap();
    assert_close(&got[..16], &Q5_0_WANT);
}

#[test]
fn dequant_q4_k_llama_bytes() {
    let got = deq(12, &hex(Q4_K_HEX), 256).unwrap();
    assert_close(&got[..16], &Q4_K_WANT);
}

#[test]
fn kquant_q4_k_llama_bytes() {
    let got = deq(12, &hex(Q4_K_HEX), 256).unwrap();
    assert_close(&got[..16], &Q4_K_WANT);
}

#[test]
fn dequant_q6_k_llama_bytes() {
    let got = deq(14, &hex(Q6_K_HEX), 256).unwrap();
    assert_close(&got[..16], &Q6_K_WANT);
}

#[test]
fn kquant_q6_k_llama_bytes() {
    let got = deq(14, &hex(Q6_K_HEX), 256).unwrap();
    assert_close(&got[..16], &Q6_K_WANT);
}

#[test]
fn truncated_and_unaligned_err() {
    assert!(dequant(8, &[0u8; 10], 32).is_err(), "short Q8_0 buffer must Err");
    assert!(dequant(8, &[0u8; 34], 16).is_err(), "non-multiple-of-32 Q8_0 must Err");
}

#[test]
fn error_variants_name_the_case() {
    assert_eq!(dequant(8, &[0u8; 10], 32).err(), Some(DequantError::Truncated { ggml_type: 8 }));
    assert_eq!(dequant(8, &[0u8; 34], 16).err(), Some(DequantError::NotBlocked { ggml_type: 8, n: 16 }));
    assert_eq!(dequant(3, &[0u8; 64], 32).err(), Some(DequantError::Unsupported { ggml_type: 3 }));
    assert_eq!(dequant(0, &[0u8; 7], 2).err(), Some(DequantError::Truncated { ggml_type: 0 }));
    assert_eq!(dequant(1, &[0u8; 3], 2).err(), Some(DequantError::Truncated { ggml_type: 1 }));
    assert_eq!(dequant(14, &[0u8; 209], 256).err(), Some(DequantError::Truncated { ggml_type: 14 }));
}

#[test]
fn q8_0_lanes_are_exact() {
    let mut data = vec![0x00u8, 0x3c];
    data.extend((1..=32i8).map(|q| (-q) as u8));
    match dequant(8, &data, 32).unwrap() {
        Decoded::Affine(v) => {
            assert_eq!(v.len(), 32);
            assert_eq!(v[0], Lane { scale: 0x3c00, mult: 1, q: -1, min_scale: 0, min_mult: 0 });
            assert_eq!(v[31].q, -32);
        }
        _ => panic!("Q8_0 must unpack to lanes"),
    }
}

#[test]
fn q5_0_high_bits_come_from_qh() {
    // d = 1.0, qh with only bit 17 set, all nibbles 0: element 17 is 16 - 16 = 0, the rest -16.
    let mut data = vec![0x00u8, 0x3c];
    data.extend(0x0002_0000u32.to_le_bytes());
    data.extend([0u8; 16]);
    let got = deq(6, &data, 32).unwrap();
    for (k, x) in got.iter().enumerate() {
        assert_eq!(*x, if k == 17 { 0.0 } else { -16.0 }, "element {k}");
    }
}

#[test]
fn f32_tensor_keeps_bits() {
    let mut data = Vec::new();
    for x in [1.5f32, -0.25, 3.0] {
        data.extend(x.to_le_bytes());
    }
    data.push(0xff); // a trailing byte past the tensor is ignored
    assert_eq!(deq(0, &data, 3).unwrap(), vec![1.5, -0.25, 3.0]);
    assert_eq!(deq(0, &data, 0).unwrap(), Vec::<f32>::new());
}

#[test]
fn type_names_cover_the_table() {
    assert_eq!(ggml_type_name(0), "F32");
    assert_eq!(ggml_type_name(8), "Q8_0");
    assert_eq!(ggml_type_name(12), "Q4_K");
    assert_eq!(ggml_type_name(15), "Q8_K");
    assert_eq!(ggml_type_name(99), "unknown");
}

#[test]
fn f16_one() {
    assert_eq!(f16_to_f32(0x3c00), 1.0); // 0x3C00 is the half bit-pattern for 1.0
    assert_eq!(f16_to_f32(0x0000), 0.0);
    assert_eq!(f16_to_f32(0xc000), -2.0); // sign + exp for -2.0
}

#[test]
fn f16_edges_widen_exactly() {
    assert_eq!(f16_to_f32(0x0001), 2f32.powi(-24)); // least subnormal
    assert_eq!(f16_to_f32(0x03ff), 1023.0 * 2f32.powi(-24)); // greatest subnormal
    assert_eq!(f16_to_f32(0x0400), 2f32.powi(-14)); // least normal
    assert_eq!(f16_to_f32(0x7bff), 65504.0); // greatest finite
    assert_eq!(f16_to_f32(0x8000).to_bits(), 0x8000_0000); // -0.0
    assert_eq!(f16_to_f32(0x7c00), f32::INFINITY);
    assert_eq!(f16_to_f32(0xfc00), f32::NEG_INFINITY);
    assert!(f16_to_f32(0x7e00).is_nan());
    assert_eq!(f16_to_f32_bits(0x3555), 0x3eaa_a000);
}
