use hodu::bind::BindError;
use hodu::gguf::dequant::{f16_to_f32_bits, Decoded, DequantError};
use hodu::gguf::parse::{parse, GgufError, GgufScalar, GgufValue, MAGIC};
use hodu::gguf::{apply_gguf, load_gguf, GgufApplyError};
use hodu::model::{ModelSlot, SlotKind};

// A minimal little-endian GGUF writer, just enough to exercise the reader.
#[derive(Default)]
struct Builder {
    b: Vec<u8>,
}

impl Builder {
    fn u32(&mut self, x: u32) {
        self.b.extend(x.to_le_bytes());
    }
    fn u64(&mut self, x: u64) {
        self.b.extend(x.to_le_bytes());
    }
    fn str(&mut self, s: &str) {
        self.u64(s.len() as u64);
        self.b.extend(s.as_bytes());
    }
    fn kv_f32(&mut self, key: &str, x: f32) {
        self.str(key);
        self.u32(6);
        self.b.extend(x.to_le_bytes());
    }
    fn kv_str(&mut self, key: &str, val: &str) {
        self.str(key);
        self.u32(8);
        self.str(val);
    }
    fn kv_u32(&mut self, key: &str, x: u32) {
        self.str(key);
        self.u32(4);
        self.u32(x);
    }
    fn tensor_info(&mut self, name: &str, row_major: &[usize], ggml_type: u32, offset: u64) {
        self.str(name);
        self.u32(row_major.len() as u32);
        for &d in row_major.iter().rev() {
            self.u64(d as u64);
        }
        self.u32(ggml_type);
        self.u64(offset);
    }
    fn finish_aligned(mut self, align: usize, data: &[u8]) -> Vec<u8> {
        while self.b.len() % align != 0 {
            self.b.push(0);
        }
        self.b.extend(data);
        self.b
    }
    fn finish(self, data: &[u8]) -> Vec<u8> {
        self.finish_aligned(32, data)
    }
}

fn f16_to_f32(bits: u16) -> f32 {
    f32::from_bits(f16_to_f32_bits(bits))
}

fn values(d: &Decoded) -> Vec<f32> {
    match d {
        Decoded::F32(v) => v.iter().map(|&b| f32::from_bits(b)).collect(),
        Decoded::F16(v) => v.iter().map(|&b| f16_to_f32(b)).collect(),
        Decoded::Affine(v) => v
            .iter()
            .map(|l| (f16_to_f32(l.scale) * l.mult as f32) * l.q as f32 - f16_to_f32(l.min_scale) * l.min_mult as f32)
            .collect(),
    }
}

fn header(b: &mut Builder, tensors: u64, kvs: u64) {
    b.u32(MAGIC);
    b.u32(3);
    b.u64(tensors);
    b.u64(kvs);
}

// Header + one f32 KV + one string KV; an F32 tensor at data offset 0 and a Q8_0 tensor at 32.
fn sample() -> Vec<u8> {
    let mut bld = Builder::default();
    header(&mut bld, 2, 2);
    bld.kv_f32("answer", 42.0);
    bld.kv_str("general.name", "hodu-test");
    bld.tensor_info("mat", &[2, 3], 0, 0);
    bld.tensor_info("vec", &[32], 8, 32);
    let mut data = Vec::new();
    for i in 0..6u32 {
        data.extend((i as f32).to_le_bytes());
    }
    while data.len() < 32 {
        data.push(0);
    }
    data.extend([0x00, 0x3c]);
    data.extend((1..=32i8).map(|q| q as u8));
    bld.finish(&data)
}

fn slot(name: &str, kind: SlotKind, shape: &[usize]) -> ModelSlot {
    ModelSlot { name: name.to_string(), kind, shape: shape.to_vec() }
}

#[test]
fn load_parses_metadata_and_dequantizes() {
    let (meta, tensors) = load_gguf(&sample()).unwrap();
    assert_eq!(meta[0], ("answer".to_string(), GgufValue::Scalar(GgufScalar::F32(42.0f32.to_bits()))));
    assert_eq!(meta[1], ("general.name".to_string(), GgufValue::Scalar(GgufScalar::String("hodu-test".to_string()))));

    let mat = tensors.iter().find(|t| t.name == "mat").unwrap();
    assert_eq!(mat.shape, vec![2, 3]);
    assert_eq!(values(&mat.values), vec![0.0, 1.0, 2.0, 3.0, 4.0, 5.0]);
    let vec = tensors.iter().find(|t| t.name == "vec").unwrap();
    assert_eq!(vec.shape, vec![32]);
    assert_eq!(values(&vec.values), (1..=32).map(|i| i as f32).collect::<Vec<_>>());
}

#[test]
fn bad_magic_errs() {
    let bad = vec![0u8; 32];
    assert!(load_gguf(&bad).is_err(), "a non-GGUF file must Err");
    assert_eq!(load_gguf(&bad).err(), Some(GgufError::BadMagic));
}

#[test]
fn apply_warm_starts_linear_by_fqn() {
    let mut bld = Builder::default();
    header(&mut bld, 2, 0);
    bld.tensor_info("0", &[2, 3], 0, 0);
    bld.tensor_info("1", &[3], 0, 32);
    let w: Vec<f32> = (0..6).map(|i| i as f32 * 0.1).collect();
    let b = vec![1.0f32, 2.0, 3.0];
    let mut data = Vec::new();
    for x in &w {
        data.extend(x.to_le_bytes());
    }
    while data.len() < 32 {
        data.push(0);
    }
    for x in &b {
        data.extend(x.to_le_bytes());
    }
    let bytes = bld.finish(&data);

    let slots = vec![slot("0", SlotKind::Param, &[2, 3]), slot("1", SlotKind::Param, &[3])];
    let (tensors, _names, picks) = apply_gguf(&slots, &bytes, |s: &str| s.to_string()).unwrap();
    assert_eq!(values(&tensors[picks[0]].values), w, "weight must warm-start from the gguf tensor");
    assert_eq!(values(&tensors[picks[1]].values), b, "bias must warm-start from the gguf tensor");
}

#[test]
fn apply_is_strict_and_maps_names() {
    let mut bld = Builder::default();
    header(&mut bld, 1, 0);
    bld.tensor_info("blk.0.weight", &[2], 0, 0);
    let mut data = Vec::new();
    for x in [1.0f32, 2.0] {
        data.extend(x.to_le_bytes());
    }
    let bytes = bld.finish(&data);
    let slots = vec![slot("w", SlotKind::Param, &[2])];
    let map = |s: &str| if s == "blk.0.weight" { "w".to_string() } else { s.to_string() };
    let (_, names, picks) = apply_gguf(&slots, &bytes, map).unwrap();
    assert_eq!(names, vec!["w".to_string()]);
    assert_eq!(picks, vec![0]);
    // unmapped: the slot finds nothing.
    assert_eq!(
        apply_gguf(&slots, &bytes, |s: &str| s.to_string()).err(),
        Some(GgufApplyError::Bind(BindError::Missing { slot: 0 }))
    );
    // wrong shape.
    let wrong = vec![slot("w", SlotKind::Param, &[3])];
    assert_eq!(apply_gguf(&wrong, &bytes, map).err(), Some(GgufApplyError::Bind(BindError::ShapeMismatch { slot: 0, tensor: 0 })));
    // a tensor no slot takes.
    assert_eq!(apply_gguf(&[], &bytes, map).err(), Some(GgufApplyError::Bind(BindError::Unmatched { tensor: 0 })));
}

#[test]
fn header_errors_are_reported() {
    // version 1
    let mut bld = Builder::default();
    bld.u32(MAGIC);
    bld.u32(1);
    bld.u64(0);
    bld.u64(0);
    assert_eq!(load_gguf(&bld.b).err(), Some(GgufError::UnsupportedVersion(1)));
    // truncated header
    assert_eq!(load_gguf(&MAGIC.to_le_bytes()).err(), Some(GgufError::UnexpectedEof));
    // nested array
    let mut bld = Builder::default();
    header(&mut bld, 0, 1);
    bld.str("arr");
    bld.u32(9);
    bld.u32(9);
    assert_eq!(load_gguf(&bld.b).err(), Some(GgufError::NestedArray));
    // unknown value type
    let mut bld = Builder::default();
    header(&mut bld, 0, 1);
    bld.str("k");
    bld.u32(77);
    assert_eq!(load_gguf(&bld.b).err(), Some(GgufError::UnknownValueType(77)));
    // bad utf8 key
    let mut bld = Builder::default();
    header(&mut bld, 0, 1);
    bld.u64(1);
    bld.b.push(0xff);
    assert_eq!(load_gguf(&bld.b).err(), Some(GgufError::BadUtf8));
}

#[test]
fn arrays_and_scalars_decode() {
    let mut bld = Builder::default();
    header(&mut bld, 0, 3);
    bld.str("ints");
    bld.u32(9);
    bld.u32(5); // i32 elements
    bld.u64(2);
    bld.u32((-3i32) as u32);
    bld.u32(7);
    bld.str("empty_unknown");
    bld.u32(9);
    bld.u32(42); // an unknown element type with no elements reads fine
    bld.u64(0);
    bld.str("flag");
    bld.u32(7);
    bld.b.push(2);
    let bytes = bld.finish(&[]);
    let (meta, tensors) = load_gguf(&bytes).unwrap();
    assert!(tensors.is_empty());
    assert_eq!(meta[0].1, GgufValue::Array(vec![GgufScalar::I32(-3), GgufScalar::I32(7)]));
    assert_eq!(meta[1].1, GgufValue::Array(vec![]));
    assert_eq!(meta[2].1, GgufValue::Scalar(GgufScalar::Bool(true)));
}

#[test]
fn alignment_comes_from_metadata() {
    let mut bld = Builder::default();
    header(&mut bld, 1, 1);
    bld.kv_u32("general.alignment", 64);
    bld.tensor_info("t", &[1], 0, 0);
    let bytes = bld.finish_aligned(64, &2.5f32.to_le_bytes());
    let (_, tensors) = load_gguf(&bytes).unwrap();
    assert_eq!(values(&tensors[0].values), vec![2.5]);
}

#[test]
fn tensor_errors_name_the_tensor() {
    // offset past the end of the file
    let mut bld = Builder::default();
    header(&mut bld, 1, 0);
    bld.tensor_info("t", &[1], 0, 1000);
    let bytes = bld.finish(&[0u8; 4]);
    assert_eq!(load_gguf(&bytes).err(), Some(GgufError::OffsetPastEof { tensor: 0 }));
    // data too short for the type
    let mut bld = Builder::default();
    header(&mut bld, 1, 0);
    bld.tensor_info("t", &[2], 0, 0);
    let bytes = bld.finish(&[0u8; 4]);
    assert_eq!(
        load_gguf(&bytes).err(),
        Some(GgufError::Undecodable { tensor: 0, reason: DequantError::Truncated { ggml_type: 0 } })
    );
    // element count overflows
    let mut bld = Builder::default();
    header(&mut bld, 1, 0);
    bld.str("t");
    bld.u32(2);
    bld.u64(u64::MAX);
    bld.u64(u64::MAX);
    bld.u32(0);
    bld.u64(0);
    let bytes = bld.finish(&[]);
    assert_eq!(load_gguf(&bytes).err(), Some(GgufError::TooLarge { tensor: 0 }));
}

#[test]
fn data_section_past_eof_errs() {
    let mut bld = Builder::default();
    header(&mut bld, 0, 1);
    bld.kv_u32("general.alignment", 4096);
    assert_eq!(load_gguf(&bld.b).err(), Some(GgufError::DataPastEof));
}

#[test]
fn parse_returns_the_aligned_data_start() {
    // A bare 24-byte header: the data section starts at the next multiple of 32.
    let mut bld = Builder::default();
    header(&mut bld, 0, 0);
    assert_eq!(bld.b.len(), 24);
    let (meta, infos, start) = parse(&bld.b).unwrap();
    assert!(meta.is_empty() && infos.is_empty());
    assert_eq!(start, 32);

    // general.alignment = 64 moves the start to the next multiple of 64.
    let mut bld = Builder::default();
    header(&mut bld, 1, 1);
    bld.kv_u32("general.alignment", 64);
    bld.tensor_info("w", &[2], 0, 0);
    let end = bld.b.len();
    let (meta, infos, start) = parse(&bld.b).unwrap();
    assert_eq!(meta.len(), 1);
    assert_eq!(infos.len(), 1);
    assert_eq!(start, end.div_ceil(64) * 64);
    assert_eq!(start % 64, 0);
    assert!(start >= end && start < end + 64);

    // An alignment of 0 counts as 1: the data starts right after the directory.
    let mut bld = Builder::default();
    header(&mut bld, 0, 1);
    bld.kv_u32("general.alignment", 0);
    let end = bld.b.len();
    assert_eq!(parse(&bld.b).unwrap().2, end);

    // A directory that ends on a boundary needs no padding.
    let mut bld = Builder::default();
    header(&mut bld, 0, 1);
    bld.kv_u32("general.alignment", 3);
    let end = bld.b.len();
    assert_eq!(end, 57);
    assert_eq!(parse(&bld.b).unwrap().2, 57);
}
