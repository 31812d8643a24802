use hodu::bind::BindError;
use hodu::frontend::DType;
use hodu::model::{ModelSlot, SlotKind};
use hodu::st_import::{apply_safetensors, load_safetensors, map_dtype, StApplyError, StError};
use safetensors::tensor::TensorView;
use safetensors::Dtype;

fn f32_le(v: &[f32]) -> Vec<u8> {
    v.iter().flat_map(|x| x.to_le_bytes()).collect()
}

fn le_f32(b: &[u8]) -> Vec<f32> {
    b.chunks_exact(4).map(|c| f32::from_le_bytes([c[0], c[1], c[2], c[3]])).collect()
}

// Serialize f32 tensors as a real .safetensors via the crate (the export path).
fn write_f32(tensors: &[(String, Vec<usize>, Vec<f32>)]) -> Vec<u8> {
    let bufs: Vec<Vec<u8>> = tensors.iter().map(|(_, _, v)| f32_le(v)).collect();
    let views: Vec<(String, TensorView)> = tensors
        .iter()
        .zip(&bufs)
        .map(|((n, shape, _), b)| (n.clone(), TensorView::new(Dtype::F32, shape.clone(), b).unwrap()))
        .collect();
    safetensors::serialize(views, None).unwrap()
}

fn slot(name: &str, shape: &[usize]) -> ModelSlot {
    ModelSlot { name: name.to_string(), kind: SlotKind::Param, shape: shape.to_vec() }
}

// An MLP's params: Linear(3,4) -> Linear(4,2), as (fqn, shape, values).
fn mlp_rows(seed: f32) -> Vec<(String, Vec<usize>, Vec<f32>)> {
    [("0.0", vec![3, 4]), ("0.1", vec![4]), ("2.0", vec![4, 2]), ("2.1", vec![2])]
        .into_iter()
        .map(|(n, s)| {
            let k: usize = s.iter().product();
            (n.to_string(), s, (0..k).map(|i| seed + i as f32 * 0.5).collect())
        })
        .collect()
}

fn mlp_slots() -> Vec<ModelSlot> {
    mlp_rows(0.0).iter().map(|(n, s, _)| slot(n, s)).collect()
}

#[test]
fn apply_reproduces_weights() {
    let rows = mlp_rows(1.0);
    let bytes = write_f32(&rows);
    let slots = mlp_slots();
    let (tensors, _names, picks) = apply_safetensors(&slots, &bytes, |s: &str| s.to_string()).unwrap();
    for (k, (_, _, want)) in rows.iter().enumerate() {
        let t = &tensors[picks[k]];
        assert_eq!(t.dtype, DType::F32);
        assert_eq!(le_f32(&t.data), *want, "applied weights must reproduce the source model");
    }
}

#[test]
fn name_map_remaps_hf_names() {
    let named = vec![
        ("dense.kernel".to_string(), vec![3, 2], vec![0.5f32, 1.0, 1.5, 2.0, 2.5, 3.0]),
        ("dense.bias".to_string(), vec![2], vec![-1.0f32, 1.0]),
    ];
    let bytes = write_f32(&named);
    let slots = vec![slot("0", &[3, 2]), slot("1", &[2])];
    let map = |s: &str| match s {
        "dense.kernel" => "0".to_string(),
        "dense.bias" => "1".to_string(),
        other => other.to_string(),
    };
    let (tensors, _names, picks) = apply_safetensors(&slots, &bytes, map).unwrap();
    let got: Vec<f32> = picks.iter().flat_map(|&i| le_f32(&tensors[i].data)).collect();
    let src_vals: Vec<f32> = named.iter().flat_map(|(_, _, v)| v.clone()).collect();
    assert_eq!(got, src_vals, "name_map must bind HF names to the model FQNs");
}

#[test]
fn apply_is_strict() {
    let slots = mlp_slots();
    let mut rows = mlp_rows(0.0);
    // missing a required model tensor -> Err.
    let bytes = write_f32(&rows[..rows.len() - 1]);
    let r = apply_safetensors(&slots, &bytes, |s: &str| s.to_string());
    assert!(r.is_err(), "a missing model tensor must Err");
    assert!(matches!(r, Err(StApplyError::Bind(BindError::Missing { slot: 3 }))));
    // an extra file tensor that maps to nothing -> Err.
    rows.push(("junk".to_string(), vec![2], vec![1.0, 2.0]));
    let bytes = write_f32(&rows);
    let r = apply_safetensors(&slots, &bytes, |s: &str| s.to_string());
    assert!(r.is_err(), "an unmatched file tensor must Err");
    assert!(matches!(r, Err(StApplyError::Bind(BindError::Unmatched { .. }))));
}

#[test]
fn load_keeps_native_dtypes_and_bytes() {
    let a = [1u8, 2, 3, 4];
    let b: Vec<u8> = [7i64, -1].iter().flat_map(|x| x.to_le_bytes()).collect();
    let views = vec![
        ("a".to_string(), TensorView::new(Dtype::U8, vec![2, 2], &a).unwrap()),
        ("b".to_string(), TensorView::new(Dtype::I64, vec![2], &b).unwrap()),
    ];
    let bytes = safetensors::serialize(views, None).unwrap();
    let mut got = load_safetensors(&bytes).unwrap();
    got.sort_by(|x, y| x.name.cmp(&y.name));
    assert_eq!(got.len(), 2);
    assert_eq!((got[0].name.as_str(), got[0].dtype, got[0].shape.clone(), got[0].data.clone()), ("a", DType::U8, vec![2, 2], a.to_vec()));
    assert_eq!((got[1].name.as_str(), got[1].dtype, got[1].shape.clone(), got[1].data.clone()), ("b", DType::I64, vec![2], b));
}

#[test]
fn unsupported_dtype_and_bad_file_err() {
    let a = [0u8; 2];
    let views = vec![("fp8".to_string(), TensorView::new(Dtype::F8_E4M3, vec![2], &a).unwrap())];
    let bytes = safetensors::serialize(views, None).unwrap();
    match load_safetensors(&bytes) {
        Err(StError::UnsupportedDtype { name }) => assert_eq!(name, "fp8"),
        other => panic!("expected an unsupported dtype, got {other:?}"),
    }
    assert!(matches!(load_safetensors(&[1, 2, 3]), Err(StError::Format(_))));
    assert!(matches!(
        apply_safetensors(&[], &[1, 2, 3], |s: &str| s.to_string()),
        Err(StApplyError::Load(StError::Format(_)))
    ));
}

#[test]
fn dtype_names_map() {
    assert_eq!(map_dtype("BF16"), Some(DType::BF16));
    assert_eq!(map_dtype("BOOL"), Some(DType::BOOL));
    assert_eq!(map_dtype("U64"), Some(DType::U64));
    assert_eq!(map_dtype("C64"), None);
    assert_eq!(map_dtype("F4"), None);
}

// A file whose header is `json`, followed by `data`.
fn raw_file(json: &str, data: &[u8]) -> Vec<u8> {
    let mut b = (json.len() as u64).to_le_bytes().to_vec();
    b.extend(json.as_bytes());
    b.extend(data);
    b
}

#[test]
fn oversized_offsets_are_refused_without_panicking() {
    // Eight U8 tensors of 2^61 - 1 elements each, laid end to end: the declared data ends at
    // usize::MAX - 7, so adding the header length would overflow.
    let size: u64 = (1u64 << 61) - 1;
    let parts: Vec<String> = (0..8u64)
        .map(|k| format!("\"t{k}\":{{\"dtype\":\"U8\",\"shape\":[{size}],\"data_offsets\":[{},{}]}}", k * size, (k + 1) * size))
        .collect();
    let bytes = raw_file(&format!("{{{}}}", parts.join(",")), &[]);
    assert!(matches!(load_safetensors(&bytes), Err(StError::NumberTooLarge)));
    let slots = vec![slot("t0", &[1])];
    assert!(matches!(
        apply_safetensors(&slots, &bytes, |s: &str| s.to_string()),
        Err(StApplyError::Load(StError::NumberTooLarge))
    ));
}

#[test]
fn long_digit_runs_inside_names_are_read() {
    // Digits inside strings (here after an escaped quote) are no numbers of the header.
    let name = "w\"123456789012345678901234567890".to_string();
    let bytes = write_f32(&[(name.clone(), vec![2], vec![1.0, 2.0])]);
    let t = load_safetensors(&bytes).unwrap();
    assert_eq!(t.len(), 1);
    assert_eq!(t[0].name, name);
    assert_eq!(le_f32(&t[0].data), vec![1.0, 2.0]);
    // The same digits as a number are refused.
    let json = "{\"x\":{\"dtype\":\"U8\",\"shape\":[123456789012345678901234567890],\"data_offsets\":[0,0]}}";
    assert!(matches!(load_safetensors(&raw_file(json, &[])), Err(StError::NumberTooLarge)));
    // Small numbers pass the check and reach the crate.
    let json = "{\"x\":{\"dtype\":\"U8\",\"shape\":[2],\"data_offsets\":[0,2]}}";
    let t = load_safetensors(&raw_file(json, &[7, 9])).unwrap();
    assert_eq!((t[0].shape.clone(), t[0].data.clone()), (vec![2], vec![7, 9]));
    // A header that says it is longer than the file is the crate's to refuse.
    assert!(matches!(load_safetensors(&[200, 0, 0, 0, 0, 0, 0, 0, b'{']), Err(StError::Format(_))));
}
