use hodu::container::{
    align_up, index_container, meta, payload_span, read_container, read_descriptors, read_meta, read_str, write_container,
    write_descriptors, ContainerError,
    Entry, QuantDescriptor, DT_F32, DT_U8, K_BUFFER, K_OPTIM, K_PARAM, K_QBUFFER, REGION_ALIGN,
};
use hodu::model::{apply_to_model, bytes_to_words, kind_name, model_entries, words_to_bytes, ModelError, ModelSlot, SlotKind};

fn f32_bytes(v: &[f32]) -> Vec<u8> {
    let bits: Vec<u32> = v.iter().map(|x| x.to_bits()).collect();
    words_to_bytes(&bits)
}

fn bytes_f32(b: &[u8]) -> Vec<f32> {
    bytes_to_words(b).into_iter().map(f32::from_bits).collect()
}

fn slot(name: &str, kind: SlotKind, shape: &[usize]) -> ModelSlot {
    ModelSlot { name: name.to_string(), kind, shape: shape.to_vec() }
}

fn entry(name: &str, kind: u8, dtype: u8, shape: &[usize], data: Vec<u8>) -> Entry {
    Entry { name: name.to_string(), kind, dtype, shape: shape.to_vec(), data }
}

// An MLP's slots (Linear(3,4) -> Linear(4,2)) and a payload for each.
fn mlp(seed: f32) -> (Vec<ModelSlot>, Vec<Vec<u8>>) {
    let slots = vec![
        slot("0.0", SlotKind::Param, &[3, 4]),
        slot("0.1", SlotKind::Param, &[4]),
        slot("2.0", SlotKind::Param, &[4, 2]),
        slot("2.1", SlotKind::Param, &[2]),
    ];
    let data = slots
        .iter()
        .map(|s| {
            let n: usize = s.shape.iter().product();
            f32_bytes(&(0..n).map(|i| seed + i as f32 * 0.25).collect::<Vec<_>>())
        })
        .collect();
    (slots, data)
}

fn save(slots: &[ModelSlot], data: &[Vec<u8>]) -> Vec<u8> {
    let m = meta();
    write_container(&m, &model_entries(slots, data), &[], &[]).unwrap()
}

#[test]
fn hodu_save_load_round_trip() {
    let (slots, trained) = mlp(0.5);
    let file = save(&slots, &trained);
    let (rows, ds, graph) = read_container(&file).unwrap();
    assert!(ds.is_empty() && graph.is_empty());
    let loaded = apply_to_model(&rows, &slots).unwrap();
    assert_eq!(loaded, trained, "loaded weights must reproduce the saved model exactly");
    assert_eq!(bytes_f32(&loaded[1]), vec![0.5, 0.75, 1.0, 1.25]);
}

#[test]
fn load_rejects_mismatched_architecture() {
    let (slots, data) = mlp(0.0);
    let file = save(&slots, &data);
    let (rows, _, _) = read_container(&file).unwrap();
    let wrong = vec![slot("0.0", SlotKind::Param, &[3, 8])];
    assert!(apply_to_model(&rows, &wrong).is_err(), "name/shape mismatch must error, not silently corrupt");
    assert_eq!(apply_to_model(&rows, &wrong), Err(ModelError::ShapeMismatch { slot: 0, row: 0 }));
}

#[test]
fn batchnorm_running_stats_survive_round_trip() {
    let slots = vec![
        slot("0.0", SlotKind::Param, &[2]),
        slot("1.running_mean", SlotKind::Buffer, &[2]),
        slot("1.running_var", SlotKind::Buffer, &[2]),
    ];
    let data = vec![f32_bytes(&[1.0, 2.0]), f32_bytes(&[0.25, -0.5]), f32_bytes(&[1.5, 2.5])];
    let file = save(&slots, &data);
    let (rows, _, _) = read_container(&file).unwrap();
    assert_eq!(rows[1].kind, K_BUFFER);
    assert_eq!(apply_to_model(&rows, &slots).unwrap(), data);
    // a model that lacks the buffers refuses the file rather than dropping them.
    assert_eq!(apply_to_model(&rows, &slots[..1]), Err(ModelError::Unmatched { row: 1 }));
}

#[test]
fn checkpoint_missing_or_mismatched_optim_errors() {
    // optimizer rows are left to the caller: a model load ignores them.
    let (slots, data) = mlp(1.0);
    let mut rows = model_entries(&slots, &data);
    rows.push(entry("adam.m.0", K_OPTIM, DT_F32, &[3, 4], vec![0u8; 48]));
    let file = write_container(&meta(), &rows, &[], &[]).unwrap();
    let (back, _, _) = read_container(&file).unwrap();
    assert_eq!(back, rows);
    assert_eq!(apply_to_model(&back, &slots).unwrap(), data);
    // a missing weight is reported by slot.
    let more = vec![slots[0].clone(), slot("9.9", SlotKind::Param, &[1])];
    assert_eq!(apply_to_model(&back, &more), Err(ModelError::Missing { slot: 1 }));
}

#[test]
fn quant_byte_buffer_survives_custom_container() {
    let slots = vec![slot("0.qweight", SlotKind::ByteBuffer, &[2, 2]), slot("0.scales", SlotKind::Param, &[1])];
    let data = vec![vec![0x12u8, 0x34, 0x56, 0x78], f32_bytes(&[0.125])];
    let desc = QuantDescriptor {
        weight_fqn: "0.qweight".to_string(),
        bits: 4,
        group_size: 32,
        symmetric: true,
        scales_fqn: "0.scales".to_string(),
        mins_fqn: None,
    };
    let rows = model_entries(&slots, &data);
    assert_eq!(rows[0].kind, K_QBUFFER);
    assert_eq!(rows[0].dtype, DT_U8);
    let file = write_container(&meta(), &rows, &[desc.clone()], &[]).unwrap();
    let (back, ds, _) = read_container(&file).unwrap();
    assert_eq!(ds, vec![desc]);
    assert_eq!(apply_to_model(&back, &slots).unwrap(), data);
    // a byte buffer stored as f32 is a dtype mismatch.
    let mut bad = back.clone();
    bad[0].dtype = DT_F32;
    assert_eq!(apply_to_model(&bad, &slots), Err(ModelError::DtypeMismatch { slot: 0, row: 0 }));
}

#[test]
fn container_layout_and_graph_blob() {
    let rows = vec![
        entry("a", K_PARAM, DT_F32, &[1], vec![1, 2, 3, 4]),
        entry("b", K_PARAM, DT_U8, &[3], vec![9, 8, 7]),
    ];
    let desc = QuantDescriptor {
        weight_fqn: "b".to_string(),
        bits: 8,
        group_size: 3,
        symmetric: false,
        scales_fqn: "a".to_string(),
        mins_fqn: Some("m".to_string()),
    };
    let file = write_container(&[("format", "hodu")], &rows, &[desc.clone()], &[5, 6, 7]).unwrap();
    assert_eq!(&file[..4], b"HODU");
    assert_eq!(u32::from_le_bytes([file[4], file[5], file[6], file[7]]), 3);
    assert_eq!(file.len() % 64, 3); // the data region starts page-aligned; "b" sits 64 bytes in
    let (back, ds, graph) = read_container(&file).unwrap();
    assert_eq!(back, rows);
    assert_eq!(ds, vec![desc]);
    assert_eq!(graph, vec![5, 6, 7]);

    let (metas, _, g, end) = read_meta(&file).unwrap();
    assert_eq!(g, vec![5, 6, 7]);
    assert_eq!(metas[1].offset, 64);
    let ix = index_container(&file).unwrap();
    assert_eq!(ix.region_base, align_up(end as u64, REGION_ALIGN));
    assert_eq!(ix.region_base % 4096, 0);
    let (s, e) = payload_span(&ix, 1, file.len()).unwrap();
    assert_eq!(&file[s..e], &[9, 8, 7]);
    assert_eq!(payload_span(&ix, 1, e - 1), None);
}

#[test]
fn container_read_errors() {
    assert_eq!(read_container(b"HOD"), Err(ContainerError::UnexpectedEof));
    assert_eq!(read_container(b"NOPE\x03\x00\x00\x00"), Err(ContainerError::BadMagic));
    assert_eq!(read_container(b"HODU\x02\x00\x00\x00"), Err(ContainerError::UnsupportedVersion(2)));
    let rows = vec![entry("a", K_PARAM, DT_F32, &[1], vec![0; 4])];
    let mut file = write_container(&[], &rows, &[], &[]).unwrap();
    // the dtype tag of row 0 sits after magic, version, meta count, row count, name.
    let tag_at = 4 + 4 + 4 + 4 + 4 + 1 + 1;
    file[tag_at] = 7;
    assert_eq!(read_container(&file), Err(ContainerError::UnsupportedDtype { row: 0, tag: 7 }));
    // a truncated data region
    let good = write_container(&[], &rows, &[], &[]).unwrap();
    assert_eq!(read_container(&good[..good.len() - 1]), Err(ContainerError::UnexpectedEof));
}

#[test]
fn strings_read_back_and_bad_utf8_errs() {
    let mut b = 3u32.to_le_bytes().to_vec();
    b.extend(b"abc");
    assert_eq!(read_str(&b, 0).unwrap(), ("abc".to_string(), 7));
    let mut bad = 1u32.to_le_bytes().to_vec();
    bad.push(0xff);
    assert_eq!(read_str(&bad, 0), Err(ContainerError::BadUtf8));
}

#[test]
fn meta_names_the_format() {
    let m = meta();
    assert_eq!(m, vec![("format", "hodu"), ("created_by", "hodu 0.1.0")]);
}

#[test]
fn kind_names_and_word_codec() {
    assert_eq!(kind_name(K_PARAM), "param");
    assert_eq!(kind_name(K_BUFFER), "buffer");
    assert_eq!(kind_name(K_OPTIM), "optim");
    assert_eq!(kind_name(K_QBUFFER), "byte-buffer");
    assert_eq!(kind_name(9), "unknown");
    let v = vec![0u32, 1, 0xdead_beef, u32::MAX];
    let b = words_to_bytes(&v);
    assert_eq!(&b[8..12], &[0xef, 0xbe, 0xad, 0xde]);
    assert_eq!(bytes_to_words(&b), v);
    assert_eq!(bytes_to_words(&b[..7]), vec![0]);
}

#[test]
fn repeated_names_load_in_order() {
    let slots = vec![slot("x", SlotKind::Param, &[1]), slot("x", SlotKind::Param, &[1])];
    let data = vec![f32_bytes(&[1.0]), f32_bytes(&[2.0])];
    let rows = model_entries(&slots, &data);
    assert_eq!(apply_to_model(&rows, &slots).unwrap(), data);
}

#[test]
fn unknown_descriptor_scheme_errs() {
    let desc = QuantDescriptor {
        weight_fqn: "w".to_string(),
        bits: 4,
        group_size: 32,
        symmetric: true,
        scales_fqn: "s".to_string(),
        mins_fqn: None,
    };
    let mut file = write_container(&[], &[], &[desc], &[]).unwrap();
    // magic, version, meta count, row count, descriptor count, then the weight name "w".
    let scheme_at = 4 + 4 + 4 + 4 + 4 + 4 + 1;
    assert_eq!(file[scheme_at], 0);
    file[scheme_at] = 1;
    assert_eq!(read_container(&file), Err(ContainerError::UnsupportedScheme { descriptor: 0, scheme: 1 }));
}

fn desc(w: &str, mins: Option<&str>) -> QuantDescriptor {
    QuantDescriptor {
        weight_fqn: w.to_string(),
        bits: 4,
        group_size: 32,
        symmetric: false,
        scales_fqn: format!("{w}.scales"),
        mins_fqn: mins.map(|m| m.to_string()),
    }
}

#[test]
fn descriptors_read_back_before_a_tail() {
    let ds = vec![desc("a", Some("a.mins")), desc("b", Some("")), desc("c", None)];
    let mut buf = vec![0xaa];
    write_descriptors(&mut buf, &ds);
    let end = buf.len();
    buf.extend([1, 2, 3, 4]);
    let (back, q) = read_descriptors(&buf, 1).unwrap();
    assert_eq!(q, end);
    let mut want = ds.clone();
    want[1].mins_fqn = None;
    assert_eq!(back, want);
    assert_eq!(read_descriptors(&buf, buf.len() - 2), Err(ContainerError::UnexpectedEof));
    assert_eq!(read_descriptors(&buf, buf.len() + 5), Err(ContainerError::UnexpectedEof));
}

#[test]
fn empty_mins_reads_back_as_none() {
    let rows = vec![entry("w", K_QBUFFER, DT_U8, &[2], vec![1, 2])];
    let file = write_container(&[], &rows, &[desc("w", Some("")), desc("v", Some("v.mins"))], &[]).unwrap();
    let (back, ds, graph) = read_container(&file).unwrap();
    assert_eq!(back, rows);
    assert_eq!(ds, vec![desc("w", None), desc("v", Some("v.mins"))]);
    assert!(graph.is_empty());
}

#[test]
fn metadata_reads_back_before_a_tail() {
    let rows = vec![
        entry("a", K_PARAM, DT_F32, &[2], vec![0; 8]),
        entry("b", K_BUFFER, DT_U8, &[1, 3], vec![7, 8, 9]),
    ];
    let ds = vec![desc("b", Some(""))];
    let file = write_container(&[("format", "hodu")], &rows, &ds, &[4, 2]).unwrap();
    let (_, _, _, end) = read_meta(&file).unwrap();
    let mut region = file[..end].to_vec();
    region.extend([0xff; 5]);
    let (metas, ds2, g, end2) = read_meta(&region).unwrap();
    assert_eq!(end2, end);
    assert_eq!(g, vec![4, 2]);
    assert_eq!(ds2, vec![desc("b", None)]);
    assert_eq!(metas.len(), 2);
    assert_eq!((metas[0].name.as_str(), metas[0].kind, metas[0].dtype), ("a", K_PARAM, DT_F32));
    assert_eq!((metas[0].shape.clone(), metas[0].offset, metas[0].nbytes), (vec![2], 0, 8));
    assert_eq!((metas[1].name.as_str(), metas[1].kind, metas[1].dtype), ("b", K_BUFFER, DT_U8));
    assert_eq!((metas[1].shape.clone(), metas[1].offset, metas[1].nbytes), (vec![1, 3], 64, 3));
}
