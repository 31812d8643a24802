//! The `.hodu` container byte format.
//!
//! ```text
//! MAGIC "HODU" + VERSION(u32=3) + meta(KV)
//! + n_tensors(u32) + per-tensor[ name, kind(u8), dtype(u8), rank(u32)+dims(u64), data_offset(u64), nbytes(u64) ]
//! + n_descriptors(u32) + descriptors
//! + graph_blob: u64 len + bytes (0 len if none)
//! + PAD to the next 4096-byte boundary
//! + DATA REGION: payloads at their data_offset (each tensor 64B-aligned within the region)
//! ```
//! All little-endian; a string is a u32 byte length followed by its UTF-8 bytes.
use crate::wire::{bytes_at, u32_at, u64_at, u8_at, utf8_bytes, utf8_text};
use vstd::bytes::*;
use vstd::prelude::*;

verus! {

/// Tensor kind tag: learnable weight.
pub const K_PARAM: u8 = 0;
/// Tensor kind tag: non-learnable f32 state (e.g. running statistics).
pub const K_BUFFER: u8 = 1;
/// Tensor kind tag: optimizer moment / step.
pub const K_OPTIM: u8 = 2;
/// Tensor kind tag: non-learnable raw-byte state (e.g. a packed quant weight).
pub const K_QBUFFER: u8 = 3;

/// Payload dtype tag: f32 little-endian.
pub const DT_F32: u8 = 0;
/// Payload dtype tag: raw bytes.
pub const DT_U8: u8 = 1;

/// The container version this crate reads and writes.
pub const VERSION: u32 = 3;
/// Alignment of the data-region base within the file (the mmap page unit).
pub const REGION_ALIGN: u64 = 4096;
/// Alignment of every payload within the data region.
pub const TENSOR_ALIGN: u64 = 64;
/// Quant-descriptor scheme tag: affine group-wise, the only scheme there is.
pub const SCHEME_AFFINE: u8 = 0;

/// Why a container could not be read or written.
#[derive(Clone, Copy, Debug, PartialEq, Eq, Structural)]
pub enum ContainerError {
    /// The bytes end before the format says they should.
    UnexpectedEof,
    /// The file does not start with `HODU`.
    BadMagic,
    /// The version field is not [`VERSION`].
    UnsupportedVersion(u32),
    /// A string is not valid UTF-8.
    BadUtf8,
    /// Tensor row `row` carries a dtype tag other than [`DT_F32`] / [`DT_U8`].
    UnsupportedDtype { row: usize, tag: u8 },
    /// Quant descriptor `descriptor` carries a scheme tag other than [`SCHEME_AFFINE`].
    UnsupportedScheme { descriptor: usize, scheme: u8 },
    /// A length or offset does not fit the integer width the format gives it.
    TooLarge,
}

/// A quantized weight's scheme record: which rows hold its packed weight, scales and mins.
#[derive(Clone, Debug, PartialEq, Eq)]
pub struct QuantDescriptor {
    pub weight_fqn: String,
    pub bits: u8,
    pub group_size: usize,
    pub symmetric: bool,
    pub scales_fqn: String,
    pub mins_fqn: Option<String>,
}

pub struct DescriptorView {
    pub weight_fqn: Seq<char>,
    pub bits: u8,
    pub group_size: usize,
    pub symmetric: bool,
    pub scales_fqn: Seq<char>,
    pub mins_fqn: Option<Seq<char>>,
}

impl View for QuantDescriptor {
    type V = DescriptorView;

    open spec fn view(&self) -> DescriptorView {
        DescriptorView {
            weight_fqn: self.weight_fqn@,
            bits: self.bits,
            group_size: self.group_size,
            symmetric: self.symmetric,
            scales_fqn: self.scales_fqn@,
            mins_fqn: match self.mins_fqn {
                Some(m) => Some(m@),
                None => None,
            },
        }
    }
}

/// A tensor-table row with its payload.
#[derive(Clone, Debug, PartialEq, Eq)]
pub struct Entry {
    pub name: String,
    pub kind: u8,
    pub dtype: u8,
    pub shape: Vec<usize>,
    pub data: Vec<u8>,
}

pub struct EntryView {
    pub name: Seq<char>,
    pub kind: u8,
    pub dtype: u8,
    pub shape: Seq<usize>,
    pub data: Seq<u8>,
}

impl View for Entry {
    type V = EntryView;

    open spec fn view(&self) -> EntryView {
        EntryView {
            name: self.name@,
            kind: self.kind,
            dtype: self.dtype,
            shape: self.shape@,
            data: self.data@,
        }
    }
}

/// A tensor-table row without its payload: where the payload sits in the data region.
#[derive(Clone, Debug, PartialEq, Eq)]
pub struct TensorMeta {
    pub name: String,
    pub kind: u8,
    pub dtype: u8,
    pub shape: Vec<usize>,
    pub offset: u64,
    pub nbytes: u64,
}

pub struct MetaView {
    pub name: Seq<char>,
    pub kind: u8,
    pub dtype: u8,
    pub shape: Seq<usize>,
    pub offset: u64,
    pub nbytes: u64,
}

impl View for TensorMeta {
    type V = MetaView;

    open spec fn view(&self) -> MetaView {
        MetaView {
            name: self.name@,
            kind: self.kind,
            dtype: self.dtype,
            shape: self.shape@,
            offset: self.offset,
            nbytes: self.nbytes,
        }
    }
}

pub open spec fn metas_view(v: Seq<TensorMeta>) -> Seq<MetaView> {
    v.map_values(|m: TensorMeta| m@)
}

pub open spec fn entries_view(v: Seq<Entry>) -> Seq<EntryView> {
    v.map_values(|e: Entry| e@)
}

pub open spec fn descriptors_view(v: Seq<QuantDescriptor>) -> Seq<DescriptorView> {
    v.map_values(|d: QuantDescriptor| d@)
}

pub open spec fn magic() -> Seq<u8> {
    seq![0x48u8, 0x4fu8, 0x44u8, 0x55u8]
}

// ---------------------------------------------------------------------------------------------
// Decoding, as positional parsers over the file bytes.

/// Reads `n` items one after the other with `item` (which also receives the item's index).
pub open spec fn dec_many<T>(
    item: spec_fn(Seq<u8>, int, int) -> Result<(T, int), ContainerError>,
    b: Seq<u8>,
    p: int,
    n: nat,
) -> Result<(Seq<T>, int), ContainerError>
    decreases n,
{
    if n == 0 {
        Ok((seq![], p))
    } else {
        match dec_many(item, b, p, (n - 1) as nat) {
            Ok((xs, q)) => match item(b, q, n - 1) {
                Ok((x, r)) => Ok((xs.push(x), r)),
                Err(e) => Err(e),
            },
            Err(e) => Err(e),
        }
    }
}

/// A string: u32 byte length, then that many UTF-8 bytes.
pub open spec fn dec_str(b: Seq<u8>, p: int) -> Result<(Seq<char>, int), ContainerError> {
    match u32_at(b, p) {
        None => Err(ContainerError::UnexpectedEof),
        Some((n, q)) => match bytes_at(b, q, n as int) {
            None => Err(ContainerError::UnexpectedEof),
            Some((s, r)) => match utf8_text(s) {
                None => Err(ContainerError::BadUtf8),
                Some(t) => Ok((t, r)),
            },
        },
    }
}

pub open spec fn dec_dim(b: Seq<u8>, p: int, i: int) -> Result<(usize, int), ContainerError> {
    match u64_at(b, p) {
        None => Err(ContainerError::UnexpectedEof),
        Some((d, q)) => Ok((d as usize, q)),
    }
}

pub open spec fn dim_item() -> spec_fn(Seq<u8>, int, int) -> Result<(usize, int), ContainerError> {
    |b: Seq<u8>, p: int, i: int| dec_dim(b, p, i)
}

/// One meta key/value pair (read, validated, and skipped by the reader).
pub open spec fn dec_kv(b: Seq<u8>, p: int, i: int) -> Result<((Seq<char>, Seq<char>), int), ContainerError> {
    match dec_str(b, p) {
        Err(e) => Err(e),
        Ok((k, q)) => match dec_str(b, q) {
            Err(e) => Err(e),
            Ok((v, r)) => Ok(((k, v), r)),
        },
    }
}

pub open spec fn kv_item() -> spec_fn(Seq<u8>, int, int) -> Result<((Seq<char>, Seq<char>), int), ContainerError> {
    |b: Seq<u8>, p: int, i: int| dec_kv(b, p, i)
}

/// Tensor row `i` of the tensor table.
pub open spec fn dec_row(b: Seq<u8>, p: int, i: int) -> Result<(MetaView, int), ContainerError> {
    match dec_str(b, p) {
        Err(e) => Err(e),
        Ok((name, q)) => match bytes_at(b, q, 2) {
            None => Err(ContainerError::UnexpectedEof),
            Some((tags, q2)) => if tags[1] != DT_F32 && tags[1] != DT_U8 {
                Err(ContainerError::UnsupportedDtype { row: i as usize, tag: tags[1] })
            } else {
                match u32_at(b, q2) {
                    None => Err(ContainerError::UnexpectedEof),
                    Some((rank, q3)) => match dec_many(dim_item(), b, q3, rank as nat) {
                        Err(e) => Err(e),
                        Ok((shape, q4)) => match u64_at(b, q4) {
                            None => Err(ContainerError::UnexpectedEof),
                            Some((offset, q5)) => match u64_at(b, q5) {
                                None => Err(ContainerError::UnexpectedEof),
                                Some((nbytes, q6)) => Ok((
                                    MetaView { name, kind: tags[0], dtype: tags[1], shape, offset, nbytes },
                                    q6,
                                )),
                            },
                        },
                    },
                }
            },
        },
    }
}

pub open spec fn row_item() -> spec_fn(Seq<u8>, int, int) -> Result<(MetaView, int), ContainerError> {
    |b: Seq<u8>, p: int, i: int| dec_row(b, p, i)
}

/// An empty `mins` string stands for "no mins" (symmetric quantization).
pub open spec fn mins_of(s: Seq<char>) -> Option<Seq<char>> {
    if s.len() == 0 {
        None
    } else {
        Some(s)
    }
}

/// A descriptor as the format reads it back: a present but empty `mins` reads as no `mins`.
pub open spec fn normalize_mins(d: DescriptorView) -> DescriptorView {
    DescriptorView {
        weight_fqn: d.weight_fqn,
        bits: d.bits,
        group_size: d.group_size,
        symmetric: d.symmetric,
        scales_fqn: d.scales_fqn,
        mins_fqn: mins_of(mins_text(d.mins_fqn)),
    }
}

/// Descriptors as the format reads them back.
pub open spec fn normalized(ds: Seq<DescriptorView>) -> Seq<DescriptorView> {
    ds.map_values(|d: DescriptorView| normalize_mins(d))
}

/// Quant descriptor `i` of the descriptor table.
pub open spec fn dec_descriptor(b: Seq<u8>, p: int, i: int) -> Result<(DescriptorView, int), ContainerError> {
    match dec_str(b, p) {
        Err(e) => Err(e),
        Ok((weight_fqn, q)) => match bytes_at(b, q, 2) {
            None => Err(ContainerError::UnexpectedEof),
            Some((sb, q2)) => if sb[0] != SCHEME_AFFINE {
                Err(ContainerError::UnsupportedScheme { descriptor: i as usize, scheme: sb[0] })
            } else {
                match u64_at(b, q2) {
                    None => Err(ContainerError::UnexpectedEof),
                    Some((gs, q3)) => match u8_at(b, q3) {
                        None => Err(ContainerError::UnexpectedEof),
                        Some((sym, q4)) => match dec_str(b, q4) {
                            Err(e) => Err(e),
                            Ok((scales_fqn, q5)) => match dec_str(b, q5) {
                                Err(e) => Err(e),
                                Ok((mins, q6)) => Ok((
                                    DescriptorView {
                                        weight_fqn,
                                        bits: sb[1],
                                        group_size: gs as usize,
                                        symmetric: sym != 0,
                                        scales_fqn,
                                        mins_fqn: mins_of(mins),
                                    },
                                    q6,
                                )),
                            },
                        },
                    },
                }
            },
        },
    }
}

pub open spec fn descriptor_item() -> spec_fn(Seq<u8>, int, int) -> Result<(DescriptorView, int), ContainerError> {
    |b: Seq<u8>, p: int, i: int| dec_descriptor(b, p, i)
}

/// The descriptor table: a u32 count, then the descriptors.
pub open spec fn dec_descriptors(b: Seq<u8>, p: int) -> Result<(Seq<DescriptorView>, int), ContainerError> {
    match u32_at(b, p) {
        None => Err(ContainerError::UnexpectedEof),
        Some((nd, q)) => dec_many(descriptor_item(), b, q, nd as nat),
    }
}

/// The whole metadata region: the tensor rows, the descriptors, the graph blob, and the
/// position just past the region.
pub open spec fn dec_metadata(b: Seq<u8>) -> Result<(Seq<MetaView>, Seq<DescriptorView>, Seq<u8>, int), ContainerError> {
    match bytes_at(b, 0, 4) {
        None => Err(ContainerError::UnexpectedEof),
        Some((m, p1)) => if m != magic() {
            Err(ContainerError::BadMagic)
        } else {
            match u32_at(b, p1) {
                None => Err(ContainerError::UnexpectedEof),
                Some((version, p2)) => if version != VERSION {
                    Err(ContainerError::UnsupportedVersion(version))
                } else {
                    match u32_at(b, p2) {
                        None => Err(ContainerError::UnexpectedEof),
                        Some((meta_n, p3)) => match dec_many(kv_item(), b, p3, meta_n as nat) {
                            Err(e) => Err(e),
                            Ok((_kvs, p4)) => match u32_at(b, p4) {
                                None => Err(ContainerError::UnexpectedEof),
                                Some((n, p5)) => match dec_many(row_item(), b, p5, n as nat) {
                                    Err(e) => Err(e),
                                    Ok((rows, p6)) => match dec_descriptors(b, p6) {
                                        Err(e) => Err(e),
                                        Ok((ds, p7)) => match u64_at(b, p7) {
                                            None => Err(ContainerError::UnexpectedEof),
                                            Some((glen, p8)) => match bytes_at(b, p8, glen as usize as int) {
                                                None => Err(ContainerError::UnexpectedEof),
                                                Some((graph, p9)) => Ok((rows, ds, graph, p9)),
                                            },
                                        },
                                    },
                                },
                            },
                        },
                    }
                }
            }
        },
    }
}

/// `n` rounded up to the next multiple of `a`.
pub open spec fn spec_align_up(n: int, a: int) -> int {
    if n % a == 0 {
        n
    } else {
        n + (a - n % a)
    }
}

/// Rounds `n` up to the next multiple of `a` (the format uses powers of two).
pub fn align_up(n: u64, a: u64) -> (r: u64)
    requires
        a > 0,
        n + a - 1 <= u64::MAX,
    ensures
        r == spec_align_up(n as int, a as int),
        r % a == 0,
        n <= r < n + a,
{
    let rem = n % a;
    if rem == 0 {
        n
    } else {
        proof {
            vstd::arithmetic::div_mod::lemma_fundamental_div_mod(n as int, a as int);
            vstd::arithmetic::div_mod::lemma_fundamental_div_mod((n + (a - rem)) as int, a as int);
            vstd::arithmetic::div_mod::lemma_mod_multiples_vanish((n / a + 1) as int, 0, a as int);
            assert((n + (a - rem)) == (n / a + 1) * a) by (nonlinear_arith)
                requires n == a * (n / a) + rem;
        }
        n + (a - rem)
    }
}

/// The payload of row `m` in a data region that starts at `base`.
pub open spec fn payload_of(b: Seq<u8>, base: int, m: MetaView) -> Option<Seq<u8>> {
    match bytes_at(b, base + m.offset, m.nbytes as int) {
        Some((s, _)) => Some(s),
        None => None,
    }
}

pub open spec fn entry_of(m: MetaView, data: Seq<u8>) -> EntryView {
    EntryView { name: m.name, kind: m.kind, dtype: m.dtype, shape: m.shape, data }
}

/// The whole container: the rows with their payloads, the descriptors, and the graph blob.
pub open spec fn dec_container(b: Seq<u8>) -> Result<(Seq<EntryView>, Seq<DescriptorView>, Seq<u8>), ContainerError> {
    match dec_metadata(b) {
        Err(e) => Err(e),
        Ok((rows, ds, graph, end)) => {
            let base = spec_align_up(end, REGION_ALIGN as int);
            if base > u64::MAX {
                Err(ContainerError::TooLarge)
            } else if forall|i: int| 0 <= i < rows.len() ==> (#[trigger] payload_of(b, base, rows[i])) is Some {
                Ok((Seq::new(rows.len(), |i: int| entry_of(rows[i], payload_of(b, base, rows[i])->0)), ds, graph))
            } else {
                Err(ContainerError::UnexpectedEof)
            }
        },
    }
}

// ---------------------------------------------------------------------------------------------
// Encoding.

/// Writes each item after the ones before it.
pub open spec fn enc_many<T>(item: spec_fn(T) -> Seq<u8>, xs: Seq<T>) -> Seq<u8>
    decreases xs.len(),
{
    if xs.len() == 0 {
        seq![]
    } else {
        enc_many(item, xs.drop_last()) + item(xs.last())
    }
}

pub open spec fn zeros(n: int) -> Seq<u8> {
    Seq::new(n as nat, |i: int| 0u8)
}

/// A string: its UTF-8 byte length as a u32, then the bytes.
pub open spec fn enc_str(s: Seq<char>) -> Seq<u8> {
    spec_u32_to_le_bytes(utf8_bytes(s).len() as u32) + utf8_bytes(s)
}

pub open spec fn str_fits(s: Seq<char>) -> bool {
    utf8_bytes(s).len() <= u32::MAX
}

pub open spec fn enc_dim(d: usize) -> Seq<u8> {
    spec_u64_to_le_bytes(d as u64)
}

pub open spec fn dim_enc() -> spec_fn(usize) -> Seq<u8> {
    |d: usize| enc_dim(d)
}

pub open spec fn enc_kv(kv: (Seq<char>, Seq<char>)) -> Seq<u8> {
    enc_str(kv.0) + enc_str(kv.1)
}

pub open spec fn kv_enc() -> spec_fn((Seq<char>, Seq<char>)) -> Seq<u8> {
    |kv: (Seq<char>, Seq<char>)| enc_kv(kv)
}

pub open spec fn enc_row(m: MetaView) -> Seq<u8> {
    enc_str(m.name) + seq![m.kind, m.dtype] + spec_u32_to_le_bytes(m.shape.len() as u32) + enc_many(dim_enc(), m.shape)
        + spec_u64_to_le_bytes(m.offset) + spec_u64_to_le_bytes(m.nbytes)
}

pub open spec fn row_enc() -> spec_fn(MetaView) -> Seq<u8> {
    |m: MetaView| enc_row(m)
}

pub open spec fn mins_text(m: Option<Seq<char>>) -> Seq<char> {
    match m {
        Some(t) => t,
        None => seq![],
    }
}

pub open spec fn enc_descriptor(d: DescriptorView) -> Seq<u8> {
    enc_str(d.weight_fqn) + seq![SCHEME_AFFINE, d.bits] + spec_u64_to_le_bytes(d.group_size as u64)
        + seq![if d.symmetric { 1u8 } else { 0u8 }] + enc_str(d.scales_fqn) + enc_str(mins_text(d.mins_fqn))
}

pub open spec fn descriptor_enc() -> spec_fn(DescriptorView) -> Seq<u8> {
    |d: DescriptorView| enc_descriptor(d)
}

pub open spec fn enc_descriptors(ds: Seq<DescriptorView>) -> Seq<u8> {
    spec_u32_to_le_bytes(ds.len() as u32) + enc_many(descriptor_enc(), ds)
}

/// The metadata region for the given meta pairs, tensor rows, descriptors and graph blob.
pub open spec fn enc_metadata(
    kvs: Seq<(Seq<char>, Seq<char>)>,
    rows: Seq<MetaView>,
    ds: Seq<DescriptorView>,
    graph: Seq<u8>,
) -> Seq<u8> {
    magic() + spec_u32_to_le_bytes(VERSION) + spec_u32_to_le_bytes(kvs.len() as u32) + enc_many(kv_enc(), kvs)
        + spec_u32_to_le_bytes(rows.len() as u32) + enc_many(row_enc(), rows) + enc_descriptors(ds)
        + spec_u64_to_le_bytes(graph.len() as u64) + graph
}

/// Where payload `k` starts in the data region: the end of the one before it, rounded up to
/// [`TENSOR_ALIGN`].
pub open spec fn offset_at(es: Seq<EntryView>, k: int) -> int
    decreases k,
{
    if k <= 0 {
        0
    } else {
        spec_align_up(offset_at(es, k - 1) + es[k - 1].data.len(), TENSOR_ALIGN as int)
    }
}

/// Where the first `k` payloads end in the data region.
pub open spec fn region_end(es: Seq<EntryView>, k: int) -> int {
    if k <= 0 {
        0
    } else {
        offset_at(es, k - 1) + es[k - 1].data.len()
    }
}

/// The tensor row written for payload `k`.
pub open spec fn row_for(es: Seq<EntryView>, k: int) -> MetaView {
    MetaView {
        name: es[k].name,
        kind: es[k].kind,
        dtype: es[k].dtype,
        shape: es[k].shape,
        offset: offset_at(es, k) as u64,
        nbytes: es[k].data.len() as u64,
    }
}

pub open spec fn rows_for(es: Seq<EntryView>) -> Seq<MetaView> {
    Seq::new(es.len(), |k: int| row_for(es, k))
}

/// The first `k` payloads, each zero-padded up to its offset.
pub open spec fn data_region(es: Seq<EntryView>, k: int) -> Seq<u8>
    decreases k,
{
    if k <= 0 {
        seq![]
    } else {
        data_region(es, k - 1) + zeros(offset_at(es, k - 1) - region_end(es, k - 1)) + es[k - 1].data
    }
}

/// The whole file: metadata, zero padding up to the next [`REGION_ALIGN`] boundary, data region.
pub open spec fn enc_container(
    kvs: Seq<(Seq<char>, Seq<char>)>,
    es: Seq<EntryView>,
    ds: Seq<DescriptorView>,
    graph: Seq<u8>,
) -> Seq<u8> {
    let m = enc_metadata(kvs, rows_for(es), ds, graph);
    m + zeros(spec_align_up(m.len() as int, REGION_ALIGN as int) - m.len()) + data_region(es, es.len() as int)
}

pub open spec fn kvs_fit(kvs: Seq<(Seq<char>, Seq<char>)>) -> bool {
    kvs.len() <= u32::MAX && forall|i: int| #![trigger kvs[i]] 0 <= i < kvs.len() ==> str_fits(kvs[i].0) && str_fits(kvs[i].1)
}

pub open spec fn entries_fit(es: Seq<EntryView>) -> bool {
    es.len() <= u32::MAX && forall|i: int| #![trigger es[i]] 0 <= i < es.len() ==> str_fits(es[i].name) && es[i].shape.len() <= u32::MAX
}

pub open spec fn descriptors_fit(ds: Seq<DescriptorView>) -> bool {
    ds.len() <= u32::MAX && forall|i: int| #![trigger ds[i]] 0 <= i < ds.len() ==> str_fits(ds[i].weight_fqn) && str_fits(ds[i].scales_fqn)
        && str_fits(mins_text(ds[i].mins_fqn))
}

/// What the format's integer widths can hold: every string length and count fits its u32,
/// every data-region offset its u64, and the metadata region leaves room for its padding.
pub open spec fn writable(
    kvs: Seq<(Seq<char>, Seq<char>)>,
    es: Seq<EntryView>,
    ds: Seq<DescriptorView>,
    graph: Seq<u8>,
) -> bool {
    &&& kvs_fit(kvs)
    &&& entries_fit(es)
    &&& region_end(es, es.len() as int) + TENSOR_ALIGN - 1 <= u64::MAX
    &&& descriptors_fit(ds)
    &&& graph.len() <= u64::MAX
    &&& enc_metadata(kvs, rows_for(es), ds, graph).len() + REGION_ALIGN - 1 <= u64::MAX
}

/// The metadata pairs a `.hodu` file is written with: the format name and the writer.
pub fn meta() -> (r: Vec<(&'static str, &'static str)>)
    ensures
        r@.len() == 2,
        r@[0].0@ == "format"@ && r@[0].1@ == "hodu"@,
        r@[1].0@ == "created_by"@ && r@[1].1@ == "hodu 0.1.0"@,
{
    let mut v: Vec<(&'static str, &'static str)> = Vec::new();
    v.push(("format", "hodu"));
    v.push(("created_by", "hodu 0.1.0"));
    v
}

} // verus!


mod descriptor;
mod laws;
mod read;
mod write;

pub use descriptor::{check_descriptors, read_descriptors, write_descriptors};
pub use laws::{law_container_round_trip, law_descriptors_round_trip, law_layout_aligned, law_metadata_round_trip};
pub use read::{index_container, law_mapped_view_matches_read, payload_span, read_container, read_meta, read_str, ContainerIndex};
pub use write::{kvs_view, str_fits_u32, write_container, write_str};
