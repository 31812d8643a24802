//! The write path: `write_container` lays out the metadata region (header + meta + tensor
//! table + descriptors + graph blob), pads it to the page boundary, then appends the data
//! region (payloads at their 64B-aligned offsets). The caller puts the bytes on disk.
use super::descriptor::{check_descriptors, write_descriptors};
use super::{
    ContainerError, DescriptorView, Entry, EntryView, MetaView, QuantDescriptor, REGION_ALIGN, TENSOR_ALIGN,
    VERSION, align_up, data_region, descriptors_view, dim_enc, enc_container, enc_descriptors, enc_dim,
    enc_kv, enc_many, enc_metadata, enc_row, enc_str, entries_view, kv_enc, magic, offset_at, region_end,
    row_enc, row_for, rows_for, spec_align_up, str_fits, writable, zeros, kvs_fit, entries_fit, descriptors_fit,
};
use crate::wire::{push_u32, push_u64, utf8_bytes};
use vstd::bytes::*;
use vstd::prelude::*;
use vstd::string::StringSliceAdditionalSpecFns;

verus! {

pub open spec fn kvs_view(m: Seq<(&str, &str)>) -> Seq<(Seq<char>, Seq<char>)> {
    m.map_values(|kv: (&str, &str)| (kv.0@, kv.1@))
}

/// Whether a string's byte length fits the format's u32 length prefix.
pub fn str_fits_u32(s: &str) -> (r: bool)
    ensures
        r == str_fits(s@),
{
    let b = s.as_bytes();
    b.len() <= 0xffff_ffff
}

/// Appends a length-prefixed UTF-8 string.
pub fn write_str(out: &mut Vec<u8>, s: &str)
    requires
        str_fits(s@),
    ensures
        final(out)@ == old(out)@ + enc_str(s@),
{
    let bytes = s.as_bytes();
    push_u32(out, bytes.len() as u32);
    out.extend_from_slice(bytes);
}

fn push_zeros(out: &mut Vec<u8>, n: usize)
    ensures
        final(out)@ == old(out)@ + zeros(n as int),
{
    let ghost start = out@;
    let mut i: usize = 0;
    while i < n
        invariant
            i <= n,
            out@ == start + zeros(i as int),
        decreases n - i,
    {
        out.push(0u8);
        i = i + 1;
        assert(out@ =~= start + zeros(i as int));
    }
}

fn check_kvs(meta: &[(&str, &str)]) -> (r: bool)
    ensures
        r == kvs_fit(kvs_view(meta@)),
{
    if meta.len() > 0xffff_ffff {
        return false;
    }
    let mut i: usize = 0;
    while i < meta.len()
        invariant
            i <= meta@.len(),
            meta@.len() <= u32::MAX,
            kvs_view(meta@).len() == meta@.len(),
            forall|k: int| #![trigger kvs_view(meta@)[k]] 0 <= k < i ==> str_fits(kvs_view(meta@)[k].0) && str_fits(kvs_view(meta@)[k].1),
        decreases meta@.len() - i,
    {
        let (k, v) = meta[i];
        assert(kvs_view(meta@)[i as int] == (k@, v@));
        if !str_fits_u32(k) || !str_fits_u32(v) {
            assert(!(str_fits(kvs_view(meta@)[i as int].0) && str_fits(kvs_view(meta@)[i as int].1)));
            assert(!kvs_fit(kvs_view(meta@))) by {
                let kvs = kvs_view(meta@);
                let j = i as int;
                assert(0 <= j < kvs.len());
                assert(!(str_fits(kvs[j].0) && str_fits(kvs[j].1)));
            }
            return false;
        }
        i = i + 1;
    }
    assert(i == meta@.len());
    assert forall|k: int| #![trigger kvs_view(meta@)[k]] 0 <= k < kvs_view(meta@).len() implies str_fits(kvs_view(meta@)[k].0) && str_fits(kvs_view(meta@)[k].1) by {
        assert(k < i);
    }
    assert(kvs_fit(kvs_view(meta@)));
    true
}

fn check_entries(tensors: &[Entry]) -> (r: bool)
    ensures
        r == entries_fit(entries_view(tensors@)),
{
    if tensors.len() > 0xffff_ffff {
        return false;
    }
    let mut i: usize = 0;
    while i < tensors.len()
        invariant
            i <= tensors@.len(),
            tensors@.len() <= u32::MAX,
            entries_view(tensors@).len() == tensors@.len(),
            forall|k: int| #![trigger entries_view(tensors@)[k]] 0 <= k < i ==> str_fits(entries_view(tensors@)[k].name) && entries_view(tensors@)[k].shape.len() <= u32::MAX,
        decreases tensors@.len() - i,
    {
        let t = &tensors[i];
        assert(entries_view(tensors@)[i as int] == t@);
        if !str_fits_u32(t.name.as_str()) || t.shape.len() > 0xffff_ffff {
            assert(!(str_fits(entries_view(tensors@)[i as int].name) && entries_view(tensors@)[i as int].shape.len() <= u32::MAX));
            assert(!entries_fit(entries_view(tensors@)));
            return false;
        }
        assert(str_fits(entries_view(tensors@)[i as int].name) && entries_view(tensors@)[i as int].shape.len() <= u32::MAX);
        i = i + 1;
    }
    assert(i == tensors@.len());
    assert forall|k: int| #![trigger entries_view(tensors@)[k]] 0 <= k < entries_view(tensors@).len() implies str_fits(entries_view(tensors@)[k].name)
        && entries_view(tensors@)[k].shape.len() <= u32::MAX by {
        assert(k < i);
    }
    assert(entries_fit(entries_view(tensors@)));
    true
}

proof fn lemma_region_end_mono(es: Seq<EntryView>, j: int, k: int)
    requires
        0 <= j <= k <= es.len(),
    ensures
        region_end(es, j) <= region_end(es, k),
        j < k ==> offset_at(es, j) <= region_end(es, k),
        region_end(es, j) <= offset_at(es, j),
    decreases k,
{
    if j < k {
        lemma_region_end_mono(es, j, k - 1);
    }
    if j > 0 {
        assert(offset_at(es, j) == spec_align_up(region_end(es, j), TENSOR_ALIGN as int));
    }
}

/// The data-region offset of every payload, or `None` when some offset leaves no room in u64.
fn layout(tensors: &[Entry]) -> (r: Option<Vec<u64>>)
    ensures
        r is Some <==> region_end(entries_view(tensors@), tensors@.len() as int) + TENSOR_ALIGN - 1 <= u64::MAX,
        r matches Some(v) ==> v@.len() == tensors@.len()
            && forall|k: int| 0 <= k < v@.len() ==> v@[k] == offset_at(entries_view(tensors@), k),
{
    let ghost es = entries_view(tensors@);
    let mut offsets: Vec<u64> = Vec::new();
    let mut off: u64 = 0;
    let n = tensors.len();
    let mut i: usize = 0;
    while i < n
        invariant
            n == tensors@.len(),
            es == entries_view(tensors@),
            i <= n,
            off == region_end(es, i as int),
            offsets@.len() == i,
            forall|k: int| 0 <= k < i ==> offsets@[k] == offset_at(es, k),
        decreases n - i,
    {
        if off > u64::MAX - (TENSOR_ALIGN - 1) {
            proof {
                lemma_region_end_mono(es, i as int, n as int);
            }
            return None;
        }
        let o = align_up(off, TENSOR_ALIGN);
        let len = tensors[i].data.len() as u64;
        assert(o == offset_at(es, i as int));
        if o > u64::MAX - len {
            proof {
                lemma_region_end_mono(es, i as int + 1, n as int);
            }
            return None;
        }
        offsets.push(o);
        off = o + len;
        i = i + 1;
    }
    if off > u64::MAX - (TENSOR_ALIGN - 1) {
        return None;
    }
    Some(offsets)
}

fn write_dims(out: &mut Vec<u8>, shape: &[usize])
    ensures
        final(out)@ == old(out)@ + enc_many(dim_enc(), shape@),
{
    let ghost start = out@;
    let mut j: usize = 0;
    while j < shape.len()
        invariant
            j <= shape@.len(),
            out@ == start + enc_many(dim_enc(), shape@.take(j as int)),
        decreases shape@.len() - j,
    {
        push_u64(out, shape[j] as u64);
        proof {
            assert(shape@.take(j as int + 1).drop_last() =~= shape@.take(j as int));
            assert(out@ =~= start + enc_many(dim_enc(), shape@.take(j as int + 1)));
        }
        j = j + 1;
    }
    assert(shape@.take(shape@.len() as int) =~= shape@);
}

fn write_row(out: &mut Vec<u8>, t: &Entry, offset: u64)
    requires
        str_fits(t.name@),
        t.shape@.len() <= u32::MAX,
    ensures
        final(out)@ == old(out)@ + enc_row(MetaView {
            name: t.name@,
            kind: t.kind,
            dtype: t.dtype,
            shape: t.shape@,
            offset,
            nbytes: t.data@.len() as u64,
        }),
{
    let ghost start = out@;
    write_str(out, t.name.as_str());
    out.push(t.kind);
    out.push(t.dtype);
    push_u32(out, t.shape.len() as u32);
    write_dims(out, t.shape.as_slice());
    push_u64(out, offset);
    push_u64(out, t.data.len() as u64);
    assert(out@ =~= start + enc_row(MetaView {
        name: t.name@,
        kind: t.kind,
        dtype: t.dtype,
        shape: t.shape@,
        offset,
        nbytes: t.data@.len() as u64,
    }));
}

/// Appends the metadata region: header, meta pairs, tensor table (with the given payload
/// offsets), descriptor table and graph blob.
fn write_metadata(
    out: &mut Vec<u8>,
    meta: &[(&str, &str)],
    tensors: &[Entry],
    offsets: &Vec<u64>,
    descriptors: &[QuantDescriptor],
    graph: &[u8],
)
    requires
        kvs_fit(kvs_view(meta@)),
        entries_fit(entries_view(tensors@)),
        descriptors_fit(descriptors_view(descriptors@)),
        offsets@.len() == tensors@.len(),
        forall|k: int| 0 <= k < offsets@.len() ==> offsets@[k] == offset_at(entries_view(tensors@), k),
    ensures
        final(out)@ == old(out)@ + enc_metadata(kvs_view(meta@), rows_for(entries_view(tensors@)),
            descriptors_view(descriptors@), graph@),
{
    let ghost start = out@;
    let ghost kvs = kvs_view(meta@);
    let ghost es = entries_view(tensors@);
    let ghost rows = rows_for(es);
    out.push(0x48u8);
    out.push(0x4fu8);
    out.push(0x44u8);
    out.push(0x55u8);
    assert(out@ =~= start + magic());
    push_u32(out, VERSION);
    push_u32(out, meta.len() as u32);
    let ghost head = out@;
    let mut i: usize = 0;
    while i < meta.len()
        invariant
            i <= meta@.len(),
            kvs == kvs_view(meta@),
            kvs.len() == meta@.len(),
            kvs_fit(kvs),
            out@ == head + enc_many(kv_enc(), kvs.take(i as int)),
        decreases meta@.len() - i,
    {
        let (k, v) = meta[i];
        let ghost before = out@;
        assert(kvs[i as int] == (k@, v@));
        write_str(out, k);
        write_str(out, v);
        proof {
            assert(kvs.take(i as int + 1).drop_last() =~= kvs.take(i as int));
            assert(out@ =~= before + enc_kv(kvs[i as int]));
        }
        i = i + 1;
    }
    assert(kvs.take(meta@.len() as int) =~= kvs);
    push_u32(out, tensors.len() as u32);
    let ghost head2 = out@;
    let mut i: usize = 0;
    while i < tensors.len()
        invariant
            i <= tensors@.len(),
            es == entries_view(tensors@),
            es.len() == tensors@.len(),
            rows == rows_for(es),
            entries_fit(es),
            offsets@.len() == tensors@.len(),
            forall|k: int| 0 <= k < offsets@.len() ==> offsets@[k] == offset_at(es, k),
            out@ == head2 + enc_many(row_enc(), rows.take(i as int)),
        decreases tensors@.len() - i,
    {
        let t = &tensors[i];
        let ghost before = out@;
        assert(es[i as int] == t@);
        write_row(out, t, offsets[i]);
        proof {
            assert(rows[i as int] == (MetaView {
                name: t.name@,
                kind: t.kind,
                dtype: t.dtype,
                shape: t.shape@,
                offset: offsets@[i as int],
                nbytes: t.data@.len() as u64,
            }));
            assert(rows.take(i as int + 1).drop_last() =~= rows.take(i as int));
        }
        i = i + 1;
    }
    assert(rows.take(tensors@.len() as int) =~= rows);
    write_descriptors(out, descriptors);
    let glen = graph.len();
    assert(glen as int == graph@.len());
    push_u64(out, glen as u64);
    out.extend_from_slice(graph);
    assert(out@ =~= start + enc_metadata(kvs, rows, descriptors_view(descriptors@), graph@));
}

/// Lays out a whole `.hodu` file in memory: the metadata region, zero padding to the next
/// [`REGION_ALIGN`] boundary, then every payload at its [`TENSOR_ALIGN`]-aligned offset.
/// Fails with [`ContainerError::TooLarge`] exactly when a length, count or offset does not fit
/// the integer width the format gives it.
pub fn write_container(
    meta: &[(&str, &str)],
    tensors: &[Entry],
    descriptors: &[QuantDescriptor],
    graph: &[u8],
) -> (r: Result<Vec<u8>, ContainerError>)
    ensures
        r is Ok <==> writable(kvs_view(meta@), entries_view(tensors@), descriptors_view(descriptors@), graph@),
        r matches Ok(b) ==> b@ == enc_container(kvs_view(meta@), entries_view(tensors@), descriptors_view(descriptors@), graph@),
        r matches Err(e) ==> e == ContainerError::TooLarge,
{
    let ghost es = entries_view(tensors@);
    let glen = graph.len();
    assert(glen as int == graph@.len());
    if !check_kvs(meta) || !check_entries(tensors) || !check_descriptors(descriptors) {
        return Err(ContainerError::TooLarge);
    }
    let offsets = match layout(tensors) {
        Some(o) => o,
        None => return Err(ContainerError::TooLarge),
    };
    let mut m: Vec<u8> = Vec::new();
    write_metadata(&mut m, meta, tensors, &offsets, descriptors, graph);
    let ghost md = m@;
    let mlen = m.len();
    assert(mlen as int == md.len());
    if mlen as u64 > u64::MAX - (REGION_ALIGN - 1) {
        return Err(ContainerError::TooLarge);
    }
    let base = align_up(mlen as u64, REGION_ALIGN);
    push_zeros(&mut m, (base - mlen as u64) as usize);
    let ghost head = m@;
    let mut written: u64 = 0;
    let n = tensors.len();
    let mut k: usize = 0;
    proof {
        lemma_region_end_mono(es, 0, n as int);
    }
    while k < n
        invariant
            n == tensors@.len(),
            es == entries_view(tensors@),
            es.len() == n,
            k <= n,
            offsets@.len() == n,
            forall|j: int| 0 <= j < offsets@.len() ==> offsets@[j] == offset_at(es, j),
            region_end(es, n as int) + TENSOR_ALIGN - 1 <= u64::MAX,
            written == region_end(es, k as int),
            m@ == head + data_region(es, k as int),
        decreases n - k,
    {
        let o = offsets[k];
        proof {
            lemma_region_end_mono(es, k as int, n as int);
            lemma_region_end_mono(es, k as int + 1, n as int);
            assert(offset_at(es, k as int) == spec_align_up(region_end(es, k as int), TENSOR_ALIGN as int));
        }
        let t = &tensors[k];
        assert(es[k as int] == t@);
        push_zeros(&mut m, (o - written) as usize);
        m.extend_from_slice(t.data.as_slice());
        written = o + t.data.len() as u64;
        proof {
            assert(m@ =~= head + data_region(es, k as int + 1));
        }
        k = k + 1;
    }
    Ok(m)
}

} // verus!
