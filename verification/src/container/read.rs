//! The read path: `read_meta` parses the metadata region (header + meta + tensor table +
//! descriptors + graph blob); `read_container` follows it by slicing each payload out of the
//! page-aligned data region.
use super::descriptor::read_descriptors;
use super::{DescriptorView, EntryView, entry_of};
use super::{
    ContainerError, Entry, MetaView, TensorMeta, DT_F32, DT_U8, VERSION, REGION_ALIGN, dec_dim, dec_kv,
    dec_many, dec_metadata, dec_row, dec_str, dim_item, kv_item, magic, metas_view, row_item,
    descriptors_view, QuantDescriptor, align_up, spec_align_up, dec_container, entries_view,
    payload_of,
};
use crate::wire::{bytes_at, read_bytes, read_u32, read_u64, string_from_utf8, u32_at, u64_at, utf8_text};
use vstd::prelude::*;
use vstd::slice::slice_to_vec;

verus! {

/// Once a repeated read fails, reading more items fails the same way.
pub proof fn lemma_dec_many_err<T>(
    item: spec_fn(Seq<u8>, int, int) -> Result<(T, int), ContainerError>,
    b: Seq<u8>,
    p: int,
    i: nat,
    n: nat,
)
    requires
        i <= n,
        dec_many(item, b, p, i) is Err,
    ensures
        dec_many(item, b, p, n) == dec_many(item, b, p, i),
    decreases n,
{
    if n > i {
        lemma_dec_many_err(item, b, p, i, (n - 1) as nat);
    }
}

/// Reads a length-prefixed UTF-8 string at `p`.
pub fn read_str(b: &[u8], p: usize) -> (r: Result<(String, usize), ContainerError>)
    ensures
        match r {
            Ok((s, q)) => dec_str(b@, p as int) == Ok::<(Seq<char>, int), ContainerError>((s@, q as int)),
            Err(e) => dec_str(b@, p as int) == Err::<(Seq<char>, int), ContainerError>(e),
        },
{
    let (len, q) = match read_u32(b, p) {
        Some(x) => x,
        None => return Err(ContainerError::UnexpectedEof),
    };
    assert(len as usize as int == len as int);
    let (s, q2) = match read_bytes(b, q, len as usize) {
        Some(x) => x,
        None => return Err(ContainerError::UnexpectedEof),
    };
    match string_from_utf8(s) {
        Some(t) => Ok((t, q2)),
        None => Err(ContainerError::BadUtf8),
    }
}

fn read_dims(b: &[u8], p: usize, n: u32) -> (r: Result<(Vec<usize>, usize), ContainerError>)
    requires
        p <= b@.len(),
    ensures
        match r {
            Ok((v, q)) => dec_many(dim_item(), b@, p as int, n as nat) == Ok::<(Seq<usize>, int), ContainerError>((v@, q as int)),
            Err(e) => dec_many(dim_item(), b@, p as int, n as nat) == Err::<(Seq<usize>, int), ContainerError>(e),
        },
{
    let mut v: Vec<usize> = Vec::new();
    let mut q = p;
    let mut i: u32 = 0;
    while i < n
        invariant
            i <= n,
            q <= b@.len(),
            dec_many(dim_item(), b@, p as int, i as nat) == Ok::<(Seq<usize>, int), ContainerError>((v@, q as int)),
        decreases n - i,
    {
        let ghost q0 = q;
        match read_u64(b, q) {
            Some((d, q2)) => {
                let ghost v0 = v@;
                v.push(d as usize);
                q = q2;
                assert(v@ == v0.push(d as usize));
            },
            None => {
                proof {
                    lemma_dec_many_err(dim_item(), b@, p as int, (i + 1) as nat, n as nat);
                }
                return Err(ContainerError::UnexpectedEof);
            },
        }
        i = i + 1;
    }
    Ok((v, q))
}

/// Reads tensor row `i` at `p`.
fn read_row(b: &[u8], p: usize, i: usize) -> (r: Result<(TensorMeta, usize), ContainerError>)
    requires
        p <= b@.len(),
    ensures
        match r {
            Ok((m, q)) => dec_row(b@, p as int, i as int) == Ok::<(MetaView, int), ContainerError>((m@, q as int)) && q <= b@.len(),
            Err(e) => dec_row(b@, p as int, i as int) == Err::<(MetaView, int), ContainerError>(e),
        },
{
    let (name, q) = match read_str(b, p) {
        Ok(x) => x,
        Err(e) => return Err(e),
    };
    let (tags, q2) = match read_bytes(b, q, 2) {
        Some(x) => x,
        None => return Err(ContainerError::UnexpectedEof),
    };
    let kind = tags[0];
    let dtype = tags[1];
    if dtype != DT_F32 && dtype != DT_U8 {
        return Err(ContainerError::UnsupportedDtype { row: i, tag: dtype });
    }
    let (rank, q3) = match read_u32(b, q2) {
        Some(x) => x,
        None => return Err(ContainerError::UnexpectedEof),
    };
    let (shape, q4) = match read_dims(b, q3, rank) {
        Ok(x) => x,
        Err(e) => return Err(e),
    };
    let (offset, q5) = match read_u64(b, q4) {
        Some(x) => x,
        None => return Err(ContainerError::UnexpectedEof),
    };
    let (nbytes, q6) = match read_u64(b, q5) {
        Some(x) => x,
        None => return Err(ContainerError::UnexpectedEof),
    };
    Ok((TensorMeta { name, kind, dtype, shape, offset, nbytes }, q6))
}

fn skip_kvs(b: &[u8], p: usize, n: u32) -> (r: Result<usize, ContainerError>)
    requires
        p <= b@.len(),
    ensures
        match r {
            Ok(q) => dec_many(kv_item(), b@, p as int, n as nat) matches Ok((_, q2)) && q2 == q as int && q <= b@.len(),
            Err(e) => dec_many(kv_item(), b@, p as int, n as nat) == Err::<(Seq<(Seq<char>, Seq<char>)>, int), ContainerError>(e),
        },
{
    let mut q = p;
    let mut i: u32 = 0;
    let ghost mut kvs: Seq<(Seq<char>, Seq<char>)> = seq![];
    while i < n
        invariant
            i <= n,
            q <= b@.len(),
            dec_many(kv_item(), b@, p as int, i as nat) == Ok::<(Seq<(Seq<char>, Seq<char>)>, int), ContainerError>((kvs, q as int)),
        decreases n - i,
    {
        let r1 = read_str(b, q);
        let (k, q1) = match r1 {
            Ok(x) => x,
            Err(e) => {
                proof {
                    lemma_dec_many_err(kv_item(), b@, p as int, (i + 1) as nat, n as nat);
                }
                return Err(e);
            },
        };
        let (v, q2) = match read_str(b, q1) {
            Ok(x) => x,
            Err(e) => {
                proof {
                    lemma_dec_many_err(kv_item(), b@, p as int, (i + 1) as nat, n as nat);
                }
                return Err(e);
            },
        };
        proof {
            kvs = kvs.push((k@, v@));
        }
        q = q2;
        i = i + 1;
    }
    Ok(q)
}

fn read_rows(b: &[u8], p: usize, n: u32) -> (r: Result<(Vec<TensorMeta>, usize), ContainerError>)
    requires
        p <= b@.len(),
    ensures
        match r {
            Ok((v, q)) => dec_many(row_item(), b@, p as int, n as nat) == Ok::<(Seq<MetaView>, int), ContainerError>((metas_view(v@), q as int)) && q <= b@.len(),
            Err(e) => dec_many(row_item(), b@, p as int, n as nat) == Err::<(Seq<MetaView>, int), ContainerError>(e),
        },
{
    let mut v: Vec<TensorMeta> = Vec::new();
    assert(metas_view(v@) =~= seq![]);
    let mut q = p;
    let mut i: u32 = 0;
    while i < n
        invariant
            i <= n,
            q <= b@.len(),
            dec_many(row_item(), b@, p as int, i as nat) == Ok::<(Seq<MetaView>, int), ContainerError>((metas_view(v@), q as int)),
        decreases n - i,
    {
        match read_row(b, q, i as usize) {
            Ok((m, q2)) => {
                proof {
                    assert(metas_view(v@.push(m)) =~= metas_view(v@).push(m@));
                }
                v.push(m);
                q = q2;
            },
            Err(e) => {
                proof {
                    lemma_dec_many_err(row_item(), b@, p as int, (i + 1) as nat, n as nat);
                }
                return Err(e);
            },
        }
        i = i + 1;
    }
    Ok((v, q))
}

/// Parses the metadata region: the tensor rows, the quant descriptors, the graph blob (empty
/// for a weights-only file), and the position just past the region.
pub fn read_meta(b: &[u8]) -> (r: Result<(Vec<TensorMeta>, Vec<QuantDescriptor>, Vec<u8>, usize), ContainerError>)
    ensures
        match r {
            Ok((ms, ds, g, end)) => dec_metadata(b@) == Ok::<(Seq<MetaView>, Seq<DescriptorView>, Seq<u8>, int), ContainerError>(
                (metas_view(ms@), descriptors_view(ds@), g@, end as int)) && end <= b@.len(),
            Err(e) => dec_metadata(b@) == Err::<(Seq<MetaView>, Seq<DescriptorView>, Seq<u8>, int), ContainerError>(e),
        },
{
    let (m, p1) = match read_bytes(b, 0, 4) {
        Some(x) => x,
        None => return Err(ContainerError::UnexpectedEof),
    };
    if !(m[0] == 0x48 && m[1] == 0x4f && m[2] == 0x44 && m[3] == 0x55) {
        proof {
            if m@ =~= magic() {
            }
        }
        return Err(ContainerError::BadMagic);
    }
    assert(m@ =~= magic());
    let (version, p2) = match read_u32(b, p1) {
        Some(x) => x,
        None => return Err(ContainerError::UnexpectedEof),
    };
    if version != VERSION {
        return Err(ContainerError::UnsupportedVersion(version));
    }
    let (meta_n, p3) = match read_u32(b, p2) {
        Some(x) => x,
        None => return Err(ContainerError::UnexpectedEof),
    };
    let p4 = match skip_kvs(b, p3, meta_n) {
        Ok(x) => x,
        Err(e) => return Err(e),
    };
    let (n, p5) = match read_u32(b, p4) {
        Some(x) => x,
        None => return Err(ContainerError::UnexpectedEof),
    };
    let (rows, p6) = match read_rows(b, p5, n) {
        Ok(x) => x,
        Err(e) => return Err(e),
    };
    let (ds, p7) = match read_descriptors(b, p6) {
        Ok(x) => x,
        Err(e) => return Err(e),
    };
    let (glen, p8) = match read_u64(b, p7) {
        Some(x) => x,
        None => return Err(ContainerError::UnexpectedEof),
    };
    let (g, p9) = match read_bytes(b, p8, glen as usize) {
        Some(x) => x,
        None => return Err(ContainerError::UnexpectedEof),
    };
    Ok((rows, ds, slice_to_vec(g), p9))
}

/// Copies row `tm`'s payload out of a data region that starts at `base`.
fn payload(b: &[u8], base: u64, tm: &TensorMeta) -> (r: Option<Vec<u8>>)
    ensures
        r is None <==> payload_of(b@, base as int, tm@) is None,
        r matches Some(d) ==> payload_of(b@, base as int, tm@) == Some(d@),
{
    let blen = b.len();
    assert(blen as int == b@.len());
    if base > u64::MAX - tm.offset {
        return None;
    }
    let start = base + tm.offset;
    if start > blen as u64 || tm.nbytes > blen as u64 - start {
        return None;
    }
    Some(slice_to_vec(vstd::slice::slice_subrange(b, start as usize, (start + tm.nbytes) as usize)))
}

/// Reads a whole container: every row with its payload sliced out of the data region, the
/// quant descriptors, and the graph blob.
pub fn read_container(b: &[u8]) -> (r: Result<(Vec<Entry>, Vec<QuantDescriptor>, Vec<u8>), ContainerError>)
    ensures
        match r {
            Ok((es, ds, g)) => dec_container(b@) == Ok::<(Seq<EntryView>, Seq<DescriptorView>, Seq<u8>), ContainerError>(
                (entries_view(es@), descriptors_view(ds@), g@)),
            Err(e) => dec_container(b@) == Err::<(Seq<EntryView>, Seq<DescriptorView>, Seq<u8>), ContainerError>(e),
        },
{
    let (metas, ds, g, end) = match read_meta(b) {
        Ok(x) => x,
        Err(e) => return Err(e),
    };
    let ghost rows = metas_view(metas@);
    let blen = b.len();
    assert(blen as int == b@.len());
    assert(end as u64 as int == end as int);
    if end as u64 > u64::MAX - (REGION_ALIGN - 1) {
        return Err(ContainerError::TooLarge);
    }
    let base = align_up(end as u64, REGION_ALIGN);
    let mut out: Vec<Entry> = Vec::new();
    let ghost all = metas@;
    let n = metas.len();
    assert(b@.len() <= u64::MAX);
    let mut i: usize = 0;
    while i < n
        invariant
            n == all.len(),
            metas@ == all,
            b@.len() <= u64::MAX,
            i <= n,
            rows == metas_view(all),
            dec_metadata(b@) == Ok::<(Seq<MetaView>, Seq<DescriptorView>, Seq<u8>, int), ContainerError>(
                (rows, descriptors_view(ds@), g@, end as int)),
            base == spec_align_up(end as int, REGION_ALIGN as int),
            out@.len() == i,
            forall|k: int| 0 <= k < i ==> (#[trigger] payload_of(b@, base as int, rows[k])) is Some,
            forall|k: int| 0 <= k < i ==> #[trigger] out@[k]@ == entry_of(rows[k], payload_of(b@, base as int, rows[k])->0),
        decreases n - i,
    {
        let tm = &metas[i];
        assert(rows[i as int] == tm@);
        let data = match payload(b, base, tm) {
            Some(d) => d,
            None => return Err(ContainerError::UnexpectedEof),
        };
        out.push(Entry { name: tm.name.clone(), kind: tm.kind, dtype: tm.dtype, shape: slice_to_vec(tm.shape.as_slice()), data });
        i = i + 1;
    }
    proof {
        assert(entries_view(out@) =~= Seq::new(rows.len(), |k: int| entry_of(rows[k], payload_of(b@, base as int, rows[k])->0)));
    }
    Ok((out, ds, g))
}

/// What a reader that maps the file keeps of a container: the rows without their payloads, the
/// quant descriptors, and the file offset of the page-aligned data region.
pub struct ContainerIndex {
    pub metas: Vec<TensorMeta>,
    pub descriptors: Vec<QuantDescriptor>,
    pub region_base: u64,
}

/// Parses only the metadata region of container bytes and locates the data region, leaving the
/// payloads where they are.
pub fn index_container(b: &[u8]) -> (r: Result<ContainerIndex, ContainerError>)
    ensures
        match dec_metadata(b@) {
            Err(e) => r == Err::<ContainerIndex, ContainerError>(e),
            Ok((rows, ds, g, end)) => if end + REGION_ALIGN - 1 > u64::MAX {
                r == Err::<ContainerIndex, ContainerError>(ContainerError::TooLarge)
            } else {
                r matches Ok(ix) && metas_view(ix.metas@) == rows && descriptors_view(ix.descriptors@) == ds
                    && ix.region_base == spec_align_up(end, REGION_ALIGN as int)
            },
        },
{
    let (metas, descriptors, _graph, end) = match read_meta(b) {
        Ok(x) => x,
        Err(e) => return Err(e),
    };
    let blen = b.len();
    assert(blen as int == b@.len());
    if end as u64 > u64::MAX - (REGION_ALIGN - 1) {
        return Err(ContainerError::TooLarge);
    }
    let region_base = align_up(end as u64, REGION_ALIGN);
    Ok(ContainerIndex { metas, descriptors, region_base })
}

/// Where row `i`'s payload sits in a file of `file_len` bytes: `(start, end)`, or `None` when
/// the payload runs past the end of the file.
pub fn payload_span(ix: &ContainerIndex, i: usize, file_len: usize) -> (r: Option<(usize, usize)>)
    requires
        i < ix.metas@.len(),
    ensures
        match r {
            Some((s, e)) => s == ix.region_base + ix.metas@[i as int].offset && e == s + ix.metas@[i as int].nbytes && e <= file_len,
            None => ix.region_base + ix.metas@[i as int].offset + ix.metas@[i as int].nbytes > file_len,
        },
{
    let tm = &ix.metas[i];
    if ix.region_base > file_len as u64 || tm.offset > file_len as u64 - ix.region_base {
        return None;
    }
    let start = ix.region_base + tm.offset;
    if tm.nbytes > file_len as u64 - start {
        return None;
    }
    Some((start as usize, (start + tm.nbytes) as usize))
}

/// A reader that maps the file and one that reads it whole agree: when the container reads,
/// the bytes at row `i`'s span (data-region base plus its offset, `nbytes` long) are exactly
/// the payload the whole read gives row `i`.
pub proof fn law_mapped_view_matches_read(b: Seq<u8>, i: int)
    requires
        dec_container(b) is Ok,
        0 <= i < dec_container(b)->Ok_0.0.len(),
    ensures
        ({
            let (rows, ds, g, end) = dec_metadata(b)->Ok_0;
            let base = spec_align_up(end, REGION_ALIGN as int);
            &&& i < rows.len()
            &&& base + rows[i].offset + rows[i].nbytes <= b.len()
            &&& b.subrange(base + rows[i].offset, base + rows[i].offset + rows[i].nbytes) == dec_container(b)->Ok_0.0[i].data
        }),
{
    let (rows, ds, g, end) = dec_metadata(b)->Ok_0;
    let base = spec_align_up(end, REGION_ALIGN as int);
    assert(payload_of(b, base, rows[i]) is Some);
}

} // verus!
