//! What a reader gets back of what a writer wrote: decoding the bytes of an encoded container
//! gives back the rows, payloads, descriptors and graph blob that went in.
use super::{
    ContainerError, DescriptorView, EntryView, MetaView, DT_F32, DT_U8, REGION_ALIGN, TENSOR_ALIGN, VERSION,
    data_region, dec_container, dec_descriptor, dec_descriptors, dec_dim, dec_kv, dec_many, dec_metadata,
    dec_row, dec_str, descriptor_enc, descriptor_item, descriptors_fit, dim_enc, dim_item, enc_container,
    enc_descriptor, enc_descriptors, enc_dim, enc_kv, enc_many, enc_metadata, enc_row, enc_str, entries_fit,
    entry_of, kv_enc, kv_item, kvs_fit, magic, mins_of, mins_text, normalize_mins, normalized, offset_at, payload_of, region_end, row_enc,
    row_for, row_item, rows_for, spec_align_up, str_fits, writable, zeros,
};
use crate::wire::{bytes_at, lemma_utf8_round_trip, u32_at, u64_at, u8_at, utf8_bytes, utf8_text};
use vstd::bytes::*;
use vstd::prelude::*;

verus! {

/// `x` sits at position `p` of `b`.
pub open spec fn at(b: Seq<u8>, p: int, x: Seq<u8>) -> bool {
    0 <= p && p + x.len() <= b.len() && b.subrange(p, p + x.len()) == x
}

proof fn lemma_at_split(b: Seq<u8>, p: int, x: Seq<u8>, y: Seq<u8>)
    requires
        at(b, p, x + y),
    ensures
        at(b, p, x),
        at(b, p + x.len(), y),
{
    assert(b.subrange(p, p + x.len()) =~= (x + y).subrange(0, x.len() as int));
    assert((x + y).subrange(0, x.len() as int) =~= x);
    assert(b.subrange(p + x.len(), p + x.len() + y.len()) =~= (x + y).subrange(x.len() as int, (x + y).len() as int));
    assert((x + y).subrange(x.len() as int, (x + y).len() as int) =~= y);
}

proof fn lemma_u32_at(b: Seq<u8>, p: int, x: u32)
    requires
        at(b, p, spec_u32_to_le_bytes(x)),
    ensures
        u32_at(b, p) == Some((x, p + 4)),
{
    lemma_auto_spec_u32_to_from_le_bytes();
}

proof fn lemma_u64_at(b: Seq<u8>, p: int, x: u64)
    requires
        at(b, p, spec_u64_to_le_bytes(x)),
    ensures
        u64_at(b, p) == Some((x, p + 8)),
{
    lemma_auto_spec_u64_to_from_le_bytes();
}

proof fn lemma_bytes_at(b: Seq<u8>, p: int, x: Seq<u8>)
    requires
        at(b, p, x),
    ensures
        bytes_at(b, p, x.len() as int) == Some((x, p + x.len())),
{
}

/// Reading back a repeated section gives back its items.
pub proof fn lemma_dec_many_enc<T>(
    dec: spec_fn(Seq<u8>, int, int) -> Result<(T, int), ContainerError>,
    enc: spec_fn(T) -> Seq<u8>,
    xs: Seq<T>,
    b: Seq<u8>,
    p: int,
)
    requires
        at(b, p, enc_many(enc, xs)),
        forall|i: int, q: int|
            #![trigger dec(b, q, i)]
            0 <= i < xs.len() && at(b, q, enc(xs[i])) ==> dec(b, q, i) == Ok::<(T, int), ContainerError>(
                (xs[i], q + enc(xs[i]).len())),
    ensures
        dec_many(dec, b, p, xs.len()) == Ok::<(Seq<T>, int), ContainerError>((xs, p + enc_many(enc, xs).len())),
    decreases xs.len(),
{
    if xs.len() > 0 {
        let ys = xs.drop_last();
        let e1 = enc_many(enc, ys);
        let e2 = enc(xs.last());
        lemma_at_split(b, p, e1, e2);
        assert forall|i: int, q: int|
            #![trigger dec(b, q, i)]
            0 <= i < ys.len() && at(b, q, enc(ys[i])) implies dec(b, q, i) == Ok::<(T, int), ContainerError>(
                (ys[i], q + enc(ys[i]).len())) by {
            assert(ys[i] == xs[i]);
        }
        lemma_dec_many_enc(dec, enc, ys, b, p);
        assert(dec(b, p + e1.len(), xs.len() - 1) == Ok::<(T, int), ContainerError>((xs[xs.len() - 1], p + e1.len() + e2.len())));
        assert(ys.push(xs[xs.len() - 1]) =~= xs);
        assert(ys.push(xs[xs.len() - 1]) == xs);
        assert(dec_many(dec, b, p, xs.len()) == Ok::<(Seq<T>, int), ContainerError>((ys.push(xs[xs.len() - 1]), p + e1.len() + e2.len())));
    } else {
        assert(xs =~= seq![]);
    }
}

pub proof fn lemma_dec_str(b: Seq<u8>, p: int, s: Seq<char>)
    requires
        str_fits(s),
        at(b, p, enc_str(s)),
    ensures
        dec_str(b, p) == Ok::<(Seq<char>, int), ContainerError>((s, p + enc_str(s).len())),
{
    let u = utf8_bytes(s);
    lemma_at_split(b, p, spec_u32_to_le_bytes(u.len() as u32), u);
    lemma_u32_at(b, p, u.len() as u32);
    lemma_auto_spec_u32_to_from_le_bytes();
    lemma_bytes_at(b, p + 4, u);
    lemma_utf8_round_trip(s);
}

proof fn lemma_dec_dims(b: Seq<u8>, p: int, shape: Seq<usize>)
    requires
        at(b, p, enc_many(dim_enc(), shape)),
    ensures
        dec_many(dim_item(), b, p, shape.len()) == Ok::<(Seq<usize>, int), ContainerError>(
            (shape, p + enc_many(dim_enc(), shape).len())),
{
    assert forall|i: int, q: int|
        #![trigger dim_item()(b, q, i)]
        0 <= i < shape.len() && at(b, q, dim_enc()(shape[i])) implies dim_item()(b, q, i) == Ok::<(usize, int), ContainerError>(
            (shape[i], q + dim_enc()(shape[i]).len())) by {
        lemma_u64_at(b, q, shape[i] as u64);
        lemma_auto_spec_u64_to_from_le_bytes();
    }
    lemma_dec_many_enc(dim_item(), dim_enc(), shape, b, p);
}

/// A row with a supported dtype tag reads back as written.
pub proof fn lemma_dec_row(b: Seq<u8>, p: int, i: int, m: MetaView)
    requires
        str_fits(m.name),
        m.shape.len() <= u32::MAX,
        m.dtype == DT_F32 || m.dtype == DT_U8,
        at(b, p, enc_row(m)),
    ensures
        dec_row(b, p, i) == Ok::<(MetaView, int), ContainerError>((m, p + enc_row(m).len())),
{
    let a = enc_str(m.name);
    let t = seq![m.kind, m.dtype];
    let r = spec_u32_to_le_bytes(m.shape.len() as u32);
    let d = enc_many(dim_enc(), m.shape);
    let o = spec_u64_to_le_bytes(m.offset);
    let n = spec_u64_to_le_bytes(m.nbytes);
    lemma_auto_spec_u32_to_from_le_bytes();
    lemma_auto_spec_u64_to_from_le_bytes();
    assert(r.len() == 4 && o.len() == 8 && n.len() == 8);
    assert(enc_row(m) == a + t + r + d + o + n);
    lemma_at_split(b, p, a + t + r + d + o, n);
    lemma_at_split(b, p, a + t + r + d, o);
    lemma_at_split(b, p, a + t + r, d);
    lemma_at_split(b, p, a + t, r);
    lemma_at_split(b, p, a, t);
    lemma_dec_str(b, p, m.name);
    lemma_bytes_at(b, p + a.len(), t);
    lemma_u32_at(b, p + a.len() + 2, m.shape.len() as u32);
    lemma_dec_dims(b, p + a.len() + 6, m.shape);
    lemma_u64_at(b, p + a.len() + 6 + d.len(), m.offset);
    lemma_u64_at(b, p + a.len() + 14 + d.len(), m.nbytes);
}

proof fn lemma_dec_kv(b: Seq<u8>, p: int, i: int, kv: (Seq<char>, Seq<char>))
    requires
        str_fits(kv.0),
        str_fits(kv.1),
        at(b, p, enc_kv(kv)),
    ensures
        dec_kv(b, p, i) == Ok::<((Seq<char>, Seq<char>), int), ContainerError>((kv, p + enc_kv(kv).len())),
{
    lemma_at_split(b, p, enc_str(kv.0), enc_str(kv.1));
    lemma_dec_str(b, p, kv.0);
    lemma_dec_str(b, p + enc_str(kv.0).len(), kv.1);
}

/// A descriptor reads back as written, unless its `mins` is present but empty (the format
/// writes an absent `mins` as the empty string).
pub proof fn lemma_dec_descriptor(b: Seq<u8>, p: int, i: int, dv: DescriptorView)
    requires
        str_fits(dv.weight_fqn),
        str_fits(dv.scales_fqn),
        str_fits(mins_text(dv.mins_fqn)),
        dv.mins_fqn != Some(Seq::<char>::empty()),
        at(b, p, enc_descriptor(dv)),
    ensures
        dec_descriptor(b, p, i) == Ok::<(DescriptorView, int), ContainerError>((dv, p + enc_descriptor(dv).len())),
{
    let a = enc_str(dv.weight_fqn);
    let t = seq![super::SCHEME_AFFINE, dv.bits];
    let g = spec_u64_to_le_bytes(dv.group_size as u64);
    let y = seq![if dv.symmetric { 1u8 } else { 0u8 }];
    let c = enc_str(dv.scales_fqn);
    let m = enc_str(mins_text(dv.mins_fqn));
    lemma_auto_spec_u64_to_from_le_bytes();
    assert(g.len() == 8);
    assert(enc_descriptor(dv) == a + t + g + y + c + m);
    lemma_at_split(b, p, a + t + g + y + c, m);
    lemma_at_split(b, p, a + t + g + y, c);
    lemma_at_split(b, p, a + t + g, y);
    lemma_at_split(b, p, a + t, g);
    lemma_at_split(b, p, a, t);
    lemma_dec_str(b, p, dv.weight_fqn);
    lemma_bytes_at(b, p + a.len(), t);
    lemma_u64_at(b, p + a.len() + 2, dv.group_size as u64);
    assert(b.subrange(p + a.len() + 10, p + a.len() + 11) == y);
    assert(b[p + a.len() + 10] == b.subrange(p + a.len() + 10, p + a.len() + 11)[0]);
    lemma_dec_str(b, p + a.len() + 11, dv.scales_fqn);
    lemma_dec_str(b, p + a.len() + 11 + c.len(), mins_text(dv.mins_fqn));
    assert(mins_of(mins_text(dv.mins_fqn)) == dv.mins_fqn) by {
        match dv.mins_fqn {
            Some(t) => {
                assert(t.len() != 0) by {
                    if t.len() == 0 {
                        assert(t =~= Seq::<char>::empty());
                    }
                }
            },
            None => {},
        }
    }
}

/// The rows a writer emits for `es` all read back (names fit, ranks fit, supported dtypes).
pub open spec fn rows_readable(rows: Seq<MetaView>) -> bool {
    rows.len() <= u32::MAX && forall|i: int| #![trigger rows[i]] 0 <= i < rows.len() ==> str_fits(rows[i].name)
        && rows[i].shape.len() <= u32::MAX && (rows[i].dtype == DT_F32 || rows[i].dtype == DT_U8)
}

/// Normalizing a descriptor's `mins` leaves its bytes as they are and leaves no
/// empty-but-present `mins`.
proof fn lemma_normalize_mins(d: DescriptorView)
    ensures
        enc_descriptor(normalize_mins(d)) == enc_descriptor(d),
        mins_text(normalize_mins(d).mins_fqn) == mins_text(d.mins_fqn),
        normalize_mins(d).mins_fqn != Some(Seq::<char>::empty()),
{
    match d.mins_fqn {
        Some(t) => {
            if t.len() == 0 {
                assert(t =~= Seq::<char>::empty());
            }
        },
        None => {},
    }
}

proof fn lemma_enc_many_normalized(ds: Seq<DescriptorView>)
    ensures
        enc_many(descriptor_enc(), normalized(ds)) == enc_many(descriptor_enc(), ds),
    decreases ds.len(),
{
    if ds.len() > 0 {
        lemma_enc_many_normalized(ds.drop_last());
        assert(normalized(ds).drop_last() =~= normalized(ds.drop_last()));
        lemma_normalize_mins(ds.last());
        assert(normalized(ds).last() == normalize_mins(ds.last()));
    }
}

/// Reading back a written descriptor table, followed by any bytes, gives the descriptors with
/// each empty-but-present `mins` read as no `mins`, and stops just past the table.
pub proof fn law_descriptors_round_trip(b: Seq<u8>, p: int, ds: Seq<DescriptorView>)
    requires
        descriptors_fit(ds),
        at(b, p, enc_descriptors(ds)),
    ensures
        dec_descriptors(b, p) == Ok::<(Seq<DescriptorView>, int), ContainerError>(
            (normalized(ds), p + enc_descriptors(ds).len())),
{
    let nds = normalized(ds);
    lemma_auto_spec_u32_to_from_le_bytes();
    lemma_enc_many_normalized(ds);
    lemma_at_split(b, p, spec_u32_to_le_bytes(ds.len() as u32), enc_many(descriptor_enc(), ds));
    lemma_u32_at(b, p, ds.len() as u32);
    assert forall|i: int, q: int|
        #![trigger descriptor_item()(b, q, i)]
        0 <= i < nds.len() && at(b, q, descriptor_enc()(nds[i])) implies descriptor_item()(b, q, i)
            == Ok::<(DescriptorView, int), ContainerError>((nds[i], q + descriptor_enc()(nds[i]).len())) by {
        assert(ds[i] == ds[i]);
        assert(nds[i] == normalize_mins(ds[i]));
        lemma_normalize_mins(ds[i]);
        lemma_dec_descriptor(b, q, i, nds[i]);
    }
    lemma_dec_many_enc(descriptor_item(), descriptor_enc(), nds, b, p + 4);
}

proof fn lemma_dec_metadata(
    b: Seq<u8>,
    kvs: Seq<(Seq<char>, Seq<char>)>,
    rows: Seq<MetaView>,
    ds: Seq<DescriptorView>,
    g: Seq<u8>,
)
    requires
        kvs_fit(kvs),
        rows_readable(rows),
        descriptors_fit(ds),
        g.len() <= usize::MAX,
        at(b, 0, enc_metadata(kvs, rows, ds, g)),
    ensures
        dec_metadata(b) == Ok::<(Seq<MetaView>, Seq<DescriptorView>, Seq<u8>, int), ContainerError>(
            (rows, normalized(ds), g, enc_metadata(kvs, rows, ds, g).len() as int)),
{
    lemma_auto_spec_u32_to_from_le_bytes();
    lemma_auto_spec_u64_to_from_le_bytes();
    let h0 = magic();
    let h1 = spec_u32_to_le_bytes(VERSION);
    let h2 = spec_u32_to_le_bytes(kvs.len() as u32);
    let h3 = enc_many(kv_enc(), kvs);
    let h4 = spec_u32_to_le_bytes(rows.len() as u32);
    let h5 = enc_many(row_enc(), rows);
    let h6 = enc_descriptors(ds);
    let h7 = spec_u64_to_le_bytes(g.len() as u64);
    assert(enc_metadata(kvs, rows, ds, g) == h0 + h1 + h2 + h3 + h4 + h5 + h6 + h7 + g);
    lemma_at_split(b, 0, h0 + h1 + h2 + h3 + h4 + h5 + h6 + h7, g);
    lemma_at_split(b, 0, h0 + h1 + h2 + h3 + h4 + h5 + h6, h7);
    lemma_at_split(b, 0, h0 + h1 + h2 + h3 + h4 + h5, h6);
    lemma_at_split(b, 0, h0 + h1 + h2 + h3 + h4, h5);
    lemma_at_split(b, 0, h0 + h1 + h2 + h3, h4);
    lemma_at_split(b, 0, h0 + h1 + h2, h3);
    lemma_at_split(b, 0, h0 + h1, h2);
    lemma_at_split(b, 0, h0, h1);
    lemma_bytes_at(b, 0, h0);
    lemma_u32_at(b, 4, VERSION);
    lemma_u32_at(b, 8, kvs.len() as u32);
    assert forall|i: int, q: int|
        #![trigger kv_item()(b, q, i)]
        0 <= i < kvs.len() && at(b, q, kv_enc()(kvs[i])) implies kv_item()(b, q, i)
            == Ok::<((Seq<char>, Seq<char>), int), ContainerError>((kvs[i], q + kv_enc()(kvs[i]).len())) by {
        assert(kvs[i] == kvs[i]);
        lemma_dec_kv(b, q, i, kvs[i]);
    }
    lemma_dec_many_enc(kv_item(), kv_enc(), kvs, b, 12);
    let p4: int = 12 + h3.len() as int;
    lemma_u32_at(b, p4, rows.len() as u32);
    assert forall|i: int, q: int|
        #![trigger row_item()(b, q, i)]
        0 <= i < rows.len() && at(b, q, row_enc()(rows[i])) implies row_item()(b, q, i)
            == Ok::<(MetaView, int), ContainerError>((rows[i], q + row_enc()(rows[i]).len())) by {
        assert(rows[i] == rows[i]);
        lemma_dec_row(b, q, i, rows[i]);
    }
    lemma_dec_many_enc(row_item(), row_enc(), rows, b, p4 + 4);
    let p6: int = p4 + 4 + h5.len();
    law_descriptors_round_trip(b, p6, ds);
    let p7: int = p6 + h6.len();
    lemma_u64_at(b, p7, g.len() as u64);
    lemma_bytes_at(b, p7 + 8, g);
}

proof fn lemma_data_region(es: Seq<EntryView>, j: int)
    requires
        0 <= j <= es.len(),
    ensures
        data_region(es, j).len() == region_end(es, j),
        forall|k: int| 0 <= k < j ==> #[trigger] data_region(es, j).subrange(offset_at(es, k), offset_at(es, k) + es[k].data.len())
            == es[k].data,
    decreases j,
{
    if j > 0 {
        lemma_data_region(es, j - 1);
        let prev = data_region(es, j - 1);
        let z = zeros(offset_at(es, j - 1) - region_end(es, j - 1));
        assert(offset_at(es, j - 1) >= region_end(es, j - 1)) by {
            if j - 1 > 0 {
                assert(offset_at(es, j - 1) == spec_align_up(region_end(es, j - 1), TENSOR_ALIGN as int));
            }
        }
        let cur = data_region(es, j);
        assert(cur == prev + z + es[j - 1].data);
        assert forall|k: int| 0 <= k < j implies #[trigger] cur.subrange(offset_at(es, k), offset_at(es, k) + es[k].data.len())
            == es[k].data by {
            if k < j - 1 {
                lemma_offsets_below(es, k, j - 1);
                let lo = offset_at(es, k);
                let hi = offset_at(es, k) + es[k].data.len();
                assert(0 <= lo <= hi <= prev.len());
                assert forall|t: int| 0 <= t < hi - lo implies #[trigger] cur.subrange(lo, hi)[t] == prev.subrange(lo, hi)[t] by {
                    assert(cur[lo + t] == prev[lo + t]);
                }
                assert(cur.subrange(lo, hi) =~= prev.subrange(lo, hi));
            } else {
                assert(cur.subrange(offset_at(es, k), offset_at(es, k) + es[k].data.len()) =~= es[k].data);
            }
        }
    }
}

proof fn lemma_offset_nonneg(es: Seq<EntryView>, k: int)
    ensures
        offset_at(es, k) >= 0,
        region_end(es, k) >= 0,
    decreases k,
{
    if k > 0 {
        lemma_offset_nonneg(es, k - 1);
        assert(offset_at(es, k) == spec_align_up(region_end(es, k), TENSOR_ALIGN as int));
    }
}

proof fn lemma_offsets_below(es: Seq<EntryView>, k: int, j: int)
    requires
        0 <= k < j <= es.len(),
    ensures
        offset_at(es, k) >= 0,
        offset_at(es, k) + es[k].data.len() <= region_end(es, j),
        offset_at(es, k) >= region_end(es, k),
    decreases j,
{
    lemma_offset_nonneg(es, k);
    if k > 0 {
        assert(offset_at(es, k) == spec_align_up(region_end(es, k), TENSOR_ALIGN as int));
    }
    if j > k + 1 {
        lemma_offsets_below(es, k, j - 1);
        assert(offset_at(es, j - 1) == spec_align_up(region_end(es, j - 1), TENSOR_ALIGN as int));
    }
}


proof fn lemma_rows_readable(es: Seq<EntryView>)
    requires
        entries_fit(es),
        forall|k: int| 0 <= k < es.len() ==> (#[trigger] es[k]).dtype == DT_F32 || es[k].dtype == DT_U8,
    ensures
        rows_readable(rows_for(es)),
{
    let rows = rows_for(es);
    assert forall|i: int| #![trigger rows[i]] 0 <= i < rows.len() implies str_fits(rows[i].name)
        && rows[i].shape.len() <= u32::MAX && (rows[i].dtype == DT_F32 || rows[i].dtype == DT_U8) by {
        assert(es[i] == es[i]);
    }
}

proof fn lemma_payloads(
    kvs: Seq<(Seq<char>, Seq<char>)>,
    es: Seq<EntryView>,
    ds: Seq<DescriptorView>,
    g: Seq<u8>,
)
    requires
        writable(kvs, es, ds, g),
    ensures
        ({
            let m = enc_metadata(kvs, rows_for(es), ds, g);
            let base = spec_align_up(m.len() as int, REGION_ALIGN as int);
            forall|k: int| 0 <= k < es.len() ==> #[trigger] payload_of(enc_container(kvs, es, ds, g), base, rows_for(es)[k])
                == Some(es[k].data)
        }),
{
    let rows = rows_for(es);
    let n = es.len() as int;
    let m = enc_metadata(kvs, rows, ds, g);
    let base = spec_align_up(m.len() as int, REGION_ALIGN as int);
    let pad = zeros(base - m.len());
    let dr = data_region(es, n);
    let file = enc_container(kvs, es, ds, g);
    assert(base >= m.len());
    assert(file == m + pad + dr);
    assert((m + pad).len() == base);
    lemma_data_region(es, n);
    assert forall|k: int| 0 <= k < n implies #[trigger] payload_of(file, base, rows[k]) == Some(es[k].data) by {
        lemma_offsets_below(es, k, n);
        let o = offset_at(es, k);
        let len = es[k].data.len();
        assert(rows[k].offset as int == o);
        assert(rows[k].nbytes as int == len);
        assert(dr.subrange(o, o + len) == es[k].data);
        assert forall|t: int| 0 <= t < len implies #[trigger] file.subrange(base + o, base + o + len)[t] == dr.subrange(o, o + len)[t] by {
            assert(file[base + o + t] == dr[o + t]);
        }
        assert(file.subrange(base + o, base + o + len) =~= dr.subrange(o, o + len));
    }
}

/// Reading back a written metadata region, followed by any bytes, gives the tensor rows the
/// writer emits for `es` (names, kinds, dtypes, shapes, data offsets and byte lengths), the
/// descriptors with each empty-but-present `mins` read as no `mins`, and the graph blob, and
/// stops just past the region, for every input the format can hold whose rows carry a
/// supported dtype tag.
pub proof fn law_metadata_round_trip(
    b: Seq<u8>,
    kvs: Seq<(Seq<char>, Seq<char>)>,
    es: Seq<EntryView>,
    ds: Seq<DescriptorView>,
    g: Seq<u8>,
)
    requires
        writable(kvs, es, ds, g),
        forall|k: int| 0 <= k < es.len() ==> (#[trigger] es[k]).dtype == DT_F32 || es[k].dtype == DT_U8,
        g.len() <= usize::MAX,
        at(b, 0, enc_metadata(kvs, rows_for(es), ds, g)),
    ensures
        dec_metadata(b) == Ok::<(Seq<MetaView>, Seq<DescriptorView>, Seq<u8>, int), ContainerError>(
            (rows_for(es), normalized(ds), g, enc_metadata(kvs, rows_for(es), ds, g).len() as int)),
{
    lemma_rows_readable(es);
    lemma_dec_metadata(b, kvs, rows_for(es), ds, g);
}

/// Reading back a written container gives back the rows with their payloads, the quant
/// descriptors (each empty-but-present `mins` read as no `mins`) and the graph blob, for every
/// input the format can hold whose rows carry a supported dtype tag.
pub proof fn law_container_round_trip(
    kvs: Seq<(Seq<char>, Seq<char>)>,
    es: Seq<EntryView>,
    ds: Seq<DescriptorView>,
    g: Seq<u8>,
)
    requires
        writable(kvs, es, ds, g),
        forall|k: int| 0 <= k < es.len() ==> (#[trigger] es[k]).dtype == DT_F32 || es[k].dtype == DT_U8,
        g.len() <= usize::MAX,
    ensures
        dec_container(enc_container(kvs, es, ds, g)) == Ok::<(Seq<EntryView>, Seq<DescriptorView>, Seq<u8>), ContainerError>(
            (es, normalized(ds), g)),
{
    let rows = rows_for(es);
    let n = es.len() as int;
    let m = enc_metadata(kvs, rows, ds, g);
    let base = spec_align_up(m.len() as int, REGION_ALIGN as int);
    let file = enc_container(kvs, es, ds, g);
    lemma_rows_readable(es);
    assert(at(file, 0, m)) by {
        assert(file.subrange(0, m.len() as int) =~= m);
    }
    lemma_dec_metadata(file, kvs, rows, ds, g);
    lemma_payloads(kvs, es, ds, g);
    let got = Seq::new(rows.len(), |i: int| entry_of(rows[i], payload_of(file, base, rows[i])->0));
    assert(got =~= es);
}

proof fn lemma_align_up_multiple(n: int, a: int)
    requires
        n >= 0,
        a > 0,
    ensures
        spec_align_up(n, a) % a == 0,
        n <= spec_align_up(n, a) < n + a,
{
    vstd::arithmetic::div_mod::lemma_fundamental_div_mod(n, a);
    if n % a != 0 {
        let q = n / a;
        assert(n + (a - n % a) == (q + 1) * a) by (nonlinear_arith)
            requires
                n == a * q + n % a,
        ;
        vstd::arithmetic::div_mod::lemma_mod_multiples_basic(q + 1, a);
    }
}

/// The layout the format promises a mapping reader: every payload starts on a 64-byte boundary
/// of the data region, after the end of the payload before it, and the data region itself
/// starts on a 4096-byte boundary of the file.
pub proof fn law_layout_aligned(
    kvs: Seq<(Seq<char>, Seq<char>)>,
    es: Seq<EntryView>,
    ds: Seq<DescriptorView>,
    g: Seq<u8>,
    k: int,
)
    requires
        0 <= k < es.len(),
    ensures
        offset_at(es, k) % (TENSOR_ALIGN as int) == 0,
        region_end(es, k) <= offset_at(es, k),
        spec_align_up(enc_metadata(kvs, rows_for(es), ds, g).len() as int, REGION_ALIGN as int) % (REGION_ALIGN as int) == 0,
{
    lemma_offset_nonneg(es, k);
    if k > 0 {
        lemma_align_up_multiple(region_end(es, k), TENSOR_ALIGN as int);
    }
    lemma_align_up_multiple(enc_metadata(kvs, rows_for(es), ds, g).len() as int, REGION_ALIGN as int);
}

} // verus!
