//! What the GGUF header reader promises across inputs: versions 2 and 3 share one layout and
//! read alike, and only another version is refused as unsupported.
use super::parse::{
    alignment_from, alignment_key, data_start, dec_elems, dec_gguf, dec_gstr, dec_info, dec_infos, dec_kv, dec_kvs, dec_scalar, dec_u64s, dec_value,
    parse_spec, GgufError, InfoView, ScalarView, ValueView, MAGIC,
};
use crate::wire::{bytes_at, u16_at, u32_at, u64_at, u8_at};
use vstd::bytes::*;
use vstd::prelude::*;

verus! {

/// `b` and `c` are as long and hold the same bytes from `lo` on.
pub open spec fn same_from(b: Seq<u8>, c: Seq<u8>, lo: int) -> bool {
    b.len() == c.len() && forall|i: int| lo <= i < b.len() ==> b[i] == c[i]
}

proof fn lemma_same_reads(b: Seq<u8>, c: Seq<u8>, lo: int, p: int, n: int)
    requires
        same_from(b, c, lo),
        0 <= lo <= p,
    ensures
        bytes_at(b, p, n) == bytes_at(c, p, n),
        u8_at(b, p) == u8_at(c, p),
        u16_at(b, p) == u16_at(c, p),
        u32_at(b, p) == u32_at(c, p),
        u64_at(b, p) == u64_at(c, p),
{
    if 0 <= n && p + n <= b.len() {
        assert(b.subrange(p, p + n) =~= c.subrange(p, p + n));
    }
    if p + 2 <= b.len() {
        assert(b.subrange(p, p + 2) =~= c.subrange(p, p + 2));
    }
    if p + 4 <= b.len() {
        assert(b.subrange(p, p + 4) =~= c.subrange(p, p + 4));
    }
    if p + 8 <= b.len() {
        assert(b.subrange(p, p + 8) =~= c.subrange(p, p + 8));
    }
}

proof fn lemma_same_gstr(b: Seq<u8>, c: Seq<u8>, lo: int, p: int)
    requires
        same_from(b, c, lo),
        0 <= lo <= p,
    ensures
        dec_gstr(b, p) == dec_gstr(c, p),
        dec_gstr(b, p) matches Ok((_, e)) ==> e >= p,
        !(dec_gstr(b, p) matches Err(GgufError::UnsupportedVersion(_))),
{
    lemma_same_reads(b, c, lo, p, 0);
    if let Some((n, q)) = u64_at(b, p) {
        lemma_same_reads(b, c, lo, q, n as int);
    }
}

proof fn lemma_same_scalar(b: Seq<u8>, c: Seq<u8>, lo: int, p: int, ty: u32)
    requires
        same_from(b, c, lo),
        0 <= lo <= p,
    ensures
        dec_scalar(b, p, ty) == dec_scalar(c, p, ty),
        dec_scalar(b, p, ty) matches Ok((_, e)) ==> e >= p,
        !(dec_scalar(b, p, ty) matches Err(GgufError::UnsupportedVersion(_))),
{
    lemma_same_reads(b, c, lo, p, 0);
    lemma_same_gstr(b, c, lo, p);
}

proof fn lemma_same_elems(b: Seq<u8>, c: Seq<u8>, lo: int, p: int, ty: u32, count: nat)
    requires
        same_from(b, c, lo),
        0 <= lo <= p,
    ensures
        dec_elems(b, p, ty, count) == dec_elems(c, p, ty, count),
        dec_elems(b, p, ty, count) matches Ok((_, e)) ==> e >= p,
        !(dec_elems(b, p, ty, count) matches Err(GgufError::UnsupportedVersion(_))),
    decreases count,
{
    if count > 0 {
        lemma_same_elems(b, c, lo, p, ty, (count - 1) as nat);
        if let Ok((_, q)) = dec_elems(b, p, ty, (count - 1) as nat) {
            lemma_same_scalar(b, c, lo, q, ty);
        }
    }
}

proof fn lemma_same_value(b: Seq<u8>, c: Seq<u8>, lo: int, p: int, ty: u32)
    requires
        same_from(b, c, lo),
        0 <= lo <= p,
    ensures
        dec_value(b, p, ty) == dec_value(c, p, ty),
        dec_value(b, p, ty) matches Ok((_, e)) ==> e >= p,
        !(dec_value(b, p, ty) matches Err(GgufError::UnsupportedVersion(_))),
{
    lemma_same_reads(b, c, lo, p, 0);
    lemma_same_scalar(b, c, lo, p, ty);
    if let Some((et, q)) = u32_at(b, p) {
        lemma_same_reads(b, c, lo, q, 0);
        if let Some((count, r)) = u64_at(b, q) {
            lemma_same_elems(b, c, lo, r, et, count as nat);
        }
    }
}

proof fn lemma_same_kv(b: Seq<u8>, c: Seq<u8>, lo: int, p: int)
    requires
        same_from(b, c, lo),
        0 <= lo <= p,
    ensures
        dec_kv(b, p) == dec_kv(c, p),
        dec_kv(b, p) matches Ok((_, e)) ==> e >= p,
        !(dec_kv(b, p) matches Err(GgufError::UnsupportedVersion(_))),
{
    lemma_same_gstr(b, c, lo, p);
    if let Ok((_, q)) = dec_gstr(b, p) {
        lemma_same_reads(b, c, lo, q, 0);
        if let Some((ty, r)) = u32_at(b, q) {
            lemma_same_value(b, c, lo, r, ty);
        }
    }
}

proof fn lemma_same_kvs(b: Seq<u8>, c: Seq<u8>, lo: int, p: int, n: nat)
    requires
        same_from(b, c, lo),
        0 <= lo <= p,
    ensures
        dec_kvs(b, p, n) == dec_kvs(c, p, n),
        dec_kvs(b, p, n) matches Ok((_, e)) ==> e >= p,
        !(dec_kvs(b, p, n) matches Err(GgufError::UnsupportedVersion(_))),
    decreases n,
{
    if n > 0 {
        lemma_same_kvs(b, c, lo, p, (n - 1) as nat);
        if let Ok((_, q)) = dec_kvs(b, p, (n - 1) as nat) {
            lemma_same_kv(b, c, lo, q);
        }
    }
}

proof fn lemma_same_u64s(b: Seq<u8>, c: Seq<u8>, lo: int, p: int, n: nat)
    requires
        same_from(b, c, lo),
        0 <= lo <= p,
    ensures
        dec_u64s(b, p, n) == dec_u64s(c, p, n),
        dec_u64s(b, p, n) matches Some((_, e)) ==> e >= p,
    decreases n,
{
    if n > 0 {
        lemma_same_u64s(b, c, lo, p, (n - 1) as nat);
        if let Some((_, q)) = dec_u64s(b, p, (n - 1) as nat) {
            lemma_same_reads(b, c, lo, q, 0);
        }
    }
}

proof fn lemma_same_info(b: Seq<u8>, c: Seq<u8>, lo: int, p: int)
    requires
        same_from(b, c, lo),
        0 <= lo <= p,
    ensures
        dec_info(b, p) == dec_info(c, p),
        dec_info(b, p) matches Ok((_, e)) ==> e >= p,
        !(dec_info(b, p) matches Err(GgufError::UnsupportedVersion(_))),
{
    lemma_same_gstr(b, c, lo, p);
    if let Ok((_, q)) = dec_gstr(b, p) {
        lemma_same_reads(b, c, lo, q, 0);
        if let Some((nd, r)) = u32_at(b, q) {
            lemma_same_u64s(b, c, lo, r, nd as nat);
            if let Some((_, s)) = dec_u64s(b, r, nd as nat) {
                lemma_same_reads(b, c, lo, s, 0);
                if let Some((_, t)) = u32_at(b, s) {
                    lemma_same_reads(b, c, lo, t, 0);
                }
            }
        }
    }
}

proof fn lemma_same_infos(b: Seq<u8>, c: Seq<u8>, lo: int, p: int, n: nat)
    requires
        same_from(b, c, lo),
        0 <= lo <= p,
    ensures
        dec_infos(b, p, n) == dec_infos(c, p, n),
        dec_infos(b, p, n) matches Ok((_, e)) ==> e >= p,
        !(dec_infos(b, p, n) matches Err(GgufError::UnsupportedVersion(_))),
    decreases n,
{
    if n > 0 {
        lemma_same_infos(b, c, lo, p, (n - 1) as nat);
        if let Ok((_, q)) = dec_infos(b, p, (n - 1) as nat) {
            lemma_same_info(b, c, lo, q);
        }
    }
}

/// GGUF versions 2 and 3 share one layout: two files with the same magic and the same bytes
/// after the version field, each of version 2 or 3, read as the same metadata, directory and
/// data start (or fail alike).
pub proof fn law_versions_2_and_3_read_alike(b: Seq<u8>, c: Seq<u8>)
    requires
        same_from(b, c, 8),
        forall|i: int| 0 <= i < 4 ==> b[i] == c[i],
        u32_at(b, 4) matches Some((v, _)) && (v == 2 || v == 3),
        u32_at(c, 4) matches Some((w, _)) && (w == 2 || w == 3),
    ensures
        parse_spec(b) == parse_spec(c),
{
    assert(b.subrange(0, 4) =~= c.subrange(0, 4));
    lemma_same_reads(b, c, 8, 8, 0);
    lemma_same_reads(b, c, 8, 16, 0);
    if let (Some((tc, _)), Some((kc, p4))) = (u64_at(b, 8), u64_at(b, 16)) {
        lemma_same_kvs(b, c, 8, p4, kc as nat);
        if let Ok((_, p5)) = dec_kvs(b, p4, kc as nat) {
            lemma_same_infos(b, c, 8, p5, tc as nat);
        }
    }
    assert(dec_gguf(b) == dec_gguf(c));
}

/// A file is refused as of an unsupported version only when its version field is neither 2
/// nor 3; a GGUF file of version 2 or 3 is never refused for its version.
pub proof fn law_unsupported_version(b: Seq<u8>)
    ensures
        parse_spec(b) matches Err(GgufError::UnsupportedVersion(v)) ==> v != 2 && v != 3 && u32_at(b, 4) == Some((v, 8int)),
        u32_at(b, 4) matches Some((v, _)) && (v == 2 || v == 3) ==> !(parse_spec(b) matches Err(GgufError::UnsupportedVersion(_))),
        u32_at(b, 0) == Some((MAGIC, 4int)) ==> match u32_at(b, 4) {
            Some((v, _)) => v != 2 && v != 3
                ==> parse_spec(b) == Err::<(Seq<(Seq<char>, ValueView)>, Seq<InfoView>, int), GgufError>(GgufError::UnsupportedVersion(v)),
            None => true,
        },
{
    if let (Some((tc, _)), Some((kc, p4))) = (u64_at(b, 8), u64_at(b, 16)) {
        lemma_same_kvs(b, b, 0, p4, kc as nat);
        if let Ok((_, p5)) = dec_kvs(b, p4, kc as nat) {
            lemma_same_infos(b, b, 0, p5, tc as nat);
        }
    }
}

/// The smallest GGUF file of version 2 or 3, a header with no metadata and no tensors, reads
/// as empty, with its data section at 32, whatever follows the header.
pub proof fn law_empty_header_reads(v: u32, tail: Seq<u8>)
    requires
        v == 2 || v == 3,
    ensures
        parse_spec(spec_u32_to_le_bytes(MAGIC) + spec_u32_to_le_bytes(v) + spec_u64_to_le_bytes(0) + spec_u64_to_le_bytes(0) + tail)
            == Ok::<(Seq<(Seq<char>, ValueView)>, Seq<InfoView>, int), GgufError>((seq![], seq![], 32)),
{
    lemma_auto_spec_u32_to_from_le_bytes();
    lemma_auto_spec_u64_to_from_le_bytes();
    let h0 = spec_u32_to_le_bytes(MAGIC);
    let h1 = spec_u32_to_le_bytes(v);
    let h2 = spec_u64_to_le_bytes(0);
    let b = h0 + h1 + h2 + h2 + tail;
    assert(b.subrange(0, 4) =~= h0);
    assert(b.subrange(4, 8) =~= h1);
    assert(b.subrange(8, 16) =~= h2);
    assert(b.subrange(16, 24) =~= h2);
    assert(dec_kvs(b, 24, 0) == Ok::<(Seq<(Seq<char>, ValueView)>, int), GgufError>((seq![], 24)));
    assert(dec_infos(b, 24, 0) == Ok::<(Seq<InfoView>, int), GgufError>((seq![], 24)));
    assert(alignment_from(seq![], 0) == 32);
}

proof fn lemma_alignment_at(kvs: Seq<(Seq<char>, ValueView)>, i: int, f: int)
    requires
        0 <= i <= f,
        forall|k: int| i <= k < f && k < kvs.len() ==> #[trigger] kvs[k].0 != alignment_key(),
    ensures
        alignment_from(kvs, i) == alignment_from(kvs, f),
    decreases f - i,
{
    if i < f {
        lemma_alignment_at(kvs, i + 1, f);
    }
}

/// The tensor-data alignment: the value of the first `general.alignment` entry when it is a
/// u32 (0 counting as 1), and 32 when there is no such entry or it holds another type.
pub proof fn law_alignment(kvs: Seq<(Seq<char>, ValueView)>, f: int)
    requires
        0 <= f <= kvs.len(),
        forall|k: int| 0 <= k < f ==> #[trigger] kvs[k].0 != alignment_key(),
    ensures
        f == kvs.len() ==> alignment_from(kvs, 0) == 32,
        f < kvs.len() && kvs[f].0 == alignment_key() ==> alignment_from(kvs, 0) == match kvs[f].1 {
            ValueView::Scalar(ScalarView::U32(a)) => if a == 0 { 1 } else { a as int },
            _ => 32,
        },
{
    lemma_alignment_at(kvs, 0, f);
}

/// The tensor-data section starts at the first multiple of the alignment at or after the end
/// of the directory.
pub proof fn law_data_start(b: Seq<u8>)
    ensures
        parse_spec(b) matches Ok((kvs, infos, start)) ==> dec_gguf(b) matches Ok((kvs2, infos2, end)) && kvs2 == kvs
            && infos2 == infos && ({
                let a = alignment_from(kvs, 0);
                &&& a >= 1
                &&& start % a == 0
                &&& end <= start < end + a
            }),
{
    if let Ok((kvs, infos, end)) = dec_gguf(b) {
        let a = alignment_from(kvs, 0);
        lemma_alignment_ge1(kvs, 0);
        lemma_dec_gguf_end(b);
        let q = (end + a - 1) / a;
        vstd::arithmetic::div_mod::lemma_fundamental_div_mod(end + a - 1, a);
        vstd::arithmetic::mul::lemma_mul_is_commutative(q, a);
        vstd::arithmetic::div_mod::lemma_mod_multiples_basic(q, a);
        assert(data_start(end, a) == q * a);
    }
}

proof fn lemma_alignment_ge1(kvs: Seq<(Seq<char>, ValueView)>, i: int)
    ensures
        alignment_from(kvs, i) >= 1,
    decreases kvs.len() - i,
{
    if 0 <= i < kvs.len() {
        lemma_alignment_ge1(kvs, i + 1);
    }
}

proof fn lemma_dec_gguf_end(b: Seq<u8>)
    ensures
        dec_gguf(b) matches Ok((_, _, end)) ==> end >= 0,
{
    if let (Some((tc, _)), Some((kc, p4))) = (u64_at(b, 8), u64_at(b, 16)) {
        lemma_same_kvs(b, b, 0, p4, kc as nat);
        if let Ok((_, p5)) = dec_kvs(b, p4, kc as nat) {
            lemma_same_infos(b, b, 0, p5, tc as nat);
        }
    }
}

} // verus!
