//! GGUF container parser: file bytes -> (metadata key/values, tensor directory, position where
//! the aligned tensor-data section starts). Little-endian throughout. The parent turns the
//! directory into tensors.
use crate::wire::{bytes_at, read_bytes, read_u16, read_u32, read_u64, read_u8, string_from_utf8, u16_at, u32_at, u64_at, u8_at, utf8_text};
use vstd::prelude::*;

verus! {

/// "GGUF" as a little-endian u32.
pub const MAGIC: u32 = 0x4655_4747;

/// The metadata value type tag of an array.
pub const GGUF_ARRAY: u32 = 9;

/// Why a GGUF file could not be read.
#[derive(Clone, Copy, Debug, PartialEq, Eq, Structural)]
pub enum GgufError {
    /// The bytes end before the format says they should.
    UnexpectedEof,
    /// The file does not start with `GGUF`.
    BadMagic,
    /// The version is neither 2 nor 3.
    UnsupportedVersion(u32),
    /// A string is not valid UTF-8.
    BadUtf8,
    /// An array's element type is itself an array.
    NestedArray,
    /// A metadata value type tag that the format does not define.
    UnknownValueType(u32),
    /// The aligned tensor-data section starts past the end of the file.
    DataPastEof,
    /// Tensor `tensor`'s data offset lies past the end of the file.
    OffsetPastEof { tensor: usize },
    /// Tensor `tensor`'s element count does not fit the machine's integer width.
    TooLarge { tensor: usize },
    /// Tensor `tensor`'s data could not be decoded.
    Undecodable { tensor: usize, reason: crate::gguf::dequant::DequantError },
}

/// A GGUF metadata value that is not an array. Floats are kept as their IEEE-754 bit patterns.
#[derive(Clone, Debug, PartialEq, Eq)]
pub enum GgufScalar {
    U8(u8),
    I8(i8),
    U16(u16),
    I16(i16),
    U32(u32),
    I32(i32),
    U64(u64),
    I64(i64),
    /// An f32, as its bit pattern.
    F32(u32),
    /// An f64, as its bit pattern.
    F64(u64),
    Bool(bool),
    String(String),
}

/// A GGUF metadata value. Arrays never nest: the format gives them a flat element type.
#[derive(Clone, Debug, PartialEq, Eq)]
pub enum GgufValue {
    Scalar(GgufScalar),
    Array(Vec<GgufScalar>),
}

pub enum ScalarView {
    U8(u8),
    I8(i8),
    U16(u16),
    I16(i16),
    U32(u32),
    I32(i32),
    U64(u64),
    I64(i64),
    F32(u32),
    F64(u64),
    Bool(bool),
    String(Seq<char>),
}

pub enum ValueView {
    Scalar(ScalarView),
    Array(Seq<ScalarView>),
}

impl View for GgufScalar {
    type V = ScalarView;

    open spec fn view(&self) -> ScalarView {
        match self {
            GgufScalar::U8(x) => ScalarView::U8(*x),
            GgufScalar::I8(x) => ScalarView::I8(*x),
            GgufScalar::U16(x) => ScalarView::U16(*x),
            GgufScalar::I16(x) => ScalarView::I16(*x),
            GgufScalar::U32(x) => ScalarView::U32(*x),
            GgufScalar::I32(x) => ScalarView::I32(*x),
            GgufScalar::U64(x) => ScalarView::U64(*x),
            GgufScalar::I64(x) => ScalarView::I64(*x),
            GgufScalar::F32(x) => ScalarView::F32(*x),
            GgufScalar::F64(x) => ScalarView::F64(*x),
            GgufScalar::Bool(x) => ScalarView::Bool(*x),
            GgufScalar::String(s) => ScalarView::String(s@),
        }
    }
}

pub open spec fn scalars_view(v: Seq<GgufScalar>) -> Seq<ScalarView> {
    v.map_values(|x: GgufScalar| x@)
}

impl View for GgufValue {
    type V = ValueView;

    open spec fn view(&self) -> ValueView {
        match self {
            GgufValue::Scalar(x) => ValueView::Scalar(x@),
            GgufValue::Array(v) => ValueView::Array(scalars_view(v@)),
        }
    }
}

/// A tensor directory entry. `dims` are already reversed to row-major order (GGUF lists the
/// fastest-varying dimension first).
pub struct TensorInfo {
    pub name: String,
    pub dims: Vec<u64>,
    pub ggml_type: u32,
    /// Relative to the start of the tensor-data section.
    pub offset: u64,
}

pub struct InfoView {
    pub name: Seq<char>,
    pub dims: Seq<u64>,
    pub ggml_type: u32,
    pub offset: u64,
}

impl View for TensorInfo {
    type V = InfoView;

    open spec fn view(&self) -> InfoView {
        InfoView { name: self.name@, dims: self.dims@, ggml_type: self.ggml_type, offset: self.offset }
    }
}

pub open spec fn infos_view(v: Seq<TensorInfo>) -> Seq<InfoView> {
    v.map_values(|t: TensorInfo| t@)
}

pub open spec fn kvs_view(v: Seq<(String, GgufValue)>) -> Seq<(Seq<char>, ValueView)> {
    v.map_values(|kv: (String, GgufValue)| (kv.0@, kv.1@))
}

/// A GGUF string at `p`: a u64 byte length, then that many UTF-8 bytes.
pub open spec fn dec_gstr(b: Seq<u8>, p: int) -> Result<(Seq<char>, int), GgufError> {
    match u64_at(b, p) {
        None => Err(GgufError::UnexpectedEof),
        Some((n, q)) => match bytes_at(b, q, n as int) {
            None => Err(GgufError::UnexpectedEof),
            Some((s, e)) => match utf8_text(s) {
                None => Err(GgufError::BadUtf8),
                Some(t) => Ok((t, e)),
            },
        },
    }
}

/// A non-array metadata value of type tag `ty` at `p`.
pub open spec fn dec_scalar(b: Seq<u8>, p: int, ty: u32) -> Result<(ScalarView, int), GgufError> {
    if ty == 0 || ty == 1 || ty == 7 {
        match u8_at(b, p) {
            None => Err(GgufError::UnexpectedEof),
            Some((x, e)) => Ok((
                if ty == 0 {
                    ScalarView::U8(x)
                } else if ty == 1 {
                    ScalarView::I8(x as i8)
                } else {
                    ScalarView::Bool(x != 0)
                },
                e,
            )),
        }
    } else if ty == 2 || ty == 3 {
        match u16_at(b, p) {
            None => Err(GgufError::UnexpectedEof),
            Some((x, e)) => Ok((if ty == 2 { ScalarView::U16(x) } else { ScalarView::I16(x as i16) }, e)),
        }
    } else if ty == 4 || ty == 5 || ty == 6 {
        match u32_at(b, p) {
            None => Err(GgufError::UnexpectedEof),
            Some((x, e)) => Ok((
                if ty == 4 {
                    ScalarView::U32(x)
                } else if ty == 5 {
                    ScalarView::I32(x as i32)
                } else {
                    ScalarView::F32(x)
                },
                e,
            )),
        }
    } else if ty == 10 || ty == 11 || ty == 12 {
        match u64_at(b, p) {
            None => Err(GgufError::UnexpectedEof),
            Some((x, e)) => Ok((
                if ty == 10 {
                    ScalarView::U64(x)
                } else if ty == 11 {
                    ScalarView::I64(x as i64)
                } else {
                    ScalarView::F64(x)
                },
                e,
            )),
        }
    } else if ty == 8 {
        match dec_gstr(b, p) {
            Err(e) => Err(e),
            Ok((s, e)) => Ok((ScalarView::String(s), e)),
        }
    } else {
        Err(GgufError::UnknownValueType(ty))
    }
}

/// `count` non-array values of type tag `ty`, one after another from `p`.
pub open spec fn dec_elems(b: Seq<u8>, p: int, ty: u32, count: nat) -> Result<(Seq<ScalarView>, int), GgufError>
    decreases count,
{
    if count == 0 {
        Ok((seq![], p))
    } else {
        match dec_elems(b, p, ty, (count - 1) as nat) {
            Err(e) => Err(e),
            Ok((xs, q)) => match dec_scalar(b, q, ty) {
                Err(e) => Err(e),
                Ok((x, r)) => Ok((xs.push(x), r)),
            },
        }
    }
}

/// A metadata value of type tag `ty` at `p`; an array is its element type tag, a u64 count
/// and the elements.
pub open spec fn dec_value(b: Seq<u8>, p: int, ty: u32) -> Result<(ValueView, int), GgufError> {
    if ty == GGUF_ARRAY {
        match u32_at(b, p) {
            None => Err(GgufError::UnexpectedEof),
            Some((et, q)) => if et == GGUF_ARRAY {
                Err(GgufError::NestedArray)
            } else {
                match u64_at(b, q) {
                    None => Err(GgufError::UnexpectedEof),
                    Some((count, r)) => match dec_elems(b, r, et, count as nat) {
                        Err(e) => Err(e),
                        Ok((xs, e)) => Ok((ValueView::Array(xs), e)),
                    },
                }
            },
        }
    } else {
        match dec_scalar(b, p, ty) {
            Err(e) => Err(e),
            Ok((x, e)) => Ok((ValueView::Scalar(x), e)),
        }
    }
}

/// One metadata entry at `p`: the key, the value type tag, the value.
pub open spec fn dec_kv(b: Seq<u8>, p: int) -> Result<((Seq<char>, ValueView), int), GgufError> {
    match dec_gstr(b, p) {
        Err(e) => Err(e),
        Ok((k, q)) => match u32_at(b, q) {
            None => Err(GgufError::UnexpectedEof),
            Some((ty, r)) => match dec_value(b, r, ty) {
                Err(e) => Err(e),
                Ok((v, e)) => Ok(((k, v), e)),
            },
        },
    }
}

/// `n` metadata entries from `p`.
pub open spec fn dec_kvs(b: Seq<u8>, p: int, n: nat) -> Result<(Seq<(Seq<char>, ValueView)>, int), GgufError>
    decreases n,
{
    if n == 0 {
        Ok((seq![], p))
    } else {
        match dec_kvs(b, p, (n - 1) as nat) {
            Err(e) => Err(e),
            Ok((xs, q)) => match dec_kv(b, q) {
                Err(e) => Err(e),
                Ok((x, r)) => Ok((xs.push(x), r)),
            },
        }
    }
}

/// `n` u64 values from `p`.
pub open spec fn dec_u64s(b: Seq<u8>, p: int, n: nat) -> Option<(Seq<u64>, int)>
    decreases n,
{
    if n == 0 {
        Some((seq![], p))
    } else {
        match dec_u64s(b, p, (n - 1) as nat) {
            None => None,
            Some((xs, q)) => match u64_at(b, q) {
                None => None,
                Some((x, r)) => Some((xs.push(x), r)),
            },
        }
    }
}

/// `s` back to front.
pub open spec fn reversed(s: Seq<u64>) -> Seq<u64> {
    Seq::new(s.len(), |i: int| s[s.len() - 1 - i])
}

/// One tensor directory entry at `p`: name, rank, dims (fastest first), ggml type, offset.
pub open spec fn dec_info(b: Seq<u8>, p: int) -> Result<(InfoView, int), GgufError> {
    match dec_gstr(b, p) {
        Err(e) => Err(e),
        Ok((name, q)) => match u32_at(b, q) {
            None => Err(GgufError::UnexpectedEof),
            Some((nd, r)) => match dec_u64s(b, r, nd as nat) {
                None => Err(GgufError::UnexpectedEof),
                Some((dims, s)) => match u32_at(b, s) {
                    None => Err(GgufError::UnexpectedEof),
                    Some((ty, t)) => match u64_at(b, t) {
                        None => Err(GgufError::UnexpectedEof),
                        Some((off, e)) => Ok((InfoView { name, dims: reversed(dims), ggml_type: ty, offset: off }, e)),
                    },
                },
            },
        },
    }
}

/// `n` tensor directory entries from `p`.
pub open spec fn dec_infos(b: Seq<u8>, p: int, n: nat) -> Result<(Seq<InfoView>, int), GgufError>
    decreases n,
{
    if n == 0 {
        Ok((seq![], p))
    } else {
        match dec_infos(b, p, (n - 1) as nat) {
            Err(e) => Err(e),
            Ok((xs, q)) => match dec_info(b, q) {
                Err(e) => Err(e),
                Ok((x, r)) => Ok((xs.push(x), r)),
            },
        }
    }
}

/// A whole GGUF header: magic, version (2 or 3), tensor count, metadata count, the metadata,
/// the tensor directory, and the position where the directory ends.
pub open spec fn dec_gguf(b: Seq<u8>) -> Result<(Seq<(Seq<char>, ValueView)>, Seq<InfoView>, int), GgufError> {
    match u32_at(b, 0) {
        None => Err(GgufError::UnexpectedEof),
        Some((magic, p1)) => if magic != MAGIC {
            Err(GgufError::BadMagic)
        } else {
            match u32_at(b, p1) {
                None => Err(GgufError::UnexpectedEof),
                Some((version, p2)) => if version != 2 && version != 3 {
                    Err(GgufError::UnsupportedVersion(version))
                } else {
                    match u64_at(b, p2) {
                        None => Err(GgufError::UnexpectedEof),
                        Some((tc, p3)) => match u64_at(b, p3) {
                            None => Err(GgufError::UnexpectedEof),
                            Some((kc, p4)) => match dec_kvs(b, p4, kc as nat) {
                                Err(e) => Err(e),
                                Ok((kvs, p5)) => match dec_infos(b, p5, tc as nat) {
                                    Err(e) => Err(e),
                                    Ok((infos, p6)) => Ok((kvs, infos, p6)),
                                },
                            },
                        },
                    }
                },
            }
        },
    }
}

/// The metadata key that sets the tensor-data alignment.
pub open spec fn alignment_key() -> Seq<char> {
    "general.alignment"@
}

/// The tensor-data alignment the metadata from entry `i` on sets: the value of the first
/// `general.alignment` entry if it is a u32 (at least 1), else 32.
pub open spec fn alignment_from(kvs: Seq<(Seq<char>, ValueView)>, i: int) -> int
    decreases kvs.len() - i,
{
    if 0 <= i < kvs.len() {
        if kvs[i].0 == alignment_key() {
            match kvs[i].1 {
                ValueView::Scalar(ScalarView::U32(a)) => if a == 0 { 1 } else { a as int },
                _ => 32,
            }
        } else {
            alignment_from(kvs, i + 1)
        }
    } else {
        32
    }
}

/// Where the tensor-data section starts: the end of the directory rounded up to `align`.
pub open spec fn data_start(end: int, align: int) -> int {
    ((end + align - 1) / align) * align
}

/// A parsed header: the metadata, the tensor directory and the position where the tensor-data
/// section starts, the end of the directory rounded up to the alignment. A start that does not
/// fit a usize lies past the end of any byte slice.
pub open spec fn parse_spec(b: Seq<u8>) -> Result<(Seq<(Seq<char>, ValueView)>, Seq<InfoView>, int), GgufError> {
    match dec_gguf(b) {
        Err(e) => Err(e),
        Ok((kvs, infos, end)) => {
            let start = data_start(end, alignment_from(kvs, 0));
            if start > usize::MAX {
                Err(GgufError::DataPastEof)
            } else {
                Ok((kvs, infos, start))
            }
        },
    }
}

/// The alignment is at least 1.
proof fn lemma_alignment_positive(kvs: Seq<(Seq<char>, ValueView)>, i: int)
    ensures
        alignment_from(kvs, i) >= 1,
    decreases kvs.len() - i,
{
    if 0 <= i < kvs.len() {
        lemma_alignment_positive(kvs, i + 1);
    }
}

/// Rounding `e` up to a multiple of `a` adds the distance to the next multiple.
proof fn lemma_round_up(e: int, a: int)
    requires
        e >= 0,
        a >= 1,
    ensures
        data_start(e, a) == e + (if e % a == 0 { 0 } else { a - e % a }),
        data_start(e, a) >= e,
{
    let q = e / a;
    let r = e % a;
    vstd::arithmetic::div_mod::lemma_fundamental_div_mod(e, a);
    assert(e == a * q + r);
    assert(a * q == q * a) by (nonlinear_arith);
    if r == 0 {
        assert((e + a - 1) / a == q) by {
            vstd::arithmetic::div_mod::lemma_fundamental_div_mod_converse(e + a - 1, a, q, a - 1);
        }
    } else {
        assert((q + 1) * a == q * a + a) by (nonlinear_arith);
        assert((e + a - 1) / a == q + 1) by {
            vstd::arithmetic::div_mod::lemma_fundamental_div_mod_converse(e + a - 1, a, q + 1, r - 1);
        }
    }
}

/// Reads a GGUF string at `p`.
fn read_gstr(b: &[u8], p: usize) -> (r: Result<(String, usize), GgufError>)
    ensures
        match dec_gstr(b@, p as int) {
            Ok((s, e)) => r matches Ok((x, q)) && x@ == s && q == e,
            Err(e) => r == Err::<(String, usize), GgufError>(e),
        },
{
    let (n, q) = match read_u64(b, p) {
        Some(x) => x,
        None => return Err(GgufError::UnexpectedEof),
    };
    let blen = b.len();
    assert(blen as int == b@.len());
    if n > (blen - q) as u64 {
        return Err(GgufError::UnexpectedEof);
    }
    let (s, e) = match read_bytes(b, q, n as usize) {
        Some(x) => x,
        None => return Err(GgufError::UnexpectedEof),
    };
    match string_from_utf8(s) {
        Some(t) => Ok((t, e)),
        None => Err(GgufError::BadUtf8),
    }
}

/// Reads a non-array metadata value of type tag `ty` at `p`.
fn read_scalar(b: &[u8], p: usize, ty: u32) -> (r: Result<(GgufScalar, usize), GgufError>)
    ensures
        match dec_scalar(b@, p as int, ty) {
            Ok((v, e)) => r matches Ok((x, q)) && x@ == v && q == e,
            Err(e) => r == Err::<(GgufScalar, usize), GgufError>(e),
        },
{
    if ty == 0 || ty == 1 || ty == 7 {
        match read_u8(b, p) {
            None => Err(GgufError::UnexpectedEof),
            Some((x, e)) => Ok((
                if ty == 0 {
                    GgufScalar::U8(x)
                } else if ty == 1 {
                    GgufScalar::I8(x as i8)
                } else {
                    GgufScalar::Bool(x != 0)
                },
                e,
            )),
        }
    } else if ty == 2 || ty == 3 {
        match read_u16(b, p) {
            None => Err(GgufError::UnexpectedEof),
            Some((x, e)) => Ok((if ty == 2 { GgufScalar::U16(x) } else { GgufScalar::I16(x as i16) }, e)),
        }
    } else if ty == 4 || ty == 5 || ty == 6 {
        match read_u32(b, p) {
            None => Err(GgufError::UnexpectedEof),
            Some((x, e)) => Ok((
                if ty == 4 {
                    GgufScalar::U32(x)
                } else if ty == 5 {
                    GgufScalar::I32(x as i32)
                } else {
                    GgufScalar::F32(x)
                },
                e,
            )),
        }
    } else if ty == 10 || ty == 11 || ty == 12 {
        match read_u64(b, p) {
            None => Err(GgufError::UnexpectedEof),
            Some((x, e)) => Ok((
                if ty == 10 {
                    GgufScalar::U64(x)
                } else if ty == 11 {
                    GgufScalar::I64(x as i64)
                } else {
                    GgufScalar::F64(x)
                },
                e,
            )),
        }
    } else if ty == 8 {
        match read_gstr(b, p) {
            Err(e) => Err(e),
            Ok((s, e)) => Ok((GgufScalar::String(s), e)),
        }
    } else {
        Err(GgufError::UnknownValueType(ty))
    }
}

/// Reads a metadata value of type tag `ty` at `p`.
pub fn read_value(b: &[u8], p: usize, ty: u32) -> (r: Result<(GgufValue, usize), GgufError>)
    ensures
        match dec_value(b@, p as int, ty) {
            Ok((v, e)) => r matches Ok((x, q)) && x@ == v && q == e,
            Err(e) => r == Err::<(GgufValue, usize), GgufError>(e),
        },
{
    if ty == GGUF_ARRAY {
        let (et, q) = match read_u32(b, p) {
            Some(x) => x,
            None => return Err(GgufError::UnexpectedEof),
        };
        if et == GGUF_ARRAY {
            return Err(GgufError::NestedArray);
        }
        let (count, r0) = match read_u64(b, q) {
            Some(x) => x,
            None => return Err(GgufError::UnexpectedEof),
        };
        let mut v: Vec<GgufScalar> = Vec::new();
        assert(scalars_view(v@) =~= seq![]);
        let mut pos = r0;
        let mut i: u64 = 0;
        while i < count
            invariant
                ty == GGUF_ARRAY,
                u32_at(b@, p as int) == Some((et, q as int)),
                et != GGUF_ARRAY,
                u64_at(b@, q as int) == Some((count, r0 as int)),
                i <= count,
                dec_elems(b@, r0 as int, et, i as nat) == Ok::<(Seq<ScalarView>, int), GgufError>((scalars_view(v@), pos as int)),
            decreases count - i,
        {
            let (x, e) = match read_scalar(b, pos, et) {
                Ok(x) => x,
                Err(err) => {
                    proof {
                        assert(dec_elems(b@, r0 as int, et, (i + 1) as nat) == Err::<(Seq<ScalarView>, int), GgufError>(err));
                        lemma_dec_elems_err(b@, r0 as int, et, (i + 1) as nat, count as nat, err);
                    }
                    return Err(err);
                },
            };
            let ghost prev = scalars_view(v@);
            v.push(x);
            assert(scalars_view(v@) =~= prev.push(x@));
            pos = e;
            i = i + 1;
        }
        Ok((GgufValue::Array(v), pos))
    } else {
        match read_scalar(b, p, ty) {
            Err(e) => Err(e),
            Ok((x, e)) => Ok((GgufValue::Scalar(x), e)),
        }
    }
}

/// Once `i` elements fail to decode, so do any `n >= i`.
proof fn lemma_dec_elems_err(b: Seq<u8>, p: int, ty: u32, i: nat, n: nat, err: GgufError)
    requires
        i <= n,
        dec_elems(b, p, ty, i) == Err::<(Seq<ScalarView>, int), GgufError>(err),
    ensures
        dec_elems(b, p, ty, n) == Err::<(Seq<ScalarView>, int), GgufError>(err),
    decreases n - i,
{
    if i < n {
        lemma_dec_elems_err(b, p, ty, i, (n - 1) as nat, err);
    }
}

proof fn lemma_dec_kvs_err(b: Seq<u8>, p: int, i: nat, n: nat, err: GgufError)
    requires
        i <= n,
        dec_kvs(b, p, i) == Err::<(Seq<(Seq<char>, ValueView)>, int), GgufError>(err),
    ensures
        dec_kvs(b, p, n) == Err::<(Seq<(Seq<char>, ValueView)>, int), GgufError>(err),
    decreases n - i,
{
    if i < n {
        lemma_dec_kvs_err(b, p, i, (n - 1) as nat, err);
    }
}

proof fn lemma_dec_infos_err(b: Seq<u8>, p: int, i: nat, n: nat, err: GgufError)
    requires
        i <= n,
        dec_infos(b, p, i) == Err::<(Seq<InfoView>, int), GgufError>(err),
    ensures
        dec_infos(b, p, n) == Err::<(Seq<InfoView>, int), GgufError>(err),
    decreases n - i,
{
    if i < n {
        lemma_dec_infos_err(b, p, i, (n - 1) as nat, err);
    }
}

proof fn lemma_dec_u64s_none(b: Seq<u8>, p: int, i: nat, n: nat)
    requires
        i <= n,
        dec_u64s(b, p, i) is None,
    ensures
        dec_u64s(b, p, n) is None,
    decreases n - i,
{
    if i < n {
        lemma_dec_u64s_none(b, p, i, (n - 1) as nat);
    }
}

/// Reads one metadata entry at `p`.
fn read_kv(b: &[u8], p: usize) -> (r: Result<((String, GgufValue), usize), GgufError>)
    ensures
        match dec_kv(b@, p as int) {
            Ok((kv, e)) => r matches Ok((x, q)) && x.0@ == kv.0 && x.1@ == kv.1 && q == e,
            Err(e) => r == Err::<((String, GgufValue), usize), GgufError>(e),
        },
{
    let (k, q) = match read_gstr(b, p) {
        Ok(x) => x,
        Err(e) => return Err(e),
    };
    let (ty, r0) = match read_u32(b, q) {
        Some(x) => x,
        None => return Err(GgufError::UnexpectedEof),
    };
    match read_value(b, r0, ty) {
        Err(e) => Err(e),
        Ok((v, e)) => Ok(((k, v), e)),
    }
}

/// Reads `n` dims (fastest first) at `p` and returns them reversed to row-major order.
fn read_dims(b: &[u8], p: usize, n: u32) -> (r: Option<(Vec<u64>, usize)>)
    ensures
        match dec_u64s(b@, p as int, n as nat) {
            Some((ds, e)) => r matches Some((x, q)) && x@ == reversed(ds) && q == e,
            None => r is None,
        },
{
    let mut raw: Vec<u64> = Vec::new();
    let mut pos = p;
    let mut i: u32 = 0;
    while i < n
        invariant
            i <= n,
            dec_u64s(b@, p as int, i as nat) == Some((raw@, pos as int)),
        decreases n - i,
    {
        let (x, e) = match read_u64(b, pos) {
            Some(x) => x,
            None => {
                proof {
                    lemma_dec_u64s_none(b@, p as int, (i + 1) as nat, n as nat);
                }
                return None;
            },
        };
        raw.push(x);
        pos = e;
        i = i + 1;
    }
    let mut dims: Vec<u64> = Vec::new();
    let mut j: usize = raw.len();
    while j > 0
        invariant
            j <= raw@.len(),
            dims@.len() == raw@.len() - j,
            forall|k: int| 0 <= k < dims@.len() ==> #[trigger] dims@[k] == raw@[raw@.len() - 1 - k],
        decreases j,
    {
        j = j - 1;
        dims.push(raw[j]);
    }
    assert(dims@ =~= reversed(raw@));
    Some((dims, pos))
}

/// Reads one tensor directory entry at `p`.
fn read_info(b: &[u8], p: usize) -> (r: Result<(TensorInfo, usize), GgufError>)
    ensures
        match dec_info(b@, p as int) {
            Ok((t, e)) => r matches Ok((x, q)) && x@ == t && q == e,
            Err(e) => r == Err::<(TensorInfo, usize), GgufError>(e),
        },
{
    let (name, q) = match read_gstr(b, p) {
        Ok(x) => x,
        Err(e) => return Err(e),
    };
    let (nd, r0) = match read_u32(b, q) {
        Some(x) => x,
        None => return Err(GgufError::UnexpectedEof),
    };
    let (dims, s) = match read_dims(b, r0, nd) {
        Some(x) => x,
        None => return Err(GgufError::UnexpectedEof),
    };
    let (ty, t) = match read_u32(b, s) {
        Some(x) => x,
        None => return Err(GgufError::UnexpectedEof),
    };
    let (offset, e) = match read_u64(b, t) {
        Some(x) => x,
        None => return Err(GgufError::UnexpectedEof),
    };
    Ok((TensorInfo { name, dims, ggml_type: ty, offset }, e))
}

/// Parses the header, the metadata and the tensor directory; returns them with the position
/// where the tensor-data section starts: the end of the directory rounded up to the
/// `general.alignment` the metadata sets (32 by default).
pub fn parse(b: &[u8]) -> (r: Result<(Vec<(String, GgufValue)>, Vec<TensorInfo>, usize), GgufError>)
    ensures
        match parse_spec(b@) {
            Ok((kvs, infos, start)) => r matches Ok((m, t, s)) && kvs_view(m@) == kvs && infos_view(t@) == infos && s == start,
            Err(e) => r == Err::<(Vec<(String, GgufValue)>, Vec<TensorInfo>, usize), GgufError>(e),
        },
{
    let (magic, p1) = match read_u32(b, 0) {
        Some(x) => x,
        None => return Err(GgufError::UnexpectedEof),
    };
    if magic != MAGIC {
        return Err(GgufError::BadMagic);
    }
    let (version, p2) = match read_u32(b, p1) {
        Some(x) => x,
        None => return Err(GgufError::UnexpectedEof),
    };
    if version != 2 && version != 3 {
        return Err(GgufError::UnsupportedVersion(version));
    }
    let (tc, p3) = match read_u64(b, p2) {
        Some(x) => x,
        None => return Err(GgufError::UnexpectedEof),
    };
    let (kc, p4) = match read_u64(b, p3) {
        Some(x) => x,
        None => return Err(GgufError::UnexpectedEof),
    };
    let mut meta: Vec<(String, GgufValue)> = Vec::new();
    assert(kvs_view(meta@) =~= seq![]);
    let mut pos = p4;
    let mut i: u64 = 0;
    while i < kc
        invariant
            u32_at(b@, 0) == Some((magic, p1 as int)),
            magic == MAGIC,
            u32_at(b@, p1 as int) == Some((version, p2 as int)),
            version == 2 || version == 3,
            u64_at(b@, p2 as int) == Some((tc, p3 as int)),
            u64_at(b@, p3 as int) == Some((kc, p4 as int)),
            i <= kc,
            dec_kvs(b@, p4 as int, i as nat) == Ok::<(Seq<(Seq<char>, ValueView)>, int), GgufError>((kvs_view(meta@), pos as int)),
        decreases kc - i,
    {
        let (kv, e) = match read_kv(b, pos) {
            Ok(x) => x,
            Err(err) => {
                proof {
                    assert(dec_kvs(b@, p4 as int, (i + 1) as nat) == Err::<(Seq<(Seq<char>, ValueView)>, int), GgufError>(err));
                    lemma_dec_kvs_err(b@, p4 as int, (i + 1) as nat, kc as nat, err);
                }
                return Err(err);
            },
        };
        let ghost prev = kvs_view(meta@);
        let ghost kvv = (kv.0@, kv.1@);
        meta.push(kv);
        assert(kvs_view(meta@) =~= prev.push(kvv));
        pos = e;
        i = i + 1;
    }
    let p5 = pos;
    let mut infos: Vec<TensorInfo> = Vec::new();
    assert(infos_view(infos@) =~= seq![]);
    let mut j: u64 = 0;
    while j < tc
        invariant
            u32_at(b@, 0) == Some((magic, p1 as int)),
            magic == MAGIC,
            u32_at(b@, p1 as int) == Some((version, p2 as int)),
            version == 2 || version == 3,
            u64_at(b@, p2 as int) == Some((tc, p3 as int)),
            u64_at(b@, p3 as int) == Some((kc, p4 as int)),
            j <= tc,
            dec_kvs(b@, p4 as int, kc as nat) == Ok::<(Seq<(Seq<char>, ValueView)>, int), GgufError>((kvs_view(meta@), p5 as int)),
            dec_infos(b@, p5 as int, j as nat) == Ok::<(Seq<InfoView>, int), GgufError>((infos_view(infos@), pos as int)),
        decreases tc - j,
    {
        let (t, e) = match read_info(b, pos) {
            Ok(x) => x,
            Err(err) => {
                proof {
                    assert(dec_infos(b@, p5 as int, (j + 1) as nat) == Err::<(Seq<InfoView>, int), GgufError>(err));
                    lemma_dec_infos_err(b@, p5 as int, (j + 1) as nat, tc as nat, err);
                }
                return Err(err);
            },
        };
        let ghost prev = infos_view(infos@);
        infos.push(t);
        assert(infos_view(infos@) =~= prev.push(t@));
        pos = e;
        j = j + 1;
    }
    let align = alignment(meta.as_slice());
    proof {
        lemma_alignment_positive(kvs_view(meta@), 0);
        lemma_round_up(pos as int, align as int);
    }
    let rem = pos % align;
    let pad = if rem == 0 { 0 } else { align - rem };
    if pad > usize::MAX - pos {
        return Err(GgufError::DataPastEof);
    }
    Ok((meta, infos, pos + pad))
}

/// The tensor-data alignment the metadata sets: the value of the first `general.alignment`
/// entry if it is a u32 (at least 1), else 32.
pub fn alignment(meta: &[(String, GgufValue)]) -> (r: usize)
    ensures
        r as int == alignment_from(kvs_view(meta@), 0),
{
    let ghost kv = kvs_view(meta@);
    let key = "general.alignment";
    proof {
        reveal_strlit("general.alignment");
    }
    let mut i: usize = 0;
    while i < meta.len()
        invariant
            kv == kvs_view(meta@),
            key@ == alignment_key(),
            i <= meta@.len(),
            alignment_from(kv, 0) == alignment_from(kv, i as int),
        decreases meta@.len() - i,
    {
        assert(kv[i as int] == (meta@[i as int].0@, meta@[i as int].1@));
        if crate::wire::str_eq(meta[i].0.as_str(), key) {
            return match &meta[i].1 {
                GgufValue::Scalar(GgufScalar::U32(a)) => if *a == 0 { 1 } else { *a as usize },
                _ => 32,
            };
        }
        i = i + 1;
    }
    32
}

} // verus!
