//! GGML block unpacking: a `ggml_type` tag and its raw little-endian bytes -> `n` elements.
//! F32/F16 tensors come out as their IEEE bit patterns; the quantized types Q8_0, Q4_0, Q5_0
//! (32-element blocks) and Q4_K, Q6_K (256-element super-blocks) come out as one affine
//! [`Lane`] per element, whose value is `(f16(scale) * mult) * q - f16(min_scale) * min_mult`.
//! Any other type is refused by name.
use vstd::arithmetic::power2::{lemma2_to64, lemma_pow2_adds, pow2};
use vstd::bytes::*;
use crate::wire::{decimal, push_decimal, push_str};
use vstd::prelude::*;

verus! {

/// Why a tensor's bytes could not be unpacked.
#[derive(Clone, Copy, Debug, PartialEq, Eq, Structural)]
pub enum DequantError {
    /// A type tag this crate does not decode.
    Unsupported { ggml_type: u32 },
    /// The element count is not a multiple of the type's block length.
    NotBlocked { ggml_type: u32, n: usize },
    /// The data holds fewer bytes than `n` elements of the type need.
    Truncated { ggml_type: u32 },
}

/// One quantized element in affine form: its value is
/// `(f16(scale) * mult) * q - f16(min_scale) * min_mult`, with `scale` and `min_scale` the
/// bit patterns of IEEE half floats.
#[derive(Clone, Copy, Debug, PartialEq, Eq, Structural)]
pub struct Lane {
    pub scale: u16,
    pub mult: i32,
    pub q: i32,
    pub min_scale: u16,
    pub min_mult: i32,
}

/// A tensor's unpacked elements.
#[derive(Debug, PartialEq, Eq)]
pub enum Decoded {
    /// f32 elements, as bit patterns.
    F32(Vec<u32>),
    /// f16 elements, as bit patterns.
    F16(Vec<u16>),
    /// Quantized elements, one lane each.
    Affine(Vec<Lane>),
}

pub enum DecodedView {
    F32(Seq<u32>),
    F16(Seq<u16>),
    Affine(Seq<Lane>),
}

impl View for Decoded {
    type V = DecodedView;

    open spec fn view(&self) -> DecodedView {
        match self {
            Decoded::F32(v) => DecodedView::F32(v@),
            Decoded::F16(v) => DecodedView::F16(v@),
            Decoded::Affine(v) => DecodedView::Affine(v@),
        }
    }
}

pub const GGML_F32: u32 = 0;
pub const GGML_F16: u32 = 1;
pub const GGML_Q4_0: u32 = 2;
pub const GGML_Q5_0: u32 = 6;
pub const GGML_Q8_0: u32 = 8;
pub const GGML_Q4_K: u32 = 12;
pub const GGML_Q6_K: u32 = 14;

/// The little-endian u16 at `at`.
pub open spec fn u16_le(b: Seq<u8>, at: int) -> u16 {
    spec_u16_from_le_bytes(b.subrange(at, at + 2))
}

/// The little-endian u32 at `at`.
pub open spec fn u32_le(b: Seq<u8>, at: int) -> u32 {
    spec_u32_from_le_bytes(b.subrange(at, at + 4))
}

/// Whether `ty` is one of the block-quantized types decoded here.
pub open spec fn is_quant(ty: u32) -> bool {
    ty == GGML_Q8_0 || ty == GGML_Q4_0 || ty == GGML_Q5_0 || ty == GGML_Q4_K || ty == GGML_Q6_K
}

/// Elements per block of a quantized type.
pub open spec fn block_len(ty: u32) -> int {
    if ty == GGML_Q4_K || ty == GGML_Q6_K {
        256
    } else {
        32
    }
}

/// Bytes per block of a quantized type.
pub open spec fn block_bytes(ty: u32) -> int {
    if ty == GGML_Q8_0 {
        34
    } else if ty == GGML_Q4_0 {
        18
    } else if ty == GGML_Q5_0 {
        22
    } else if ty == GGML_Q4_K {
        144
    } else {
        210
    }
}

/// Q8_0 element `k`: blocks of { d: f16; qs: [i8; 32] }; value d * qs[j].
pub open spec fn q8_0_lane(b: Seq<u8>, k: int) -> Lane {
    let blk = (k / 32) * 34;
    let j = k % 32;
    Lane { scale: u16_le(b, blk), mult: 1, q: (b[blk + 2 + j] as i8) as i32, min_scale: 0, min_mult: 0 }
}

/// Q4_0 element `k`: blocks of { d: f16; qs: [u8; 16] }; byte j holds element j in its low
/// nibble and element j + 16 in its high nibble; value d * (nibble - 8).
pub open spec fn q4_0_lane(b: Seq<u8>, k: int) -> Lane {
    let blk = (k / 32) * 18;
    let j = k % 32;
    let byte = b[blk + 2 + j % 16];
    let nib = if j < 16 { byte & 0x0f } else { byte >> 4u8 };
    Lane { scale: u16_le(b, blk), mult: 1, q: (nib as i32 - 8) as i32, min_scale: 0, min_mult: 0 }
}

/// Q5_0 element `k`: blocks of { d: f16; qh: u32; qs: [u8; 16] }; the low four bits as in
/// Q4_0, the fifth bit is bit j of qh; value d * (q5 - 16).
pub open spec fn q5_0_lane(b: Seq<u8>, k: int) -> Lane {
    let blk = (k / 32) * 22;
    let j = k % 32;
    let qh = u32_le(b, blk + 2);
    let byte = b[blk + 6 + j % 16];
    let lo = if j < 16 { byte & 0x0f } else { byte >> 4u8 };
    let hi = (qh >> (j as u32)) & 1u32;
    Lane { scale: u16_le(b, blk), mult: 1, q: (lo as i32 + 16 * (hi as i32) - 16) as i32, min_scale: 0, min_mult: 0 }
}

/// The `j`-th 6-bit (scale, min) pair of a Q4_K super-block's 12 scale bytes.
pub open spec fn scale_min_k4(j: int, sc: Seq<u8>) -> (u8, u8) {
    if j < 4 {
        (sc[j] & 63u8, sc[j + 4] & 63u8)
    } else {
        ((sc[j + 4] & 0x0fu8) | ((sc[j - 4] >> 6u8) << 4u8), (sc[j + 4] >> 4u8) | ((sc[j] >> 6u8) << 4u8))
    }
}

/// Q4_K element `k`: super-blocks of { d: f16; dmin: f16; scales: [u8; 12]; qs: [u8; 128] };
/// each 64-element group g takes its low nibbles from qs[32g..32g+32] under scale pair 2g and
/// its high nibbles under pair 2g + 1; value d * scale * q4 - dmin * min.
pub open spec fn q4_k_lane(b: Seq<u8>, k: int) -> Lane {
    let blk = (k / 256) * 144;
    let r = k % 256;
    let g = r / 64;
    let w = r % 64;
    let byte = b[blk + 16 + g * 32 + w % 32];
    let q = if w < 32 { byte & 0x0f } else { byte >> 4u8 };
    let sm = scale_min_k4(2 * g + w / 32, b.subrange(blk + 4, blk + 16));
    Lane { scale: u16_le(b, blk), mult: sm.0 as i32, q: q as i32, min_scale: u16_le(b, blk + 2), min_mult: sm.1 as i32 }
}

/// Q6_K element `k`: super-blocks of { ql: [u8; 128]; qh: [u8; 64]; scales: [i8; 16]; d: f16 };
/// each 128-element half h splits into four quarters: quarter t takes its low four bits from
/// ql (low nibbles for t < 2, high for t >= 2, the second 32 bytes for odd t), its top two
/// bits from bits 2t..2t+1 of qh, and scale 8h + l/16 + 2t; value d * scale * (q6 - 32).
pub open spec fn q6_k_lane(b: Seq<u8>, k: int) -> Lane {
    let blk = (k / 256) * 210;
    let r = k % 256;
    let h = r / 128;
    let w = r % 128;
    let t = w / 32;
    let l = w % 32;
    let ql = b[blk + h * 64 + l + (t % 2) * 32];
    let lo = if t < 2 { ql & 0x0f } else { ql >> 4u8 };
    let qh = b[blk + 128 + h * 32 + l];
    let hi = (qh >> ((2 * t) as u8)) & 3u8;
    let sc = b[blk + 192 + h * 8 + l / 16 + 2 * t];
    Lane { scale: u16_le(b, blk + 208), mult: (sc as i8) as i32, q: (lo as i32 + 16 * (hi as i32) - 32) as i32, min_scale: 0, min_mult: 0 }
}

/// Element `k` of a quantized tensor of type `ty`.
pub open spec fn quant_lane(ty: u32, b: Seq<u8>, k: int) -> Lane {
    if ty == GGML_Q8_0 {
        q8_0_lane(b, k)
    } else if ty == GGML_Q4_0 {
        q4_0_lane(b, k)
    } else if ty == GGML_Q5_0 {
        q5_0_lane(b, k)
    } else if ty == GGML_Q4_K {
        q4_k_lane(b, k)
    } else {
        q6_k_lane(b, k)
    }
}

/// Unpacking `n` elements of type `ty` from the start of `b`.
pub open spec fn dequant_spec(ty: u32, b: Seq<u8>, n: int) -> Result<DecodedView, DequantError> {
    if ty == GGML_F32 {
        if 4 * n <= b.len() {
            Ok(DecodedView::F32(Seq::new(n as nat, |i: int| u32_le(b, 4 * i))))
        } else {
            Err(DequantError::Truncated { ggml_type: ty })
        }
    } else if ty == GGML_F16 {
        if 2 * n <= b.len() {
            Ok(DecodedView::F16(Seq::new(n as nat, |i: int| u16_le(b, 2 * i))))
        } else {
            Err(DequantError::Truncated { ggml_type: ty })
        }
    } else if is_quant(ty) {
        if n % block_len(ty) != 0 {
            Err(DequantError::NotBlocked { ggml_type: ty, n: n as usize })
        } else if (n / block_len(ty)) * block_bytes(ty) > b.len() {
            Err(DequantError::Truncated { ggml_type: ty })
        } else {
            Ok(DecodedView::Affine(Seq::new(n as nat, |k: int| quant_lane(ty, b, k))))
        }
    } else {
        Err(DequantError::Unsupported { ggml_type: ty })
    }
}

/// The name a ggml type tag is reported under.
pub open spec fn type_label(t: u32) -> Seq<char> {
    if t == 0 {
        "F32"@
    } else if t == 1 {
        "F16"@
    } else if t == 2 {
        "Q4_0"@
    } else if t == 3 {
        "Q4_1"@
    } else if t == 6 {
        "Q5_0"@
    } else if t == 7 {
        "Q5_1"@
    } else if t == 8 {
        "Q8_0"@
    } else if t == 9 {
        "Q8_1"@
    } else if t == 10 {
        "Q2_K"@
    } else if t == 11 {
        "Q3_K"@
    } else if t == 12 {
        "Q4_K"@
    } else if t == 13 {
        "Q5_K"@
    } else if t == 14 {
        "Q6_K"@
    } else if t == 15 {
        "Q8_K"@
    } else {
        "unknown"@
    }
}

/// The message a decoding error is reported with; each names the ggml type.
pub open spec fn dequant_message(e: DequantError) -> Seq<char> {
    match e {
        DequantError::Unsupported { ggml_type } => "gguf: ggml type "@ + decimal(ggml_type as nat) + " ("@
            + type_label(ggml_type) + ") not supported"@,
        DequantError::NotBlocked { ggml_type, n } => "gguf: "@ + type_label(ggml_type) + " tensor len "@
            + decimal(n as nat) + " is not a multiple of the "@ + decimal(block_len(ggml_type) as nat) + "-element block"@,
        DequantError::Truncated { ggml_type } => "gguf: "@ + type_label(ggml_type) + " tensor truncated"@,
    }
}

impl DequantError {
    /// The error as the message a user is shown, naming the ggml type.
    pub fn to_string(&self) -> (r: String)
        ensures
            r@ == dequant_message(*self),
    {
        let mut s = String::new();
        match *self {
            DequantError::Unsupported { ggml_type } => {
                push_str(&mut s, "gguf: ggml type ");
                push_decimal(&mut s, ggml_type as u64);
                push_str(&mut s, " (");
                push_str(&mut s, ggml_type_name(ggml_type));
                push_str(&mut s, ") not supported");
                proof {
                    reveal_strlit("gguf: ggml type ");
                    reveal_strlit(" (");
                    reveal_strlit(") not supported");
                }
            },
            DequantError::NotBlocked { ggml_type, n } => {
                let bl: u64 = if ggml_type == GGML_Q4_K || ggml_type == GGML_Q6_K { 256 } else { 32 };
                push_str(&mut s, "gguf: ");
                push_str(&mut s, ggml_type_name(ggml_type));
                push_str(&mut s, " tensor len ");
                push_decimal(&mut s, n as u64);
                push_str(&mut s, " is not a multiple of the ");
                push_decimal(&mut s, bl);
                push_str(&mut s, "-element block");
                proof {
                    reveal_strlit("gguf: ");
                    reveal_strlit(" tensor len ");
                    reveal_strlit(" is not a multiple of the ");
                    reveal_strlit("-element block");
                }
            },
            DequantError::Truncated { ggml_type } => {
                push_str(&mut s, "gguf: ");
                push_str(&mut s, ggml_type_name(ggml_type));
                push_str(&mut s, " tensor truncated");
                proof {
                    reveal_strlit("gguf: ");
                    reveal_strlit(" tensor truncated");
                }
            },
        }
        s
    }
}

/// The name a ggml type tag is reported under, so an undecoded type is refused by name.
pub fn ggml_type_name(t: u32) -> (r: &'static str)
    ensures
        r@ == type_label(t),
{
    if t == 0 {
        "F32"
    } else if t == 1 {
        "F16"
    } else if t == 2 {
        "Q4_0"
    } else if t == 3 {
        "Q4_1"
    } else if t == 6 {
        "Q5_0"
    } else if t == 7 {
        "Q5_1"
    } else if t == 8 {
        "Q8_0"
    } else if t == 9 {
        "Q8_1"
    } else if t == 10 {
        "Q2_K"
    } else if t == 11 {
        "Q3_K"
    } else if t == 12 {
        "Q4_K"
    } else if t == 13 {
        "Q5_K"
    } else if t == 14 {
        "Q6_K"
    } else if t == 15 {
        "Q8_K"
    } else {
        "unknown"
    }
}

/// Element `k` lies in a block that ends within the first `n / bl` blocks.
proof fn lemma_block_in_range(k: int, n: int, bl: int, bb: int)
    by (nonlinear_arith)
    requires
        0 <= k < n,
        bl > 0,
        bb > 0,
        n % bl == 0,
    ensures
        (k / bl) * bb + bb <= (n / bl) * bb,
        0 <= (k / bl) * bb,
{
}

fn u16_at(d: &[u8], at: usize) -> (r: u16)
    requires
        at + 2 <= d@.len(),
    ensures
        r == u16_le(d@, at as int),
{
    let dlen = d.len();
    assert(dlen as int == d@.len());
    u16_from_le_bytes(vstd::slice::slice_subrange(d, at, at + 2))
}

/// The `j`-th 6-bit (scale, min) pair of the 12 scale bytes at `at`.
fn scale_min_at(d: &[u8], at: usize, j: usize) -> (r: (u8, u8))
    requires
        j < 8,
        at + 12 <= d@.len(),
    ensures
        r == scale_min_k4(j as int, d@.subrange(at as int, at as int + 12)),
{
    let dlen = d.len();
    assert(dlen as int == d@.len());
    let ghost sc = d@.subrange(at as int, at as int + 12);
    if j < 4 {
        assert(d@[at as int + j] == sc[j as int] && d@[at as int + j + 4] == sc[j as int + 4]);
        (d[at + j] & 63u8, d[at + j + 4] & 63u8)
    } else {
        assert(d@[at as int + j + 4] == sc[j as int + 4] && d@[at as int + j - 4] == sc[j as int - 4] && d@[at as int + j] == sc[j as int]);
        ((d[at + j + 4] & 0x0fu8) | ((d[at + j - 4] >> 6u8) << 4u8), (d[at + j + 4] >> 4u8) | ((d[at + j] >> 6u8) << 4u8))
    }
}

/// Element `k` of a quantized tensor of type `ty` held in `d`.
fn lane_at(ty: u32, d: &[u8], k: usize, blk: usize) -> (r: Lane)
    requires
        is_quant(ty),
        blk == (k as int / block_len(ty)) * block_bytes(ty),
        blk + block_bytes(ty) <= d@.len(),
    ensures
        r == quant_lane(ty, d@, k as int),
{
    let dlen = d.len();
    assert(dlen as int == d@.len());
    if ty == GGML_Q8_0 {
        let j = k % 32;
        Lane { scale: u16_at(d, blk), mult: 1, q: (d[blk + 2 + j] as i8) as i32, min_scale: 0, min_mult: 0 }
    } else if ty == GGML_Q4_0 {
        let j = k % 32;
        let byte = d[blk + 2 + j % 16];
        let nib = if j < 16 { byte & 0x0f } else { byte >> 4u8 };
        Lane { scale: u16_at(d, blk), mult: 1, q: nib as i32 - 8, min_scale: 0, min_mult: 0 }
    } else if ty == GGML_Q5_0 {
        let j = k % 32;
        let qh = u32_from_le_bytes(vstd::slice::slice_subrange(d, blk + 2, blk + 6));
        let byte = d[blk + 6 + j % 16];
        let lo = if j < 16 { byte & 0x0f } else { byte >> 4u8 };
        let hi = (qh >> (j as u32)) & 1u32;
        assert(hi <= 1) by (bit_vector)
            requires
                hi == (qh >> (j as u32)) & 1u32,
        ;
        Lane { scale: u16_at(d, blk), mult: 1, q: lo as i32 + 16 * (hi as i32) - 16, min_scale: 0, min_mult: 0 }
    } else if ty == GGML_Q4_K {
        let r = k % 256;
        let g = r / 64;
        let w = r % 64;
        let byte = d[blk + 16 + g * 32 + w % 32];
        let q = if w < 32 { byte & 0x0f } else { byte >> 4u8 };
        let sm = scale_min_at(d, blk + 4, 2 * g + w / 32);
        proof {
            assert(d@.subrange(blk as int + 4, blk as int + 4 + 12) =~= d@.subrange(blk as int + 4, blk as int + 16));
        }
        Lane { scale: u16_at(d, blk), mult: sm.0 as i32, q: q as i32, min_scale: u16_at(d, blk + 2), min_mult: sm.1 as i32 }
    } else {
        let r = k % 256;
        let h = r / 128;
        let w = r % 128;
        let t = w / 32;
        let l = w % 32;
        let ql = d[blk + h * 64 + l + (t % 2) * 32];
        let lo = if t < 2 { ql & 0x0f } else { ql >> 4u8 };
        let qh = d[blk + 128 + h * 32 + l];
        let hi = (qh >> ((2 * t) as u8)) & 3u8;
        assert(hi <= 3) by (bit_vector)
            requires
                hi == (qh >> ((2 * t) as u8)) & 3u8,
        ;
        assert(lo <= 15) by (bit_vector)
            requires
                lo == ql & 0x0f || lo == ql >> 4u8,
        ;
        let sc = d[blk + 192 + h * 8 + l / 16 + 2 * t];
        Lane { scale: u16_at(d, blk + 208), mult: (sc as i8) as i32, q: lo as i32 + 16 * (hi as i32) - 32, min_scale: 0, min_mult: 0 }
    }
}

/// Unpacks `n` elements of ggml type `ty` from the start of `data`. Errs, naming the type, on a
/// type this crate does not decode, on an element count that is not a whole number of blocks,
/// and on data shorter than `n` elements need.
pub fn dequant(ty: u32, data: &[u8], n: usize) -> (r: Result<Decoded, DequantError>)
    ensures
        match dequant_spec(ty, data@, n as int) {
            Ok(v) => r matches Ok(x) && x@ == v,
            Err(e) => r == Err::<Decoded, DequantError>(e),
        },
{
    let dlen = data.len();
    assert(dlen as int == data@.len());
    if ty == GGML_F32 {
        if n > dlen / 4 {
            return Err(DequantError::Truncated { ggml_type: ty });
        }
        let mut out: Vec<u32> = Vec::new();
        let mut i: usize = 0;
        while i < n
            invariant
                n <= dlen / 4,
                dlen as int == data@.len(),
                i <= n,
                out@.len() == i,
                forall|k: int| 0 <= k < i ==> #[trigger] out@[k] == u32_le(data@, 4 * k),
            decreases n - i,
        {
            out.push(u32_from_le_bytes(vstd::slice::slice_subrange(data, 4 * i, 4 * i + 4)));
            i = i + 1;
        }
        assert(out@ =~= Seq::new(n as nat, |k: int| u32_le(data@, 4 * k)));
        Ok(Decoded::F32(out))
    } else if ty == GGML_F16 {
        if n > dlen / 2 {
            return Err(DequantError::Truncated { ggml_type: ty });
        }
        let mut out: Vec<u16> = Vec::new();
        let mut i: usize = 0;
        while i < n
            invariant
                n <= dlen / 2,
                dlen as int == data@.len(),
                i <= n,
                out@.len() == i,
                forall|k: int| 0 <= k < i ==> #[trigger] out@[k] == u16_le(data@, 2 * k),
            decreases n - i,
        {
            out.push(u16_at(data, 2 * i));
            i = i + 1;
        }
        assert(out@ =~= Seq::new(n as nat, |k: int| u16_le(data@, 2 * k)));
        Ok(Decoded::F16(out))
    } else if ty == GGML_Q8_0 || ty == GGML_Q4_0 || ty == GGML_Q5_0 || ty == GGML_Q4_K || ty == GGML_Q6_K {
        let bl: usize = if ty == GGML_Q4_K || ty == GGML_Q6_K { 256 } else { 32 };
        let bb: usize = if ty == GGML_Q8_0 {
            34
        } else if ty == GGML_Q4_0 {
            18
        } else if ty == GGML_Q5_0 {
            22
        } else if ty == GGML_Q4_K {
            144
        } else {
            210
        };
        if n % bl != 0 {
            return Err(DequantError::NotBlocked { ggml_type: ty, n });
        }
        let blocks = n / bl;
        if blocks > dlen / bb {
            proof {
                assert(blocks * bb > dlen) by (nonlinear_arith)
                    requires
                        blocks > dlen / bb,
                        bb > 0,
                ;
            }
            return Err(DequantError::Truncated { ggml_type: ty });
        }
        proof {
            assert(blocks * bb <= dlen) by (nonlinear_arith)
                requires
                    blocks <= dlen / bb,
                    bb > 0,
            ;
        }
        let mut out: Vec<Lane> = Vec::new();
        let mut k: usize = 0;
        while k < n
            invariant
                is_quant(ty),
                bl as int == block_len(ty),
                bb as int == block_bytes(ty),
                n % bl == 0,
                blocks == n / bl,
                blocks * bb <= data@.len(),
                dlen as int == data@.len(),
                k <= n,
                out@.len() == k,
                forall|i: int| 0 <= i < k ==> #[trigger] out@[i] == quant_lane(ty, data@, i),
            decreases n - k,
        {
            proof {
                lemma_block_in_range(k as int, n as int, bl as int, bb as int);
            }
            let blk = (k / bl) * bb;
            out.push(lane_at(ty, data, k, blk));
            k = k + 1;
        }
        assert(out@ =~= Seq::new(n as nat, |i: int| quant_lane(ty, data@, i)));
        Ok(Decoded::Affine(out))
    } else {
        Err(DequantError::Unsupported { ggml_type: ty })
    }
}

/// The sign bit of an IEEE half given as bits.
pub open spec fn half_sign(h: u16) -> int {
    h as int / 0x8000
}

/// The biased exponent field of an IEEE half.
pub open spec fn half_exp(h: u16) -> int {
    (h as int / 0x400) % 0x20
}

/// The mantissa field of an IEEE half.
pub open spec fn half_mant(h: u16) -> int {
    h as int % 0x400
}

/// The magnitude of a finite IEEE half, in units of 2^-149 (the least f32 subnormal).
pub open spec fn half_scaled(h: u16) -> int {
    if half_exp(h) == 0 {
        half_mant(h) * pow2(125)
    } else {
        (half_mant(h) + 0x400) * pow2((half_exp(h) + 124) as nat)
    }
}

/// The sign bit of an IEEE single given as bits.
pub open spec fn single_sign(w: u32) -> int {
    w as int / 0x8000_0000
}

/// The biased exponent field of an IEEE single.
pub open spec fn single_exp(w: u32) -> int {
    (w as int / 0x80_0000) % 0x100
}

/// The mantissa field of an IEEE single.
pub open spec fn single_mant(w: u32) -> int {
    w as int % 0x80_0000
}

/// The magnitude of a finite IEEE single, in units of 2^-149.
pub open spec fn single_scaled(w: u32) -> int {
    if single_exp(w) == 0 {
        single_mant(w)
    } else {
        (single_mant(w) + 0x80_0000) * pow2((single_exp(w) - 1) as nat)
    }
}

proof fn lemma_single_fields(s: int, e: int, m: int)
    requires
        0 <= s < 2,
        0 <= e < 0x100,
        0 <= m < 0x80_0000,
    ensures
        ({
            let w = s * 0x8000_0000 + e * 0x80_0000 + m;
            &&& w / 0x8000_0000 == s
            &&& (w / 0x80_0000) % 0x100 == e
            &&& w % 0x80_0000 == m
        }),
{
    let w = s * 0x8000_0000 + e * 0x80_0000 + m;
    vstd::arithmetic::div_mod::lemma_fundamental_div_mod_converse(w, 0x80_0000, s * 0x100 + e, m);
    vstd::arithmetic::div_mod::lemma_fundamental_div_mod_converse(s * 0x100 + e, 0x100, s, e);
    vstd::arithmetic::div_mod::lemma_fundamental_div_mod_converse(w, 0x8000_0000, s, e * 0x80_0000 + m);
}

proof fn lemma_half_fields(h: u16)
    ensures
        h as int == half_sign(h) * 0x8000 + half_exp(h) * 0x400 + half_mant(h),
        0 <= half_sign(h) < 2,
        0 <= half_exp(h) < 0x20,
        0 <= half_mant(h) < 0x400,
{
    vstd::arithmetic::div_mod::lemma_fundamental_div_mod(h as int, 0x400);
    vstd::arithmetic::div_mod::lemma_fundamental_div_mod(h as int / 0x400, 0x20);
    vstd::arithmetic::div_mod::lemma_div_denominator(h as int, 0x400, 0x20);
}

/// A subnormal half `m * 2^-24` with `2^p <= m < 2^(p+1)` is the normal single with exponent
/// `p - 24` and mantissa `(m - 2^p) * 2^(23 - p)`.
proof fn lemma_subnormal_widens(m: int, p: nat)
    requires
        p <= 9,
    ensures
        ((m - pow2(p)) * pow2((23 - p) as nat) + 0x80_0000) * pow2(p + 102) == m * pow2(125),
{
    lemma2_to64();
    lemma_pow2_adds(p, (23 - p) as nat);
    lemma_pow2_adds((23 - p) as nat, p + 102);
    let a = pow2(p) as int;
    let b = pow2((23 - p) as nat) as int;
    let c = pow2(p + 102) as int;
    assert(a * b == 0x80_0000);
    assert(b * c == pow2(125));
    assert(((m - a) * b + a * b) * c == m * (b * c)) by (nonlinear_arith);
}

/// A normal half `(1024 + m) * 2^(e - 25)` is the normal single with exponent `e - 15` and
/// mantissa `m * 2^13`.
proof fn lemma_normal_widens(m: int, e: nat)
    ensures
        (m * 0x2000 + 0x80_0000) * pow2(e + 111) == (m + 0x400) * pow2(e + 124),
{
    lemma2_to64();
    lemma_pow2_adds(13, e + 111);
    let c = pow2(e + 111) as int;
    assert((m * 0x2000 + 0x80_0000) * c == (m + 0x400) * (0x2000 * c)) by (nonlinear_arith);
}

/// Widens an IEEE half to an IEEE single, both given as bits: a finite half becomes the single
/// of the same sign and value, an infinity the infinity of the same sign, and a NaN a NaN.
pub fn f16_to_f32_bits(h: u16) -> (r: u32)
    ensures
        half_exp(h) < 0x1f ==> single_sign(r) == half_sign(h) && single_exp(r) < 0xff && single_scaled(r) == half_scaled(h),
        half_exp(h) == 0x1f && half_mant(h) == 0 ==> single_sign(r) == half_sign(h) && single_exp(r) == 0xff && single_mant(r) == 0,
        half_exp(h) == 0x1f && half_mant(h) != 0 ==> single_exp(r) == 0xff && single_mant(r) != 0,
{
    proof {
        lemma_half_fields(h);
        lemma2_to64();
    }
    let s: u32 = (h / 0x8000) as u32;
    let e: u32 = ((h / 0x400) % 0x20) as u32;
    let m: u32 = (h % 0x400) as u32;
    let (ee, mm): (u32, u32) = if e == 0 {
        if m == 0 {
            (0, 0)
        } else if m >= 512 {
            proof { lemma_subnormal_widens(m as int, 9); }
            (112, (m - 512) * 16384)
        } else if m >= 256 {
            proof { lemma_subnormal_widens(m as int, 8); }
            (111, (m - 256) * 32768)
        } else if m >= 128 {
            proof { lemma_subnormal_widens(m as int, 7); }
            (110, (m - 128) * 65536)
        } else if m >= 64 {
            proof { lemma_subnormal_widens(m as int, 6); }
            (109, (m - 64) * 131072)
        } else if m >= 32 {
            proof { lemma_subnormal_widens(m as int, 5); }
            (108, (m - 32) * 262144)
        } else if m >= 16 {
            proof { lemma_subnormal_widens(m as int, 4); }
            (107, (m - 16) * 524288)
        } else if m >= 8 {
            proof { lemma_subnormal_widens(m as int, 3); }
            (106, (m - 8) * 1048576)
        } else if m >= 4 {
            proof { lemma_subnormal_widens(m as int, 2); }
            (105, (m - 4) * 2097152)
        } else if m >= 2 {
            proof { lemma_subnormal_widens(m as int, 1); }
            (104, (m - 2) * 4194304)
        } else {
            proof { lemma_subnormal_widens(m as int, 0); }
            (103, 0)
        }
    } else if e == 0x1f {
        if m == 0 {
            (0xff, 0)
        } else {
            (0xff, 0x40_0000)
        }
    } else {
        proof { lemma_normal_widens(m as int, e as nat); }
        (e + 112, m * 0x2000)
    };
    proof {
        lemma_single_fields(s as int, ee as int, mm as int);
    }
    s * 0x8000_0000 + ee * 0x80_0000 + mm
}

/// `k` is `s * m + r` with `0 <= r < m`: its quotient and remainder by `m`.
proof fn lemma_split(k: int, m: int, s: int, r: int)
    requires
        m > 0,
        0 <= r < m,
        k == s * m + r,
    ensures
        k / m == s,
        k % m == r,
{
    vstd::arithmetic::div_mod::lemma_fundamental_div_mod_converse(k, m, s, r);
}

/// F32 and F16 tensors are their little-endian elements one after another: element `i` is the
/// 4 (or 2) bytes at `4i` (or `2i`).
pub proof fn law_plain_elements(b: Seq<u8>, n: int, i: int)
    requires
        0 <= i < n,
    ensures
        dequant_spec(GGML_F32, b, n) matches Ok(DecodedView::F32(v)) ==> v[i] == u32_le(b, 4 * i),
        dequant_spec(GGML_F32, b, n) is Ok <==> 4 * n <= b.len(),
        dequant_spec(GGML_F16, b, n) matches Ok(DecodedView::F16(v)) ==> v[i] == u16_le(b, 2 * i),
        dequant_spec(GGML_F16, b, n) is Ok <==> 2 * n <= b.len(),
{
}

/// Q8_0 as ggml's reference `dequantize_row_q8_0`: block `s` is the 34 bytes at `34s`, an f16
/// scale and 32 signed bytes, and element `j` of the block is the scale times signed byte `j`.
pub proof fn law_q8_0_block(b: Seq<u8>, n: int, v: Seq<Lane>, s: int, j: int)
    requires
        dequant_spec(GGML_Q8_0, b, n) == Ok::<DecodedView, DequantError>(DecodedView::Affine(v)),
        0 <= s,
        32 * s + 32 <= n,
        0 <= j < 32,
    ensures
        v[32 * s + j] == (Lane { scale: u16_le(b, 34 * s), mult: 1, q: (b[34 * s + 2 + j] as i8) as i32, min_scale: 0, min_mult: 0 }),
{
    lemma_split(32 * s + j, 32, s, j);
}

/// Q4_0 as ggml's reference `dequantize_row_q4_0`: block `s` is the 18 bytes at `18s`, an f16
/// scale and 16 bytes; byte `j` holds element `j` in its low nibble and element `j + 16` in its
/// high nibble, each offset by 8.
pub proof fn law_q4_0_block(b: Seq<u8>, n: int, v: Seq<Lane>, s: int, j: int)
    requires
        dequant_spec(GGML_Q4_0, b, n) == Ok::<DecodedView, DequantError>(DecodedView::Affine(v)),
        0 <= s,
        32 * s + 32 <= n,
        0 <= j < 16,
    ensures
        v[32 * s + j] == (Lane { scale: u16_le(b, 18 * s), mult: 1, q: ((b[18 * s + 2 + j] & 0x0fu8) as i32 - 8) as i32, min_scale: 0, min_mult: 0 }),
        v[32 * s + j + 16] == (Lane { scale: u16_le(b, 18 * s), mult: 1, q: ((b[18 * s + 2 + j] >> 4u8) as i32 - 8) as i32, min_scale: 0, min_mult: 0 }),
{
    lemma_split(32 * s + j, 32, s, j);
    lemma_split(32 * s + j + 16, 32, s, j + 16);
}

/// Q5_0 as ggml's reference `dequantize_row_q5_0`: block `s` is the 22 bytes at `22s`, an f16
/// scale, a little-endian u32 `qh` of fifth bits and 16 bytes; byte `j` gives element `j` its
/// low nibble with bit `j` of `qh` above it, and element `j + 16` its high nibble with bit
/// `j + 16` of `qh` above it, each offset by 16.
pub proof fn law_q5_0_block(b: Seq<u8>, n: int, v: Seq<Lane>, s: int, j: int)
    requires
        dequant_spec(GGML_Q5_0, b, n) == Ok::<DecodedView, DequantError>(DecodedView::Affine(v)),
        0 <= s,
        32 * s + 32 <= n,
        0 <= j < 16,
    ensures
        ({
            let qh = u32_le(b, 22 * s + 2);
            let byte = b[22 * s + 6 + j];
            &&& v[32 * s + j] == (Lane {
                scale: u16_le(b, 22 * s),
                mult: 1,
                q: ((byte & 0x0fu8) as i32 + 16 * (((qh >> (j as u32)) & 1u32) as i32) - 16) as i32,
                min_scale: 0,
                min_mult: 0,
            })
            &&& v[32 * s + j + 16] == (Lane {
                scale: u16_le(b, 22 * s),
                mult: 1,
                q: ((byte >> 4u8) as i32 + 16 * (((qh >> ((j + 16) as u32)) & 1u32) as i32) - 16) as i32,
                min_scale: 0,
                min_mult: 0,
            })
        }),
{
    lemma_split(32 * s + j, 32, s, j);
    lemma_split(32 * s + j + 16, 32, s, j + 16);
}

/// Q4_K as ggml's reference `dequantize_row_q4_K`: super-block `s` is the 144 bytes at `144s`,
/// an f16 `d`, an f16 `dmin`, 12 scale bytes and 128 nibble bytes. Its 32-element sub-block `i`
/// takes (scale, min) pair `i` of the scale bytes (`get_scale_min_k4`), and the low nibbles
/// (even `i`) or high nibbles (odd `i`) of the 32 bytes at `32 * (i / 2)`; element value
/// `d * scale * nibble - dmin * min`.
pub proof fn law_q4_k_block(b: Seq<u8>, n: int, v: Seq<Lane>, s: int, i: int, l: int)
    requires
        dequant_spec(GGML_Q4_K, b, n) == Ok::<DecodedView, DequantError>(DecodedView::Affine(v)),
        0 <= s,
        256 * s + 256 <= n,
        0 <= i < 8,
        0 <= l < 32,
    ensures
        ({
            let o = 144 * s;
            let byte = b[o + 16 + 32 * (i / 2) + l];
            let lane = v[256 * s + 32 * i + l];
            &&& lane.scale == u16_le(b, o)
            &&& lane.min_scale == u16_le(b, o + 2)
            &&& lane.q == (if i % 2 == 0 { byte & 0x0fu8 } else { byte >> 4u8 }) as i32
            &&& i < 4 ==> lane.mult == (b[o + 4 + i] & 63u8) as i32 && lane.min_mult == (b[o + 8 + i] & 63u8) as i32
            &&& i >= 4 ==> lane.mult == ((b[o + 8 + i] & 0x0fu8) | ((b[o + i] >> 6u8) << 4u8)) as i32
                && lane.min_mult == ((b[o + 8 + i] >> 4u8) | ((b[o + 4 + i] >> 6u8) << 4u8)) as i32
        }),
{
    let k = 256 * s + 32 * i + l;
    let g = i / 2;
    let w = 32 * (i % 2) + l;
    lemma_split(i, 2, g, i % 2);
    lemma_split(k, 256, s, 64 * g + w);
    lemma_split(64 * g + w, 64, g, w);
    lemma_split(w, 32, i % 2, l);
}

/// Q6_K as ggml's reference `dequantize_row_q6_K`: super-block `s` is the 210 bytes at `210s`,
/// 128 `ql` bytes, 64 `qh` bytes, 16 signed scale bytes and an f16 `d`. For half `h` and
/// `l < 32`, with `ql = ql[64h..]`, `qh = qh[32h..]`, `sc = scales[8h..]` and `is = l / 16`:
/// element `128h + l` is `d * sc[is] * ((ql[l] & 15 | (qh[l] & 3) << 4) - 32)`, element
/// `+ 32` is `d * sc[is + 2] * ((ql[l + 32] & 15 | (qh[l] >> 2 & 3) << 4) - 32)`, element
/// `+ 64` is `d * sc[is + 4] * ((ql[l] >> 4 | (qh[l] >> 4 & 3) << 4) - 32)` and element `+ 96`
/// is `d * sc[is + 6] * ((ql[l + 32] >> 4 | (qh[l] >> 6 & 3) << 4) - 32)`. So each 16-element
/// sub-block `i` takes the scale byte `scales[i]`.
pub proof fn law_q6_k_block(b: Seq<u8>, n: int, v: Seq<Lane>, s: int, h: int, l: int)
    requires
        dequant_spec(GGML_Q6_K, b, n) == Ok::<DecodedView, DequantError>(DecodedView::Affine(v)),
        0 <= s,
        256 * s + 256 <= n,
        0 <= h < 2,
        0 <= l < 32,
    ensures
        ({
            let o = 210 * s;
            let ql = o + 64 * h;
            let qh = b[o + 128 + 32 * h + l];
            let sc = o + 192 + 8 * h + l / 16;
            let y = 256 * s + 128 * h + l;
            let d = u16_le(b, o + 208);
            &&& v[y] == (Lane { scale: d, mult: (b[sc] as i8) as i32,
                q: ((b[ql + l] & 0x0fu8) as i32 + 16 * (((qh >> 0u8) & 3u8) as i32) - 32) as i32, min_scale: 0, min_mult: 0 })
            &&& v[y + 32] == (Lane { scale: d, mult: (b[sc + 2] as i8) as i32,
                q: ((b[ql + l + 32] & 0x0fu8) as i32 + 16 * (((qh >> 2u8) & 3u8) as i32) - 32) as i32, min_scale: 0, min_mult: 0 })
            &&& v[y + 64] == (Lane { scale: d, mult: (b[sc + 4] as i8) as i32,
                q: ((b[ql + l] >> 4u8) as i32 + 16 * (((qh >> 4u8) & 3u8) as i32) - 32) as i32, min_scale: 0, min_mult: 0 })
            &&& v[y + 96] == (Lane { scale: d, mult: (b[sc + 6] as i8) as i32,
                q: ((b[ql + l + 32] >> 4u8) as i32 + 16 * (((qh >> 6u8) & 3u8) as i32) - 32) as i32, min_scale: 0, min_mult: 0 })
        }),
{
    let y = 256 * s + 128 * h + l;
    lemma_split(y, 256, s, 128 * h + l);
    lemma_split(y + 32, 256, s, 128 * h + 32 + l);
    lemma_split(y + 64, 256, s, 128 * h + 64 + l);
    lemma_split(y + 96, 256, s, 128 * h + 96 + l);
    lemma_split(128 * h + l, 128, h, l);
    lemma_split(128 * h + 32 + l, 128, h, 32 + l);
    lemma_split(128 * h + 64 + l, 128, h, 64 + l);
    lemma_split(128 * h + 96 + l, 128, h, 96 + l);
}

/// How much data each quantized type takes, as ggml lays it out: Q8_0 34 bytes, Q4_0 18 and
/// Q5_0 22 per 32 elements; Q4_K 144 and Q6_K 210 per 256. An element count that is not whole
/// blocks is refused as such; too few bytes are refused as truncated; every tag other than
/// F32, F16 and these five is refused as unsupported.
pub proof fn law_block_sizes(ty: u32, b: Seq<u8>, n: int)
    requires
        n >= 0,
    ensures
        ty == GGML_Q8_0 ==> (dequant_spec(ty, b, n) is Ok <==> n % 32 == 0 && (n / 32) * 34 <= b.len()),
        ty == GGML_Q4_0 ==> (dequant_spec(ty, b, n) is Ok <==> n % 32 == 0 && (n / 32) * 18 <= b.len()),
        ty == GGML_Q5_0 ==> (dequant_spec(ty, b, n) is Ok <==> n % 32 == 0 && (n / 32) * 22 <= b.len()),
        ty == GGML_Q4_K ==> (dequant_spec(ty, b, n) is Ok <==> n % 256 == 0 && (n / 256) * 144 <= b.len()),
        ty == GGML_Q6_K ==> (dequant_spec(ty, b, n) is Ok <==> n % 256 == 0 && (n / 256) * 210 <= b.len()),
        (ty == GGML_Q8_0 || ty == GGML_Q4_0 || ty == GGML_Q5_0) ==> (dequant_spec(ty, b, n) matches Err(DequantError::NotBlocked { .. }) <==> n % 32 != 0),
        (ty == GGML_Q4_K || ty == GGML_Q6_K) ==> (dequant_spec(ty, b, n) matches Err(DequantError::NotBlocked { .. }) <==> n % 256 != 0),
        ty != GGML_F32 && ty != GGML_F16 && ty != GGML_Q8_0 && ty != GGML_Q4_0 && ty != GGML_Q5_0 && ty != GGML_Q4_K && ty != GGML_Q6_K
            ==> dequant_spec(ty, b, n) == Err::<DecodedView, DequantError>(DequantError::Unsupported { ggml_type: ty }),
        dequant_spec(ty, b, n) matches Ok(DecodedView::Affine(v)) ==> v.len() == n,
        dequant_spec(ty, b, n) matches Ok(DecodedView::F32(v)) ==> v.len() == n,
        dequant_spec(ty, b, n) matches Ok(DecodedView::F16(v)) ==> v.len() == n,
{
}

} // verus!
