//! Little-endian wire primitives shared by every byte format in the crate: fixed-width
//! integers, length-prefixed UTF-8 strings, and a bounds-checked read cursor.
use vstd::bytes::*;
use vstd::prelude::*;
use vstd::utf8::*;
use vstd::string::StringSliceAdditionalSpecFns;

verus! {

broadcast use vstd::utf8::encode_utf8_decode_utf8, vstd::utf8::encode_utf8_valid_utf8;

/// `n` bytes of `b` starting at `p`, and the position just past them.
pub open spec fn bytes_at(b: Seq<u8>, p: int, n: int) -> Option<(Seq<u8>, int)> {
    if 0 <= p && 0 <= n && p + n <= b.len() {
        Some((b.subrange(p, p + n), p + n))
    } else {
        None
    }
}

pub open spec fn u8_at(b: Seq<u8>, p: int) -> Option<(u8, int)> {
    if 0 <= p && p + 1 <= b.len() {
        Some((b[p], p + 1))
    } else {
        None
    }
}

pub open spec fn u16_at(b: Seq<u8>, p: int) -> Option<(u16, int)> {
    if 0 <= p && p + 2 <= b.len() {
        Some((spec_u16_from_le_bytes(b.subrange(p, p + 2)), p + 2))
    } else {
        None
    }
}

pub open spec fn u32_at(b: Seq<u8>, p: int) -> Option<(u32, int)> {
    if 0 <= p && p + 4 <= b.len() {
        Some((spec_u32_from_le_bytes(b.subrange(p, p + 4)), p + 4))
    } else {
        None
    }
}

pub open spec fn u64_at(b: Seq<u8>, p: int) -> Option<(u64, int)> {
    if 0 <= p && p + 8 <= b.len() {
        Some((spec_u64_from_le_bytes(b.subrange(p, p + 8)), p + 8))
    } else {
        None
    }
}

/// The text that the UTF-8 bytes `b` spell, or `None` when they are not valid UTF-8.
pub open spec fn utf8_text(b: Seq<u8>) -> Option<Seq<char>> {
    if valid_utf8(b) {
        Some(decode_utf8(b))
    } else {
        None
    }
}

/// The UTF-8 bytes of `s`.
pub open spec fn utf8_bytes(s: Seq<char>) -> Seq<u8> {
    encode_utf8(s)
}

/// Decoding the bytes of a text gives the text back.
pub proof fn lemma_utf8_round_trip(s: Seq<char>)
    ensures
        utf8_text(utf8_bytes(s)) == Some(s),
{
}

/// Two texts with the same UTF-8 bytes are the same text.
pub proof fn lemma_utf8_injective(s: Seq<char>, t: Seq<char>)
    requires
        utf8_bytes(s) == utf8_bytes(t),
    ensures
        s == t,
{
    lemma_utf8_round_trip(s);
    lemma_utf8_round_trip(t);
}

/// Wraps `std::str::from_utf8`: `Some` exactly when `b` is valid UTF-8, and then a string
/// whose UTF-8 bytes are `b` (the std documentation: the slice is checked and reinterpreted).
#[verifier::external_body]
fn str_from_utf8(b: &[u8]) -> (r: Option<&str>)
    ensures
        r is Some <==> valid_utf8(b@),
        r matches Some(s) ==> s.spec_bytes() == b@,
{
    std::str::from_utf8(b).ok()
}

/// Decodes UTF-8 bytes into an owned string.
pub fn string_from_utf8(b: &[u8]) -> (r: Option<String>)
    ensures
        r is Some <==> utf8_text(b@) is Some,
        r matches Some(s) ==> utf8_text(b@) == Some(s@),
{
    match str_from_utf8(b) {
        Some(s) => {
            proof {
                lemma_utf8_round_trip(s@);
            }
            Some(s.to_owned())
        },
        None => None,
    }
}

/// Wraps `String::push_str`, which the std documentation says appends the given string slice
/// onto the end of the string.
#[verifier::external_body]
pub(crate) fn push_str(s: &mut String, t: &str)
    ensures
        final(s)@ == old(s)@ + t@,
{
    s.push_str(t);
}

/// Wraps `String::push`, which the std documentation says appends the given char to the end of
/// the string.
#[verifier::external_body]
pub(crate) fn push_char(s: &mut String, c: char)
    ensures
        final(s)@ == old(s)@.push(c),
{
    s.push(c);
}

/// The decimal digit `d` (0 to 9).
pub open spec fn digit_char(d: int) -> char {
    if d == 0 { '0' } else if d == 1 { '1' } else if d == 2 { '2' } else if d == 3 { '3' } else if d == 4 { '4' }
    else if d == 5 { '5' } else if d == 6 { '6' } else if d == 7 { '7' } else if d == 8 { '8' } else { '9' }
}

/// `n` written in decimal, without leading zeros.
pub open spec fn decimal(n: nat) -> Seq<char>
    decreases n,
{
    if n < 10 {
        seq![digit_char(n as int)]
    } else {
        decimal(n / 10).push(digit_char((n % 10) as int))
    }
}

fn digit(d: u64) -> (c: char)
    requires
        d < 10,
    ensures
        c == digit_char(d as int),
{
    if d == 0 { '0' } else if d == 1 { '1' } else if d == 2 { '2' } else if d == 3 { '3' } else if d == 4 { '4' }
    else if d == 5 { '5' } else if d == 6 { '6' } else if d == 7 { '7' } else if d == 8 { '8' } else { '9' }
}

/// Appends `n` written in decimal.
pub fn push_decimal(s: &mut String, n: u64)
    ensures
        final(s)@ == old(s)@ + decimal(n as nat),
    decreases n,
{
    if n >= 10 {
        push_decimal(s, n / 10);
    }
    push_char(s, digit(n % 10));
    assert(s@ =~= old(s)@ + decimal(n as nat));
}

/// Whether two byte slices hold the same bytes.
pub fn bytes_eq(a: &[u8], b: &[u8]) -> (r: bool)
    ensures
        r == (a@ == b@),
{
    if a.len() != b.len() {
        return false;
    }
    let mut i: usize = 0;
    while i < a.len()
        invariant
            a@.len() == b@.len(),
            i <= a@.len(),
            forall|k: int| 0 <= k < i ==> a@[k] == b@[k],
        decreases a@.len() - i,
    {
        if a[i] != b[i] {
            return false;
        }
        i = i + 1;
    }
    assert(a@ =~= b@);
    true
}

/// Whether two shapes hold the same dimensions.
pub fn shape_eq(a: &[usize], b: &[usize]) -> (r: bool)
    ensures
        r == (a@ == b@),
{
    if a.len() != b.len() {
        return false;
    }
    let mut i: usize = 0;
    while i < a.len()
        invariant
            a@.len() == b@.len(),
            i <= a@.len(),
            forall|k: int| 0 <= k < i ==> a@[k] == b@[k],
        decreases a@.len() - i,
    {
        if a[i] != b[i] {
            return false;
        }
        i = i + 1;
    }
    assert(a@ =~= b@);
    true
}

/// Whether two strings hold the same text, compared by their UTF-8 bytes.
pub fn str_eq(a: &str, b: &str) -> (r: bool)
    ensures
        r == (a@ == b@),
{
    let r = bytes_eq(a.as_bytes(), b.as_bytes());
    proof {
        if r {
            lemma_utf8_injective(a@, b@);
        }
    }
    r
}

/// Reads `n` bytes at `p`.
pub fn read_bytes(b: &[u8], p: usize, n: usize) -> (r: Option<(&[u8], usize)>)
    ensures
        match bytes_at(b@, p as int, n as int) {
            Some((s, q)) => r matches Some((x, e)) && x@ == s && e == q,
            None => r is None,
        },
{
    if p <= b.len() && n <= b.len() - p {
        let s = vstd::slice::slice_subrange(b, p, p + n);
        Some((s, p + n))
    } else {
        None
    }
}

pub fn read_u8(b: &[u8], p: usize) -> (r: Option<(u8, usize)>)
    ensures
        r is None <==> u8_at(b@, p as int) is None,
        r matches Some((v, e)) ==> u8_at(b@, p as int) == Some((v, e as int)),
{
    if p < b.len() {
        Some((b[p], p + 1))
    } else {
        None
    }
}

pub fn read_u16(b: &[u8], p: usize) -> (r: Option<(u16, usize)>)
    ensures
        r is None <==> u16_at(b@, p as int) is None,
        r matches Some((v, e)) ==> u16_at(b@, p as int) == Some((v, e as int)),
{
    match read_bytes(b, p, 2) {
        Some((s, q)) => Some((u16_from_le_bytes(s), q)),
        None => None,
    }
}

pub fn read_u32(b: &[u8], p: usize) -> (r: Option<(u32, usize)>)
    ensures
        r is None <==> u32_at(b@, p as int) is None,
        r matches Some((v, e)) ==> u32_at(b@, p as int) == Some((v, e as int)),
{
    match read_bytes(b, p, 4) {
        Some((s, q)) => Some((u32_from_le_bytes(s), q)),
        None => None,
    }
}

pub fn read_u64(b: &[u8], p: usize) -> (r: Option<(u64, usize)>)
    ensures
        r is None <==> u64_at(b@, p as int) is None,
        r matches Some((v, e)) ==> u64_at(b@, p as int) == Some((v, e as int)),
{
    match read_bytes(b, p, 8) {
        Some((s, q)) => Some((u64_from_le_bytes(s), q)),
        None => None,
    }
}

/// Appends the little-endian bytes of `x`.
pub fn push_u32(out: &mut Vec<u8>, x: u32)
    ensures
        final(out)@ == old(out)@ + spec_u32_to_le_bytes(x),
{
    let v = u32_to_le_bytes(x);
    out.extend_from_slice(v.as_slice());
}

/// Appends the little-endian bytes of `x`.
pub fn push_u64(out: &mut Vec<u8>, x: u64)
    ensures
        final(out)@ == old(out)@ + spec_u64_to_le_bytes(x),
{
    let v = u64_to_le_bytes(x);
    out.extend_from_slice(v.as_slice());
}

} // verus!
