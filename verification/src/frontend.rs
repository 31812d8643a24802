//! The shape and dtype rules of the tensor frontend: NumPy broadcasting of two shapes, dtype
//! promotion for mixed binary ops, the shape `flatten` produces, and the per-step dropout
//! seeds of the training RNG.
use vstd::prelude::*;

verus! {

/// Element type of a tensor.
#[allow(non_camel_case_types)]
#[derive(Clone, Copy, Debug, PartialEq, Eq, Structural)]
pub enum DType {
    BOOL,
    U8,
    I8,
    I16,
    U16,
    F16,
    BF16,
    I32,
    U32,
    F32,
    F64,
    I64,
    U64,
}

/// The result dtype of a mixed-dtype binary op: equal dtypes stay; otherwise F64 if either
/// side is F64, else F32 if either side is F32, else the left dtype.
pub open spec fn promote_spec(a: DType, b: DType) -> DType {
    if a == b {
        a
    } else if a == DType::F64 || b == DType::F64 {
        DType::F64
    } else if a == DType::F32 || b == DType::F32 {
        DType::F32
    } else {
        a
    }
}

/// The result dtype of a mixed-dtype binary op (NumPy-ish, floats only for now).
pub fn promote(a: DType, b: DType) -> (r: DType)
    ensures
        r == promote_spec(a, b),
{
    if a == b {
        return a;
    }
    match (a, b) {
        (DType::F64, _) | (_, DType::F64) => DType::F64,
        (DType::F32, _) | (_, DType::F32) => DType::F32,
        _ => a,
    }
}

/// Dimension `i` of `s` once it is aligned to the right within rank `r` (a missing leading
/// dimension counts as 1).
pub open spec fn aligned_dim(s: Seq<usize>, r: int, i: int) -> usize {
    if i + s.len() < r {
        1
    } else {
        s[i + s.len() - r]
    }
}

/// Whether two aligned dimensions broadcast: equal, or one of them is 1.
pub open spec fn dims_agree(x: usize, y: usize) -> bool {
    x == y || x == 1 || y == 1
}

/// The dimension two agreeing dimensions broadcast to.
pub open spec fn broadcast_dim(x: usize, y: usize) -> usize {
    if x == y {
        x
    } else if x == 1 {
        y
    } else {
        x
    }
}

pub open spec fn max_len(a: Seq<usize>, b: Seq<usize>) -> int {
    if a.len() >= b.len() {
        a.len() as int
    } else {
        b.len() as int
    }
}

/// Whether shapes `a` and `b` broadcast: aligned to the right, each pair of dimensions agrees.
pub open spec fn broadcastable(a: Seq<usize>, b: Seq<usize>) -> bool {
    let r = max_len(a, b);
    forall|i: int| 0 <= i < r ==> #[trigger] dims_agree(aligned_dim(a, r, i), aligned_dim(b, r, i))
}

/// The NumPy broadcast of shapes `a` and `b`, when they broadcast.
pub open spec fn broadcast_spec(a: Seq<usize>, b: Seq<usize>) -> Seq<usize> {
    let r = max_len(a, b);
    Seq::new(r as nat, |i: int| broadcast_dim(aligned_dim(a, r, i), aligned_dim(b, r, i)))
}

/// NumPy broadcast of two shapes: align trailing dims; each pair must be equal or one of them
/// 1 (which stretches); a missing leading dim counts as 1. `None` when they do not broadcast.
pub fn broadcast_shape(a: &[usize], b: &[usize]) -> (r: Option<Vec<usize>>)
    ensures
        r is Some <==> broadcastable(a@, b@),
        r matches Some(v) ==> v@ == broadcast_spec(a@, b@),
{
    let r = if a.len() >= b.len() { a.len() } else { b.len() };
    let mut out: Vec<usize> = Vec::new();
    let mut i: usize = 0;
    while i < r
        invariant
            r as int == max_len(a@, b@),
            i <= r,
            out@.len() == i,
            forall|k: int| 0 <= k < i ==> #[trigger] dims_agree(aligned_dim(a@, r as int, k), aligned_dim(b@, r as int, k)),
            forall|k: int| 0 <= k < i ==> out@[k] == broadcast_dim(aligned_dim(a@, r as int, k), aligned_dim(b@, r as int, k)),
        decreases r - i,
    {
        let ad = if i < r - a.len() { 1 } else { a[i - (r - a.len())] };
        let bd = if i < r - b.len() { 1 } else { b[i - (r - b.len())] };
        assert(ad == aligned_dim(a@, r as int, i as int) && bd == aligned_dim(b@, r as int, i as int));
        if ad == bd {
            out.push(ad);
        } else if ad == 1 {
            out.push(bd);
        } else if bd == 1 {
            out.push(ad);
        } else {
            assert(!dims_agree(aligned_dim(a@, r as int, i as int), aligned_dim(b@, r as int, i as int)));
            return None;
        }
        i = i + 1;
    }
    assert(out@ =~= broadcast_spec(a@, b@));
    Some(out)
}

/// The product of `s`.
pub open spec fn shape_product(s: Seq<usize>) -> int
    decreases s.len(),
{
    if s.len() == 0 {
        1
    } else {
        shape_product(s.drop_last()) * s.last()
    }
}

/// The shape `flatten(start_dim)` gives: the dims before `start_dim`, then the product of the
/// rest as one dim.
pub open spec fn flatten_spec(s: Seq<usize>, start_dim: int) -> Seq<usize> {
    s.take(start_dim).push(shape_product(s.skip(start_dim)) as usize)
}

/// Whether every running product of `s` fits a usize.
pub open spec fn product_fits(s: Seq<usize>) -> bool {
    forall|i: int| 0 <= i <= s.len() ==> #[trigger] shape_product(s.take(i)) <= usize::MAX
}

/// Flatten dims `[start_dim ..]` into one, keeping the leading dims: for `[N, C, H, W]` and
/// `start_dim = 1` -> `[N, C*H*W]`. `None` when the product overflows along the way.
pub fn flatten_shape(s: &[usize], start_dim: usize) -> (r: Option<Vec<usize>>)
    requires
        start_dim <= s@.len(),
    ensures
        r is Some <==> product_fits(s@.skip(start_dim as int)),
        r matches Some(v) ==> v@ == flatten_spec(s@, start_dim as int),
{
    let ghost tail = s@.skip(start_dim as int);
    let mut out: Vec<usize> = Vec::new();
    let mut i: usize = 0;
    while i < start_dim
        invariant
            start_dim <= s@.len(),
            i <= start_dim,
            out@ == s@.take(i as int),
        decreases start_dim - i,
    {
        out.push(s[i]);
        i = i + 1;
        assert(out@ =~= s@.take(i as int));
    }
    let mut acc: usize = 1;
    let mut j: usize = start_dim;
    assert(tail.take(0) =~= seq![]);
    while j < s.len()
        invariant
            start_dim <= j <= s@.len(),
            tail == s@.skip(start_dim as int),
            acc == shape_product(tail.take(j - start_dim)),
            forall|k: int| 0 <= k <= j - start_dim ==> #[trigger] shape_product(tail.take(k)) <= usize::MAX,
        decreases s@.len() - j,
    {
        assert(tail.take(j - start_dim + 1).drop_last() =~= tail.take(j - start_dim));
        assert(tail[j - start_dim] == s@[j as int]);
        let d = s[j];
        if d != 0 && acc > usize::MAX / d {
            assert(acc * d > usize::MAX) by (nonlinear_arith)
                requires
                    d > 0,
                    acc > usize::MAX / d,
            ;
            assert(shape_product(tail.take(j - start_dim + 1)) > usize::MAX);
            return None;
        }
        assert(acc * d <= usize::MAX) by (nonlinear_arith)
            requires
                d == 0 || acc <= usize::MAX / d,
        ;
        acc = acc * d;
        j = j + 1;
    }
    assert(tail.take(s@.len() - start_dim) =~= tail);
    out.push(acc);
    Some(out)
}

/// The seed fed to dropout `i` after the RNG counter has ticked to `counter`.
pub open spec fn dropout_seed_spec(counter: u64, i: u64) -> i64 {
    ((counter * 1_000_003 + i) % 0x1_0000_0000_0000_0000) as u64 as i64
}

/// The seed fed to dropout `i` after the RNG counter has ticked to `counter`:
/// `counter * 1_000_003 + i`, wrapping, reinterpreted as i64.
pub fn dropout_seed(counter: u64, i: u64) -> (r: i64)
    ensures
        r == dropout_seed_spec(counter, i),
{
    let m = counter.wrapping_mul(1_000_003);
    let s = m.wrapping_add(i);
    proof {
        assert(m == (counter * 1_000_003) % 0x1_0000_0000_0000_0000);
        assert(s == (m + i) % 0x1_0000_0000_0000_0000);
        vstd::arithmetic::div_mod::lemma_add_mod_noop(counter * 1_000_003, i as int, 0x1_0000_0000_0000_0000);
        vstd::arithmetic::div_mod::lemma_mod_twice(i as int, 0x1_0000_0000_0000_0000);
    }
    s as i64
}

/// Broadcasting is symmetric: `a` broadcasts with `b` exactly when `b` broadcasts with `a`,
/// to the same shape.
pub proof fn law_broadcast_symmetric(a: Seq<usize>, b: Seq<usize>)
    ensures
        broadcastable(a, b) == broadcastable(b, a),
        broadcastable(a, b) ==> broadcast_spec(a, b) == broadcast_spec(b, a),
{
    let r = max_len(a, b);
    assert(max_len(b, a) == r);
    assert forall|i: int| 0 <= i < r implies #[trigger] dims_agree(aligned_dim(a, r, i), aligned_dim(b, r, i))
        == dims_agree(aligned_dim(b, r, i), aligned_dim(a, r, i)) by {}
    if broadcastable(a, b) {
        assert forall|i: int| 0 <= i < r implies #[trigger] dims_agree(aligned_dim(b, r, i), aligned_dim(a, r, i)) by {
            assert(dims_agree(aligned_dim(a, r, i), aligned_dim(b, r, i)));
        }
        assert forall|i: int| 0 <= i < r implies #[trigger] broadcast_spec(a, b)[i] == broadcast_spec(b, a)[i] by {
            assert(dims_agree(aligned_dim(a, r, i), aligned_dim(b, r, i)));
        }
        assert(broadcast_spec(a, b) =~= broadcast_spec(b, a));
    }
    if broadcastable(b, a) {
        assert forall|i: int| 0 <= i < r implies #[trigger] dims_agree(aligned_dim(a, r, i), aligned_dim(b, r, i)) by {
            assert(dims_agree(aligned_dim(b, r, i), aligned_dim(a, r, i)));
        }
    }
}

/// The broadcast shape has the rank of the longer operand, and a shape broadcasts with itself
/// to itself.
pub proof fn law_broadcast_rank_and_self(a: Seq<usize>, b: Seq<usize>)
    ensures
        broadcast_spec(a, b).len() == (if a.len() >= b.len() { a.len() } else { b.len() }),
        broadcastable(a, a),
        broadcast_spec(a, a) == a,
{
    let r = a.len() as int;
    assert forall|i: int| 0 <= i < r implies #[trigger] dims_agree(aligned_dim(a, r, i), aligned_dim(a, r, i)) by {}
    assert(broadcast_spec(a, a) =~= a);
}

/// Dimension `i` of a broadcast result agrees with each operand's aligned dimension, so each
/// operand broadcasts to the result shape unchanged.
pub proof fn law_broadcast_absorbs(a: Seq<usize>, b: Seq<usize>)
    requires
        broadcastable(a, b),
    ensures
        broadcastable(a, broadcast_spec(a, b)),
        broadcast_spec(a, broadcast_spec(a, b)) == broadcast_spec(a, b),
{
    let c = broadcast_spec(a, b);
    let r = max_len(a, b);
    assert(max_len(a, c) == r);
    assert forall|i: int| 0 <= i < r implies #[trigger] dims_agree(aligned_dim(a, r, i), aligned_dim(c, r, i)) by {
        assert(dims_agree(aligned_dim(a, r, i), aligned_dim(b, r, i)));
    }
    assert forall|i: int| 0 <= i < r implies #[trigger] broadcast_spec(a, c)[i] == c[i] by {
        assert(dims_agree(aligned_dim(a, r, i), aligned_dim(b, r, i)));
    }
    assert(broadcast_spec(a, c) =~= c);
}

/// Promotion keeps a dtype paired with itself, and is symmetric whenever a float is involved;
/// an F64 operand always wins.
pub proof fn law_promote(a: DType, b: DType)
    ensures
        promote_spec(a, a) == a,
        (a == DType::F32 || a == DType::F64 || b == DType::F32 || b == DType::F64) ==> promote_spec(a, b) == promote_spec(b, a),
        (a == DType::F64 || b == DType::F64) ==> promote_spec(a, b) == DType::F64,
{
}

/// What a mixed binary op computes in: always one of the two operand dtypes; F64 whenever
/// either operand is F64; otherwise F32 whenever either operand is F32, so a float operand
/// never gives way to an integer or half-precision one; between two other distinct dtypes,
/// the left one.
pub proof fn law_promote_rank(a: DType, b: DType)
    ensures
        promote_spec(a, b) == a || promote_spec(a, b) == b,
        (a == DType::F64 || b == DType::F64) ==> promote_spec(a, b) == DType::F64,
        (a == DType::F32 || b == DType::F32) && a != DType::F64 && b != DType::F64 ==> promote_spec(a, b) == DType::F32,
        a != DType::F32 && a != DType::F64 && b != DType::F32 && b != DType::F64 ==> promote_spec(a, b) == a,
{
}

/// NumPy broadcasting, dimension by dimension from the right: the `k`-th trailing dimensions of
/// the two shapes (1 where a shape is too short) are equal or one of them is 1, and the result's
/// `k`-th trailing dimension is the other one (so 0 against 1 gives 0).
pub proof fn law_broadcast_trailing(a: Seq<usize>, b: Seq<usize>, k: int)
    requires
        broadcastable(a, b),
        0 <= k < a.len() || 0 <= k < b.len(),
    ensures
        ({
            let x = if k < a.len() { a[a.len() - 1 - k] } else { 1usize };
            let y = if k < b.len() { b[b.len() - 1 - k] } else { 1usize };
            let c = broadcast_spec(a, b);
            &&& x == y || x == 1 || y == 1
            &&& c[c.len() - 1 - k] == (if x == 1 { y } else { x })
        }),
{
    let r = max_len(a, b);
    assert(dims_agree(aligned_dim(a, r, r - 1 - k), aligned_dim(b, r, r - 1 - k)));
}

/// Flattening from `start_dim` keeps the leading dims as they are and leaves exactly one more
/// dim after them.
pub proof fn law_flatten_layout(s: Seq<usize>, start_dim: int)
    requires
        0 <= start_dim <= s.len(),
    ensures
        flatten_spec(s, start_dim).len() == start_dim + 1,
        forall|i: int| 0 <= i < start_dim ==> #[trigger] flatten_spec(s, start_dim)[i] == s[i],
{
}

proof fn lemma_product_split(s: Seq<usize>, k: int)
    requires
        0 <= k <= s.len(),
    ensures
        shape_product(s) == shape_product(s.take(k)) * shape_product(s.skip(k)),
    decreases s.len(),
{
    if s.len() == k {
        assert(s.take(k) =~= s);
        assert(s.skip(k) =~= seq![]);
    } else {
        let t = s.drop_last();
        lemma_product_split(t, k);
        assert(s.take(k) =~= t.take(k));
        assert(s.skip(k).drop_last() =~= t.skip(k));
        assert(s.skip(k).last() == s.last());
        let x = shape_product(t.take(k));
        let y = shape_product(t.skip(k));
        assert(x * y * s.last() == x * (y * s.last())) by (nonlinear_arith);
    }
}

/// Flattening keeps the element count: the product of the flattened shape is the product of
/// the original (when the flattened dim fits).
pub proof fn law_flatten_keeps_count(s: Seq<usize>, start_dim: int)
    requires
        0 <= start_dim <= s.len(),
        shape_product(s.skip(start_dim)) <= usize::MAX,
    ensures
        shape_product(flatten_spec(s, start_dim)) == shape_product(s),
{
    lemma_product_split(s, start_dim);
    let f = flatten_spec(s, start_dim);
    assert(f.drop_last() =~= s.take(start_dim));
    lemma_product_nonneg(s.skip(start_dim));
}

proof fn lemma_product_nonneg(s: Seq<usize>)
    ensures
        shape_product(s) >= 0,
    decreases s.len(),
{
    if s.len() > 0 {
        lemma_product_nonneg(s.drop_last());
        let x = shape_product(s.drop_last());
        assert(x * s.last() >= 0) by (nonlinear_arith)
            requires
                x >= 0,
        ;
    }
}

/// How one operand of a broadcasting binary op is brought to the op's shape and dtype: a cast
/// when its dtype differs, a broadcast when its shape differs (each a no-op otherwise).
#[derive(Clone, Copy, Debug, PartialEq, Eq, Structural)]
pub struct Coerce {
    pub cast: bool,
    pub broadcast: bool,
}

/// How to bring an operand of shape `cur_shape` and dtype `cur_dt` to `shape` and `dt`.
pub fn coerce_plan(cur_shape: &[usize], cur_dt: DType, shape: &[usize], dt: DType) -> (r: Coerce)
    ensures
        r.cast == (cur_dt != dt),
        r.broadcast == (cur_shape@ != shape@),
{
    Coerce { cast: cur_dt != dt, broadcast: !crate::wire::shape_eq(cur_shape, shape) }
}

/// The plan of a broadcasting binary op: the result shape and dtype, and how each operand is
/// brought to them.
#[derive(Clone, Debug, PartialEq, Eq)]
pub struct BinPlan {
    pub shape: Vec<usize>,
    pub dtype: DType,
    pub lhs: Coerce,
    pub rhs: Coerce,
}

/// Plans a broadcasting binary op: the NumPy broadcast of the two shapes, the promoted dtype,
/// and the cast / broadcast each operand needs. `None` when the shapes do not broadcast.
pub fn bin_plan(a_shape: &[usize], a_dt: DType, b_shape: &[usize], b_dt: DType) -> (r: Option<BinPlan>)
    ensures
        r is Some <==> broadcastable(a_shape@, b_shape@),
        r matches Some(p) ==> {
            &&& p.shape@ == broadcast_spec(a_shape@, b_shape@)
            &&& p.dtype == promote_spec(a_dt, b_dt)
            &&& p.lhs.cast == (a_dt != p.dtype) && p.lhs.broadcast == (a_shape@ != p.shape@)
            &&& p.rhs.cast == (b_dt != p.dtype) && p.rhs.broadcast == (b_shape@ != p.shape@)
        },
{
    let shape = match broadcast_shape(a_shape, b_shape) {
        Some(s) => s,
        None => return None,
    };
    let dtype = promote(a_dt, b_dt);
    let lhs = coerce_plan(a_shape, a_dt, shape.as_slice(), dtype);
    let rhs = coerce_plan(b_shape, b_dt, shape.as_slice(), dtype);
    Some(BinPlan { shape, dtype, lhs, rhs })
}

/// The axes a matmul contracts: the left operand's last axis and the right operand's
/// second-to-last (each saturating at 0 for low ranks).
pub fn matmul_axes(lhs_rank: usize, rhs_rank: usize) -> (r: (usize, usize))
    ensures
        r.0 == (if lhs_rank >= 1 { lhs_rank - 1 } else { 0 }),
        r.1 == (if rhs_rank >= 2 { rhs_rank - 2 } else { 0 }),
{
    (lhs_rank.saturating_sub(1), rhs_rank.saturating_sub(2))
}

} // verus!
