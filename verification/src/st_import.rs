//! HuggingFace `.safetensors` import through the `safetensors` crate: a file's tensors at their
//! native dtype (`load_safetensors`), and the binding of those tensors to a model's slots by
//! name (`apply_safetensors`). Only the dtypes the tensor frontend has are accepted; the MX
//! (F4/F6), FP8 and complex formats are refused.
use crate::bind::{bind_slots, bind_spec, maps_to, names_view, shapes_view, BindError};
use crate::frontend::DType;
use crate::model::{slots_view, ModelSlot};
use crate::wire::{read_u64, str_eq, u64_at};
use vstd::prelude::*;

verus! {

#[verifier::external_type_specification]
#[verifier::external_body]
pub struct ExSafeTensorError(::safetensors::SafeTensorError);

/// A tensor as the `safetensors` reader hands it out: its name, its dtype by name, its shape
/// and its little-endian bytes.
pub struct StRaw {
    pub name: String,
    pub dtype: String,
    pub shape: Vec<usize>,
    pub data: Vec<u8>,
}

/// What a safetensors file says of one tensor: its dtype by name, its shape and its bytes.
pub struct StRawView {
    pub dtype: Seq<char>,
    pub shape: Seq<usize>,
    pub data: Seq<u8>,
}

pub open spec fn raw_view(r: StRaw) -> StRawView {
    StRawView { dtype: r.dtype@, shape: r.shape@, data: r.data@ }
}

/// The tensors a safetensors file holds, by name, or `None` when the `safetensors` crate
/// refuses the file.
pub uninterp spec fn st_contents(bytes: Seq<u8>) -> Option<Map<Seq<char>, StRawView>>;

/// `v` lists each tensor of `m` exactly once, in some order.
pub open spec fn lists_exactly(m: Map<Seq<char>, StRawView>, v: Seq<StRaw>) -> bool {
    &&& forall|i: int| #![trigger v[i]] 0 <= i < v.len() ==> m.contains_key(v[i].name@) && m[v[i].name@] == raw_view(v[i])
    &&& forall|i: int, j: int| 0 <= i < j < v.len() ==> v[i].name@ != v[j].name@
    &&& forall|k: Seq<char>| #[trigger] m.contains_key(k) ==> exists|i: int| 0 <= i < v.len() && v[i].name@ == k
}

/// The JSON lexer state after one more header byte `c`: whether it is inside a string, and
/// whether the next byte is escaped.
pub open spec fn lex_step(st: (bool, bool), c: u8) -> (bool, bool) {
    if !st.0 {
        (c == 0x22u8, false)
    } else if st.1 {
        (true, false)
    } else if c == 0x5cu8 {
        (true, true)
    } else {
        (c != 0x22u8, false)
    }
}

/// The lexer state before byte `j` of a JSON text that starts at `lo`.
pub open spec fn lex_state(b: Seq<u8>, lo: int, j: int) -> (bool, bool)
    decreases j - lo,
{
    if j <= lo {
        (false, false)
    } else {
        lex_step(lex_state(b, lo, j - 1), b[j - 1])
    }
}

pub open spec fn is_digit(c: u8) -> bool {
    0x30u8 <= c <= 0x39u8
}

/// The value of the run of digits, outside any string, that ends at byte `j` (0 where byte
/// `j` is no such digit). Every number of the JSON text is such a run.
pub open spec fn number_run(b: Seq<u8>, lo: int, j: int) -> int
    decreases j + 1 - lo,
{
    if j < lo || j >= b.len() || lex_state(b, lo, j).0 || !is_digit(b[j]) {
        0
    } else {
        number_run(b, lo, j - 1) * 10 + (b[j] - 0x30u8)
    }
}

/// Whether every number in a safetensors header is small enough that the end of the tensor
/// data it can declare, plus the header, still fits a usize. The header is the `n` bytes after
/// the little-endian u64 `n`; a file too short to hold them has no header to check.
pub open spec fn header_numbers_fit(b: Seq<u8>) -> bool {
    match u64_at(b, 0) {
        None => true,
        Some((n, _)) => 8 + n > b.len() || forall|j: int| 8 <= j < 8 + n ==> #[trigger] number_run(b, 8, j) <= usize::MAX - 8 - n,
    }
}

/// Whether every number in the header is small enough (see [`header_numbers_fit`]).
pub fn numbers_fit(b: &[u8]) -> (r: bool)
    ensures
        r == header_numbers_fit(b@),
{
    let (n, _) = match read_u64(b, 0) {
        Some(x) => x,
        None => return true,
    };
    let blen = b.len();
    if n > (blen - 8) as u64 {
        return true;
    }
    let end: usize = 8 + n as usize;
    let bound: usize = usize::MAX - end;
    let mut in_str = false;
    let mut esc = false;
    let mut acc: usize = 0;
    let mut j: usize = 8;
    while j < end
        invariant
            blen == b@.len(),
            u64_at(b@, 0) matches Some((m, _)) && m == n,
            end == 8 + n,
            end <= blen,
            bound == usize::MAX - 8 - n,
            8 <= j <= end,
            (in_str, esc) == lex_state(b@, 8, j as int),
            acc == number_run(b@, 8, j - 1),
            acc <= bound,
            forall|k: int| 8 <= k < j ==> #[trigger] number_run(b@, 8, k) <= bound,
        decreases end - j,
    {
        let c = b[j];
        if !in_str && 0x30 <= c && c <= 0x39 {
            let d: usize = (c - 0x30) as usize;
            if d > bound || acc > (bound - d) / 10 {
                proof {
                    if d <= bound {
                        assert(acc * 10 + d > bound) by (nonlinear_arith)
                            requires
                                acc > (bound - d) / 10,
                                d <= bound,
                        ;
                    }
                }
                assert(number_run(b@, 8, j as int) > bound);
                return false;
            }
            assert(acc * 10 + d <= bound) by (nonlinear_arith)
                requires
                    acc <= (bound - d) / 10,
                    d <= bound,
            ;
            acc = acc * 10 + d;
        } else {
            acc = 0;
        }
        assert(acc == number_run(b@, 8, j as int));
        let ghost st = lex_step((in_str, esc), c);
        if !in_str {
            in_str = c == 0x22;
            esc = false;
        } else if esc {
            esc = false;
        } else if c == 0x5c {
            esc = true;
        } else {
            in_str = c != 0x22;
        }
        assert((in_str, esc) == st);
        j = j + 1;
    }
    true
}

/// Wraps `SafeTensors::deserialize` and `SafeTensors::tensors`: the file is refused exactly
/// when `st_contents` has nothing for it, and otherwise every tensor of the file comes out
/// once, with its dtype written by its variant name (`{:?}` of `Dtype`), its shape and a copy
/// of its bytes. The order is that of the crate's internal hash map and is not stated.
/// `read_metadata` adds the declared end of the tensor data to the header length unchecked, so
/// a header whose numbers do not fit (see [`header_numbers_fit`]) is not handed to it.
#[verifier::external_body]
fn st_tensors(bytes: &[u8]) -> (r: Result<Vec<StRaw>, ::safetensors::SafeTensorError>)
    requires
        header_numbers_fit(bytes@),
    ensures
        r is Err <==> st_contents(bytes@) is None,
        r matches Ok(v) ==> st_contents(bytes@) matches Some(m) && lists_exactly(m, v@),
{
    match ::safetensors::SafeTensors::deserialize(bytes) {
        Ok(st) => Ok(
            st.tensors().into_iter().map(|(name, v)| StRaw {
                name,
                dtype: format!("{:?}", v.dtype()),
                shape: v.shape().to_vec(),
                data: v.data().to_vec(),
            }).collect(),
        ),
        Err(e) => Err(e),
    }
}

/// The frontend dtype a safetensors dtype name stands for, if the frontend has it.
pub open spec fn dtype_of_name(s: Seq<char>) -> Option<DType> {
    if s == "BOOL"@ {
        Some(DType::BOOL)
    } else if s == "U8"@ {
        Some(DType::U8)
    } else if s == "I8"@ {
        Some(DType::I8)
    } else if s == "I16"@ {
        Some(DType::I16)
    } else if s == "U16"@ {
        Some(DType::U16)
    } else if s == "F16"@ {
        Some(DType::F16)
    } else if s == "BF16"@ {
        Some(DType::BF16)
    } else if s == "I32"@ {
        Some(DType::I32)
    } else if s == "U32"@ {
        Some(DType::U32)
    } else if s == "F32"@ {
        Some(DType::F32)
    } else if s == "F64"@ {
        Some(DType::F64)
    } else if s == "I64"@ {
        Some(DType::I64)
    } else if s == "U64"@ {
        Some(DType::U64)
    } else {
        None
    }
}

/// The name of a frontend dtype: its variant's name, which is also the safetensors name of
/// that element type.
pub open spec fn dtype_label(d: DType) -> Seq<char> {
    match d {
        DType::BOOL => "BOOL"@,
        DType::U8 => "U8"@,
        DType::I8 => "I8"@,
        DType::I16 => "I16"@,
        DType::U16 => "U16"@,
        DType::F16 => "F16"@,
        DType::BF16 => "BF16"@,
        DType::I32 => "I32"@,
        DType::U32 => "U32"@,
        DType::F32 => "F32"@,
        DType::F64 => "F64"@,
        DType::I64 => "I64"@,
        DType::U64 => "U64"@,
    }
}

/// A safetensors dtype name is read as the frontend dtype of the same name, and as no other:
/// every frontend dtype is accepted under its own name, no two names give the same dtype, and
/// every other name (MX, FP8, complex) is refused.
pub proof fn law_dtype_by_name(s: Seq<char>, d: DType)
    ensures
        dtype_of_name(s) == Some(d) <==> s == dtype_label(d),
        dtype_of_name(dtype_label(d)) == Some(d),
{
    reveal_strlit("BOOL");
    reveal_strlit("U8");
    reveal_strlit("I8");
    reveal_strlit("I16");
    reveal_strlit("U16");
    reveal_strlit("F16");
    reveal_strlit("BF16");
    reveal_strlit("I32");
    reveal_strlit("U32");
    reveal_strlit("F32");
    reveal_strlit("F64");
    reveal_strlit("I64");
    reveal_strlit("U64");
    let names = seq!["BOOL"@, "U8"@, "I8"@, "I16"@, "U16"@, "F16"@, "BF16"@, "I32"@, "U32"@, "F32"@, "F64"@, "I64"@, "U64"@];
    assert forall|i: int, j: int| 0 <= i < j < 13 implies names[i] != names[j] by {
        if names[i].len() == names[j].len() {
            assert(names[i][0] != names[j][0] || names[i][1] != names[j][1] || names[i][2] != names[j][2]);
        }
    }
}

/// Maps a safetensors dtype name to the frontend dtype: the float, int and bool dtypes that
/// checkpoints ship; `None` for the MX (F4/F6), FP8 and complex formats.
pub fn map_dtype(name: &str) -> (r: Option<DType>)
    ensures
        r == dtype_of_name(name@),
{
    proof {
        reveal_strlit("BOOL");
        reveal_strlit("U8");
        reveal_strlit("I8");
        reveal_strlit("I16");
        reveal_strlit("U16");
        reveal_strlit("F16");
        reveal_strlit("BF16");
        reveal_strlit("I32");
        reveal_strlit("U32");
        reveal_strlit("F32");
        reveal_strlit("F64");
        reveal_strlit("I64");
        reveal_strlit("U64");
    }
    if str_eq(name, "BOOL") {
        Some(DType::BOOL)
    } else if str_eq(name, "U8") {
        Some(DType::U8)
    } else if str_eq(name, "I8") {
        Some(DType::I8)
    } else if str_eq(name, "I16") {
        Some(DType::I16)
    } else if str_eq(name, "U16") {
        Some(DType::U16)
    } else if str_eq(name, "F16") {
        Some(DType::F16)
    } else if str_eq(name, "BF16") {
        Some(DType::BF16)
    } else if str_eq(name, "I32") {
        Some(DType::I32)
    } else if str_eq(name, "U32") {
        Some(DType::U32)
    } else if str_eq(name, "F32") {
        Some(DType::F32)
    } else if str_eq(name, "F64") {
        Some(DType::F64)
    } else if str_eq(name, "I64") {
        Some(DType::I64)
    } else if str_eq(name, "U64") {
        Some(DType::U64)
    } else {
        None
    }
}

/// A tensor read from a safetensors file, at its native dtype.
#[derive(Clone, Debug, PartialEq, Eq)]
pub struct StTensor {
    pub name: String,
    pub dtype: DType,
    pub shape: Vec<usize>,
    pub data: Vec<u8>,
}

/// Why a safetensors file could not be read.
#[derive(Debug)]
pub enum StError {
    /// The `safetensors` crate refused the file.
    Format(::safetensors::SafeTensorError),
    /// The header holds a number (outside any string) so large that the end of the tensor data
    /// it could declare, plus the header, would not fit the machine's integer width.
    NumberTooLarge,
    /// Tensor `name` has a dtype the frontend does not have.
    UnsupportedDtype { name: String },
}

/// Whether every tensor of `m` has a dtype the frontend has.
pub open spec fn all_supported(m: Map<Seq<char>, StRawView>) -> bool {
    forall|k: Seq<char>| #[trigger] m.contains_key(k) ==> dtype_of_name(m[k].dtype) is Some
}

/// `v` holds each tensor of `m` exactly once, in some order, at its frontend dtype.
pub open spec fn loads_exactly(m: Map<Seq<char>, StRawView>, v: Seq<StTensor>) -> bool {
    &&& forall|i: int| #![trigger v[i]] 0 <= i < v.len() ==> m.contains_key(v[i].name@)
        && dtype_of_name(m[v[i].name@].dtype) == Some(v[i].dtype)
        && m[v[i].name@].shape == v[i].shape@ && m[v[i].name@].data == v[i].data@
    &&& forall|i: int, j: int| 0 <= i < j < v.len() ==> v[i].name@ != v[j].name@
    &&& forall|k: Seq<char>| #[trigger] m.contains_key(k) ==> exists|i: int| 0 <= i < v.len() && v[i].name@ == k
}

/// Reads every tensor of a safetensors file's bytes at its native dtype. Refuses a header whose
/// numbers do not fit; otherwise succeeds exactly when the `safetensors` crate accepts the file
/// and every tensor's dtype is one the frontend has, and else names a tensor whose dtype it lacks.
pub fn load_safetensors(bytes: &[u8]) -> (r: Result<Vec<StTensor>, StError>)
    ensures
        !header_numbers_fit(bytes@) ==> r matches Err(StError::NumberTooLarge),
        header_numbers_fit(bytes@) ==> match st_contents(bytes@) {
            None => r matches Err(StError::Format(_)),
            Some(m) => {
                &&& r is Ok <==> all_supported(m)
                &&& (r matches Ok(v) ==> loads_exactly(m, v@))
                &&& (r matches Err(StError::UnsupportedDtype { name }) ==> m.contains_key(name@) && dtype_of_name(m[name@].dtype) is None)
                &&& !(r matches Err(StError::Format(_)))
            },
        },
        header_numbers_fit(bytes@) ==> !(r matches Err(StError::NumberTooLarge)),
{
    if !numbers_fit(bytes) {
        return Err(StError::NumberTooLarge);
    }
    let raws = match st_tensors(bytes) {
        Ok(v) => v,
        Err(e) => return Err(StError::Format(e)),
    };
    let ghost m = st_contents(bytes@)->0;
    let mut out: Vec<StTensor> = Vec::new();
    let mut i: usize = 0;
    while i < raws.len()
        invariant
            header_numbers_fit(bytes@),
            st_contents(bytes@) == Some(m),
            lists_exactly(m, raws@),
            i <= raws@.len(),
            out@.len() == i,
            forall|k: int| #![trigger out@[k]] 0 <= k < i ==> out@[k].name@ == raws@[k].name@
                && dtype_of_name(raws@[k].dtype@) == Some(out@[k].dtype)
                && out@[k].shape@ == raws@[k].shape@ && out@[k].data@ == raws@[k].data@,
        decreases raws@.len() - i,
    {
        let raw = &raws[i];
        assert(m.contains_key(raw.name@) && m[raw.name@] == raw_view(*raw));
        let dtype = match map_dtype(raw.dtype.as_str()) {
            Some(d) => d,
            None => {
                assert(!all_supported(m));
                return Err(StError::UnsupportedDtype { name: raw.name.clone() });
            },
        };
        out.push(StTensor {
            name: raw.name.clone(),
            dtype,
            shape: vstd::slice::slice_to_vec(raw.shape.as_slice()),
            data: vstd::slice::slice_to_vec(raw.data.as_slice()),
        });
        i = i + 1;
    }
    proof {
        assert forall|k: Seq<char>| #[trigger] m.contains_key(k) implies dtype_of_name(m[k].dtype) is Some by {
            let j = choose|j: int| 0 <= j < raws@.len() && raws@[j].name@ == k;
            assert(out@[j].name@ == raws@[j].name@);
            assert(m[raws@[j].name@] == raw_view(raws@[j]));
        }
        assert forall|k: Seq<char>| #[trigger] m.contains_key(k) implies exists|j: int| 0 <= j < out@.len() && out@[j].name@ == k by {
            let j = choose|j: int| 0 <= j < raws@.len() && raws@[j].name@ == k;
            assert(out@[j].name@ == raws@[j].name@);
        }
        assert forall|a: int, b: int| 0 <= a < b < out@.len() implies out@[a].name@ != out@[b].name@ by {
            assert(out@[a].name@ == raws@[a].name@);
            assert(out@[b].name@ == raws@[b].name@);
        }
        assert forall|j: int| #![trigger out@[j]] 0 <= j < out@.len() implies m.contains_key(out@[j].name@)
            && dtype_of_name(m[out@[j].name@].dtype) == Some(out@[j].dtype)
            && m[out@[j].name@].shape == out@[j].shape@ && m[out@[j].name@].data == out@[j].data@ by {
            assert(m[raws@[j].name@] == raw_view(raws@[j]));
        }
    }
    Ok(out)
}

/// Why a safetensors file could not be applied to a model.
#[derive(Debug)]
pub enum StApplyError {
    /// The file could not be read.
    Load(StError),
    /// Its tensors could not be bound to the model's slots.
    Bind(BindError),
}

pub open spec fn st_shapes(v: Seq<StTensor>) -> Seq<Seq<usize>> {
    v.map_values(|t: StTensor| t.shape@)
}

/// `names` are what `name_map` gives for the names of `ts`, one for one.
pub open spec fn st_mapped_names<F: Fn(&str) -> String>(name_map: F, ts: Seq<StTensor>, names: Seq<String>) -> bool {
    &&& names.len() == ts.len()
    &&& forall|i: int| 0 <= i < names.len() ==> #[trigger] maps_to(name_map, ts[i].name@, names[i])
}

/// Warm-starts a model from a safetensors file: reads its tensors, maps each tensor's name
/// through `name_map` to a model slot name, and binds every slot to the tensor of its name and
/// shape (strict: a missing slot tensor, a shape mismatch, or a tensor that maps to no slot all
/// err). Returns the tensors, their mapped names, and the index of the tensor each slot takes.
pub fn apply_safetensors<F: Fn(&str) -> String>(slots: &[ModelSlot], bytes: &[u8], name_map: F) -> (r: Result<(Vec<StTensor>, Vec<String>, Vec<usize>), StApplyError>)
    requires
        forall|s: &str| name_map.requires((s,)),
    ensures
        !header_numbers_fit(bytes@) ==> r matches Err(StApplyError::Load(StError::NumberTooLarge)),
        header_numbers_fit(bytes@) ==> !(r matches Err(StApplyError::Load(StError::NumberTooLarge))),
        header_numbers_fit(bytes@) ==> match st_contents(bytes@) {
            None => r matches Err(StApplyError::Load(StError::Format(_))),
            Some(m) => {
                &&& (!all_supported(m) ==> r matches Err(StApplyError::Load(StError::UnsupportedDtype { .. })))
                &&& (r matches Err(StApplyError::Load(StError::UnsupportedDtype { name })) ==> m.contains_key(name@) && dtype_of_name(m[name@].dtype) is None)
                &&& (r matches Ok((t, names, picks)) ==> all_supported(m) && loads_exactly(m, t@) && st_mapped_names(name_map, t@, names@)
                    && bind_spec(names_view(names@), st_shapes(t@), slots_view(slots@)) == Ok::<Seq<usize>, BindError>(picks@))
                &&& (r matches Err(StApplyError::Bind(e)) ==> all_supported(m) && exists|t: Seq<StTensor>, nm: Seq<String>| loads_exactly(m, t)
                    && st_mapped_names(name_map, t, nm) && #[trigger] bind_spec(names_view(nm), st_shapes(t), slots_view(slots@)) == Err::<Seq<usize>, BindError>(e))
                &&& !(r matches Err(StApplyError::Load(StError::Format(_))))
            },
        },
{
    let tensors = match load_safetensors(bytes) {
        Ok(t) => t,
        Err(e) => return Err(StApplyError::Load(e)),
    };
    let mut names: Vec<String> = Vec::new();
    let mut shapes: Vec<Vec<usize>> = Vec::new();
    let mut i: usize = 0;
    while i < tensors.len()
        invariant
            forall|s: &str| name_map.requires((s,)),
            i <= tensors@.len(),
            names@.len() == i,
            forall|k: int| 0 <= k < i ==> #[trigger] maps_to(name_map, tensors@[k].name@, names@[k]),
            shapes_view(shapes@) == st_shapes(tensors@).take(i as int),
        decreases tensors@.len() - i,
    {
        let t = &tensors[i];
        let x = t.name.as_str();
        let nm = name_map(x);
        let ghost old_names = names@;
        names.push(nm);
        proof {
            assert(call_ensures(name_map, (x,), nm));
            assert forall|k: int| 0 <= k < i + 1 implies #[trigger] maps_to(name_map, tensors@[k].name@, names@[k]) by {
                if k < i {
                    assert(names@[k] == old_names[k]);
                } else {
                    assert(names@[k] == nm);
                }
            }
        }
        let ghost prev = shapes_view(shapes@);
        shapes.push(vstd::slice::slice_to_vec(t.shape.as_slice()));
        assert(shapes_view(shapes@) =~= prev.push(tensors@[i as int].shape@));
        assert(st_shapes(tensors@).take(i as int + 1) =~= st_shapes(tensors@).take(i as int).push(tensors@[i as int].shape@));
        i = i + 1;
    }
    assert(st_shapes(tensors@).take(tensors@.len() as int) =~= st_shapes(tensors@));
    match bind_slots(names.as_slice(), shapes.as_slice(), slots) {
        Ok(picks) => Ok((tensors, names, picks)),
        Err(e) => {
            assert(st_mapped_names(name_map, tensors@, names@));
            Err(StApplyError::Bind(e))
        },
    }
}

} // verus!
