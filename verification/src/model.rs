//! The model <-> tensor-row bridge: a model's named parameters, buffers and byte buffers
//! become tensor-table rows (`model_entries`), and rows load back into the model's slots by
//! kind and name (`apply_to_model`). The byte format of the rows lives in `container`.
use crate::container::{dec_container, enc_container, entries_view, law_container_round_trip, normalized, writable, ContainerError, DescriptorView, Entry, EntryView, DT_F32, DT_U8, K_BUFFER, K_OPTIM, K_PARAM, K_QBUFFER};
use crate::wire::{shape_eq, str_eq};
use vstd::bytes::*;
use vstd::prelude::*;
use vstd::slice::slice_to_vec;

verus! {

/// What a model slot holds.
#[derive(Clone, Copy, Debug, PartialEq, Eq, Structural)]
pub enum SlotKind {
    /// A learnable f32 weight.
    Param,
    /// Non-learnable f32 state.
    Buffer,
    /// Non-learnable raw-byte state (a packed quantized weight).
    ByteBuffer,
}

/// One named tensor slot of a live model, in the model's own order (parameters, then buffers,
/// then byte buffers).
#[derive(Clone, Debug, PartialEq, Eq)]
pub struct ModelSlot {
    pub name: String,
    pub kind: SlotKind,
    pub shape: Vec<usize>,
}

pub struct SlotView {
    pub name: Seq<char>,
    pub kind: SlotKind,
    pub shape: Seq<usize>,
}

impl View for ModelSlot {
    type V = SlotView;

    open spec fn view(&self) -> SlotView {
        SlotView { name: self.name@, kind: self.kind, shape: self.shape@ }
    }
}

pub open spec fn slots_view(v: Seq<ModelSlot>) -> Seq<SlotView> {
    v.map_values(|s: ModelSlot| s@)
}

pub open spec fn datas_view(v: Seq<Vec<u8>>) -> Seq<Seq<u8>> {
    v.map_values(|d: Vec<u8>| d@)
}

/// Why rows could not be loaded into a model.
#[derive(Clone, Copy, Debug, PartialEq, Eq, Structural)]
pub enum ModelError {
    /// Slot `slot` has no unused row of its kind and name.
    Missing { slot: usize },
    /// Slot `slot` found row `row`, whose shape differs from the slot's.
    ShapeMismatch { slot: usize, row: usize },
    /// Slot `slot` found row `row`, whose dtype tag is not the one its kind stores.
    DtypeMismatch { slot: usize, row: usize },
    /// Row `row` is not optimizer state and no slot took it.
    Unmatched { row: usize },
}

/// The row kind tag a slot kind is stored under.
pub open spec fn kind_tag(k: SlotKind) -> u8 {
    match k {
        SlotKind::Param => K_PARAM,
        SlotKind::Buffer => K_BUFFER,
        SlotKind::ByteBuffer => K_QBUFFER,
    }
}

/// The payload dtype tag a slot kind is stored with.
pub open spec fn dtype_tag(k: SlotKind) -> u8 {
    match k {
        SlotKind::ByteBuffer => DT_U8,
        _ => DT_F32,
    }
}

/// The rows a model with these slots and payloads is saved as, one per slot, in slot order.
pub open spec fn model_rows(slots: Seq<SlotView>, data: Seq<Seq<u8>>) -> Seq<EntryView> {
    Seq::new(
        slots.len(),
        |i: int|
            EntryView {
                name: slots[i].name,
                kind: kind_tag(slots[i].kind),
                dtype: dtype_tag(slots[i].kind),
                shape: slots[i].shape,
                data: data[i],
            },
    )
}

/// The first row at index `i` or later that is unused and holds kind `kind` under `name`.
pub open spec fn first_free_row(rows: Seq<EntryView>, used: Seq<bool>, kind: u8, name: Seq<char>, i: int) -> Option<int>
    decreases rows.len() - i,
{
    if 0 <= i < rows.len() {
        if !used[i] && rows[i].kind == kind && rows[i].name == name {
            Some(i)
        } else {
            first_free_row(rows, used, kind, name, i + 1)
        }
    } else {
        None
    }
}

proof fn lemma_first_free_row(rows: Seq<EntryView>, used: Seq<bool>, kind: u8, name: Seq<char>, i: int)
    ensures
        first_free_row(rows, used, kind, name, i) matches Some(j) ==> 0 <= i <= j < rows.len() && !used[j]
            && rows[j].kind == kind && rows[j].name == name,
    decreases rows.len() - i,
{
    if 0 <= i < rows.len() {
        lemma_first_free_row(rows, used, kind, name, i + 1);
    }
}

/// The first row at index `i` or later that is unused and is not optimizer state.
pub open spec fn first_extra_row(rows: Seq<EntryView>, used: Seq<bool>, i: int) -> Option<int>
    decreases rows.len() - i,
{
    if 0 <= i < rows.len() {
        if !used[i] && rows[i].kind != K_OPTIM {
            Some(i)
        } else {
            first_extra_row(rows, used, i + 1)
        }
    } else {
        None
    }
}

/// Loading slots `k..` once the rows marked in `used` are taken: each slot takes the first
/// free row of its kind and name, whose shape and dtype must be the slot's; once every slot
/// is served, a row left over that is not optimizer state is an error.
pub open spec fn apply_from(rows: Seq<EntryView>, slots: Seq<SlotView>, used: Seq<bool>, k: int) -> Result<Seq<Seq<u8>>, ModelError>
    decreases slots.len() - k,
{
    if 0 <= k < slots.len() {
        let s = slots[k];
        match first_free_row(rows, used, kind_tag(s.kind), s.name, 0) {
            None => Err(ModelError::Missing { slot: k as usize }),
            Some(j) => if rows[j].shape != s.shape {
                Err(ModelError::ShapeMismatch { slot: k as usize, row: j as usize })
            } else if rows[j].dtype != dtype_tag(s.kind) {
                Err(ModelError::DtypeMismatch { slot: k as usize, row: j as usize })
            } else {
                match apply_from(rows, slots, used.update(j, true), k + 1) {
                    Ok(rest) => Ok(seq![rows[j].data] + rest),
                    Err(e) => Err(e),
                }
            },
        }
    } else {
        match first_extra_row(rows, used, 0) {
            Some(j) => Err(ModelError::Unmatched { row: j as usize }),
            None => Ok(seq![]),
        }
    }
}

pub open spec fn no_rows_used(n: nat) -> Seq<bool> {
    Seq::new(n, |i: int| false)
}

/// Loading `rows` into `slots`: the payload each slot receives, in slot order.
pub open spec fn apply_spec(rows: Seq<EntryView>, slots: Seq<SlotView>) -> Result<Seq<Seq<u8>>, ModelError> {
    apply_from(rows, slots, no_rows_used(rows.len()), 0)
}

pub open spec fn prepend(p: Seq<Seq<u8>>, r: Result<Seq<Seq<u8>>, ModelError>) -> Result<Seq<Seq<u8>>, ModelError> {
    match r {
        Ok(x) => Ok(p + x),
        Err(e) => Err(e),
    }
}

/// The name a row kind tag is reported under.
pub open spec fn kind_label(k: u8) -> Seq<char> {
    if k == K_PARAM {
        "param"@
    } else if k == K_BUFFER {
        "buffer"@
    } else if k == K_OPTIM {
        "optim"@
    } else if k == K_QBUFFER {
        "byte-buffer"@
    } else {
        "unknown"@
    }
}

/// The name a row kind tag is reported under.
pub fn kind_name(k: u8) -> (r: &'static str)
    ensures
        r@ == kind_label(k),
{
    if k == K_PARAM {
        "param"
    } else if k == K_BUFFER {
        "buffer"
    } else if k == K_OPTIM {
        "optim"
    } else if k == K_QBUFFER {
        "byte-buffer"
    } else {
        "unknown"
    }
}

/// The little-endian bytes of a run of 32-bit words (the f32 payload codec, on bit patterns).
pub open spec fn words_bytes(v: Seq<u32>) -> Seq<u8>
    decreases v.len(),
{
    if v.len() == 0 {
        seq![]
    } else {
        words_bytes(v.drop_last()) + spec_u32_to_le_bytes(v.last())
    }
}

/// The 32-bit words of a little-endian payload, four bytes each; a trailing partial word is
/// dropped.
pub open spec fn bytes_words(b: Seq<u8>) -> Seq<u32> {
    Seq::new(b.len() / 4, |i: int| spec_u32_from_le_bytes(b.subrange(4 * i, 4 * i + 4)))
}

/// Encodes 32-bit words (f32 bit patterns) as little-endian bytes.
pub fn words_to_bytes(v: &[u32]) -> (r: Vec<u8>)
    ensures
        r@ == words_bytes(v@),
{
    let mut out: Vec<u8> = Vec::new();
    let mut i: usize = 0;
    while i < v.len()
        invariant
            i <= v@.len(),
            out@ == words_bytes(v@.take(i as int)),
        decreases v@.len() - i,
    {
        let w = u32_to_le_bytes(v[i]);
        out.extend_from_slice(w.as_slice());
        proof {
            assert(v@.take(i as int + 1).drop_last() =~= v@.take(i as int));
        }
        i = i + 1;
    }
    assert(v@.take(v@.len() as int) =~= v@);
    out
}

/// Decodes a little-endian payload into 32-bit words (f32 bit patterns), four bytes each.
pub fn bytes_to_words(b: &[u8]) -> (r: Vec<u32>)
    ensures
        r@ == bytes_words(b@),
{
    let blen = b.len();
    let n = blen / 4;
    let mut out: Vec<u32> = Vec::new();
    let mut i: usize = 0;
    while i < n
        invariant
            blen as int == b@.len(),
            n == b@.len() / 4,
            i <= n,
            out@.len() == i,
            forall|k: int| 0 <= k < i ==> out@[k] == spec_u32_from_le_bytes(#[trigger] b@.subrange(4 * k, 4 * k + 4)),
        decreases n - i,
    {
        assert(4 * i + 4 <= b@.len()) by (nonlinear_arith)
            requires
                i < n,
                n == b@.len() / 4,
        ;
        let s = vstd::slice::slice_subrange(b, 4 * i, 4 * i + 4);
        out.push(u32_from_le_bytes(s));
        i = i + 1;
    }
    assert(out@ =~= bytes_words(b@));
    out
}

/// The model's slots with their current payloads as tensor rows, one per slot in slot order:
/// parameters and buffers are stored as f32 rows, byte buffers as raw-byte rows.
pub fn model_entries(slots: &[ModelSlot], data: &[Vec<u8>]) -> (r: Vec<Entry>)
    requires
        slots@.len() == data@.len(),
    ensures
        entries_view(r@) == model_rows(slots_view(slots@), datas_view(data@)),
{
    let mut out: Vec<Entry> = Vec::new();
    let mut i: usize = 0;
    while i < slots.len()
        invariant
            slots@.len() == data@.len(),
            i <= slots@.len(),
            out@.len() == i,
            forall|k: int| 0 <= k < i ==> #[trigger] out@[k]@ == model_rows(slots_view(slots@), datas_view(data@))[k],
        decreases slots@.len() - i,
    {
        let s = &slots[i];
        let (kind, dtype) = match s.kind {
            SlotKind::Param => (K_PARAM, DT_F32),
            SlotKind::Buffer => (K_BUFFER, DT_F32),
            SlotKind::ByteBuffer => (K_QBUFFER, DT_U8),
        };
        out.push(Entry {
            name: s.name.clone(),
            kind,
            dtype,
            shape: slice_to_vec(s.shape.as_slice()),
            data: slice_to_vec(data[i].as_slice()),
        });
        i = i + 1;
    }
    assert(entries_view(out@) =~= model_rows(slots_view(slots@), datas_view(data@)));
    out
}

/// Finds the first unused row of kind `kind` named `name` for slot `slot`, checks its shape
/// and dtype against the slot's, and marks it used.
fn take(entries: &[Entry], used: &mut Vec<bool>, slot: usize, kind: u8, name: &str, want: &[usize], want_dtype: u8) -> (r: Result<usize, ModelError>)
    requires
        old(used)@.len() == entries@.len(),
    ensures
        final(used)@.len() == entries@.len(),
        match first_free_row(entries_view(entries@), old(used)@, kind, name@, 0) {
            None => r == Err::<usize, ModelError>(ModelError::Missing { slot }),
            Some(j) => if entries_view(entries@)[j].shape != want@ {
                r == Err::<usize, ModelError>(ModelError::ShapeMismatch { slot, row: j as usize })
            } else if entries_view(entries@)[j].dtype != want_dtype {
                r == Err::<usize, ModelError>(ModelError::DtypeMismatch { slot, row: j as usize })
            } else {
                r == Ok::<usize, ModelError>(j as usize) && final(used)@ == old(used)@.update(j, true)
            },
        },
        r matches Ok(j) ==> j < entries@.len() && first_free_row(entries_view(entries@), old(used)@, kind, name@, 0) == Some(j as int),
        r is Err ==> final(used)@ == old(used)@,
{
    let ghost rows = entries_view(entries@);
    let mut i: usize = 0;
    while i < entries.len()
        invariant
            rows == entries_view(entries@),
            used@ == old(used)@,
            used@.len() == entries@.len(),
            i <= entries@.len(),
            first_free_row(rows, used@, kind, name@, 0) == first_free_row(rows, used@, kind, name@, i as int),
        decreases entries@.len() - i,
    {
        let e = &entries[i];
        assert(rows[i as int] == e@);
        if !used[i] && e.kind == kind && str_eq(e.name.as_str(), name) {
            if !shape_eq(e.shape.as_slice(), want) {
                return Err(ModelError::ShapeMismatch { slot, row: i });
            }
            if e.dtype != want_dtype {
                return Err(ModelError::DtypeMismatch { slot, row: i });
            }
            used.set(i, true);
            return Ok(i);
        }
        i = i + 1;
    }
    Err(ModelError::Missing { slot })
}

/// Finds the first unused row that is not optimizer state.
fn first_extra(entries: &[Entry], used: &Vec<bool>) -> (r: Option<usize>)
    requires
        used@.len() == entries@.len(),
    ensures
        match first_extra_row(entries_view(entries@), used@, 0) {
            Some(j) => r == Some(j as usize),
            None => r is None,
        },
{
    let ghost rows = entries_view(entries@);
    let mut i: usize = 0;
    while i < entries.len()
        invariant
            rows == entries_view(entries@),
            used@.len() == entries@.len(),
            i <= entries@.len(),
            first_extra_row(rows, used@, 0) == first_extra_row(rows, used@, i as int),
        decreases entries@.len() - i,
    {
        assert(rows[i as int] == entries@[i as int]@);
        if !used[i] && entries[i].kind != K_OPTIM {
            return Some(i);
        }
        i = i + 1;
    }
    None
}

/// Loads rows into the model's slots by kind and name: every slot takes the first unused row
/// of its kind and name, which must have the slot's shape and dtype, and afterwards every row
/// that is not optimizer state must have been taken. Returns each slot's payload, in slot
/// order; optimizer rows are left to the caller.
pub fn apply_to_model(entries: &[Entry], slots: &[ModelSlot]) -> (r: Result<Vec<Vec<u8>>, ModelError>)
    ensures
        match r {
            Ok(v) => apply_spec(entries_view(entries@), slots_view(slots@)) == Ok::<Seq<Seq<u8>>, ModelError>(datas_view(v@)),
            Err(e) => apply_spec(entries_view(entries@), slots_view(slots@)) == Err::<Seq<Seq<u8>>, ModelError>(e),
        },
{
    let ghost rows = entries_view(entries@);
    let ghost sv = slots_view(slots@);
    let mut used: Vec<bool> = Vec::new();
    let mut z: usize = 0;
    while z < entries.len()
        invariant
            z <= entries@.len(),
            used@ == no_rows_used(z as nat),
        decreases entries@.len() - z,
    {
        used.push(false);
        z = z + 1;
        assert(used@ =~= no_rows_used(z as nat));
    }
    let mut out: Vec<Vec<u8>> = Vec::new();
    let mut k: usize = 0;
    assert(datas_view(out@) + seq![] =~= datas_view(out@));
    while k < slots.len()
        invariant
            rows == entries_view(entries@),
            sv == slots_view(slots@),
            rows.len() == entries@.len(),
            used@.len() == entries@.len(),
            k <= slots@.len(),
            apply_spec(rows, sv) == prepend(datas_view(out@), apply_from(rows, sv, used@, k as int)),
        decreases slots@.len() - k,
    {
        let s = &slots[k];
        assert(sv[k as int] == s@);
        let (kind, dtype) = match s.kind {
            SlotKind::Param => (K_PARAM, DT_F32),
            SlotKind::Buffer => (K_BUFFER, DT_F32),
            SlotKind::ByteBuffer => (K_QBUFFER, DT_U8),
        };
        let ghost before = used@;
        let j = match take(entries, &mut used, k, kind, s.name.as_str(), s.shape.as_slice(), dtype) {
            Ok(j) => j,
            Err(e) => return Err(e),
        };
        proof {
            lemma_first_free_row(rows, before, kind, s.name@, 0);
            assert(kind == kind_tag(sv[k as int].kind));
            assert(dtype == dtype_tag(sv[k as int].kind));
        }
        let d = slice_to_vec(entries[j].data.as_slice());
        let ghost prev = datas_view(out@);
        out.push(d);
        proof {
            assert(rows[j as int] == entries@[j as int]@);
            assert(datas_view(out@) =~= prev.push(rows[j as int].data));
            match apply_from(rows, sv, used@, k + 1) {
                Ok(rest) => {
                    assert(prev + (seq![rows[j as int].data] + rest) =~= datas_view(out@) + rest);
                },
                Err(e) => {},
            }
        }
        k = k + 1;
    }
    match first_extra(entries, &used) {
        Some(j) => Err(ModelError::Unmatched { row: j }),
        None => {
            assert(datas_view(out@) + seq![] =~= datas_view(out@));
            Ok(out)
        },
    }
}

pub open spec fn rows_before(n: nat, k: int) -> Seq<bool> {
    Seq::new(n, |i: int| i < k)
}

proof fn lemma_saved_row_found(slots: Seq<SlotView>, data: Seq<Seq<u8>>, k: int, i: int)
    requires
        slots.len() == data.len(),
        0 <= i <= k < slots.len(),
    ensures
        first_free_row(model_rows(slots, data), rows_before(slots.len(), k), kind_tag(slots[k].kind), slots[k].name, i) == Some(k),
    decreases k - i,
{
    if i < k {
        lemma_saved_row_found(slots, data, k, i + 1);
    }
}

proof fn lemma_no_extra_row(rows: Seq<EntryView>, k: int, i: int)
    requires
        k >= rows.len(),
        0 <= i,
    ensures
        first_extra_row(rows, rows_before(rows.len(), k), i) is None,
    decreases rows.len() - i,
{
    if i < rows.len() {
        lemma_no_extra_row(rows, k, i + 1);
    }
}

proof fn lemma_saved_rows_load(slots: Seq<SlotView>, data: Seq<Seq<u8>>, k: int)
    requires
        slots.len() == data.len(),
        0 <= k <= slots.len(),
    ensures
        apply_from(model_rows(slots, data), slots, rows_before(slots.len(), k), k) == Ok::<Seq<Seq<u8>>, ModelError>(data.subrange(k, data.len() as int)),
    decreases slots.len() - k,
{
    let rows = model_rows(slots, data);
    if k < slots.len() {
        lemma_saved_row_found(slots, data, k, 0);
        lemma_saved_rows_load(slots, data, k + 1);
        assert(rows_before(slots.len(), k).update(k, true) =~= rows_before(slots.len(), k + 1));
        assert(seq![data[k]] + data.subrange(k + 1, data.len() as int) =~= data.subrange(k, data.len() as int));
    } else {
        lemma_no_extra_row(rows, k, 0);
        assert(data.subrange(k, data.len() as int) =~= seq![]);
    }
}

/// Saving a model's slots as rows and loading those rows back into the same slots gives every
/// slot its own payload back, for any slots (names may repeat) and payloads.
pub proof fn law_model_round_trip(slots: Seq<SlotView>, data: Seq<Seq<u8>>)
    requires
        slots.len() == data.len(),
    ensures
        apply_spec(model_rows(slots, data), slots) == Ok::<Seq<Seq<u8>>, ModelError>(data),
{
    lemma_saved_rows_load(slots, data, 0);
    assert(no_rows_used(slots.len()) =~= rows_before(slots.len(), 0));
    assert(data.subrange(0, data.len() as int) =~= data);
}

proof fn lemma_words_bytes_len(v: Seq<u32>)
    ensures
        words_bytes(v).len() == 4 * v.len(),
    decreases v.len(),
{
    lemma_auto_spec_u32_to_from_le_bytes();
    if v.len() > 0 {
        lemma_words_bytes_len(v.drop_last());
    }
}

proof fn lemma_words_bytes_at(v: Seq<u32>, i: int)
    requires
        0 <= i < v.len(),
    ensures
        words_bytes(v).subrange(4 * i, 4 * i + 4) == spec_u32_to_le_bytes(v[i]),
    decreases v.len(),
{
    lemma_auto_spec_u32_to_from_le_bytes();
    lemma_words_bytes_len(v.drop_last());
    if i < v.len() - 1 {
        lemma_words_bytes_at(v.drop_last(), i);
        assert(words_bytes(v).subrange(4 * i, 4 * i + 4) =~= words_bytes(v.drop_last()).subrange(4 * i, 4 * i + 4));
    } else {
        assert(words_bytes(v).subrange(4 * i, 4 * i + 4) =~= spec_u32_to_le_bytes(v.last()));
    }
}

/// Encoding 32-bit words (f32 bit patterns) as little-endian bytes and decoding them gives
/// the same words back.
pub proof fn law_words_round_trip(v: Seq<u32>)
    ensures
        bytes_words(words_bytes(v)) == v,
{
    lemma_auto_spec_u32_to_from_le_bytes();
    lemma_words_bytes_len(v);
    let b = words_bytes(v);
    assert(b.len() / 4 == v.len()) by (nonlinear_arith)
        requires
            b.len() == 4 * v.len(),
    ;
    assert forall|i: int| 0 <= i < v.len() implies #[trigger] bytes_words(b)[i] == v[i] by {
        lemma_words_bytes_at(v, i);
        assert(spec_u32_to_le_bytes(v[i]).len() == 4);
        assert(bytes_words(b)[i] == spec_u32_from_le_bytes(b.subrange(4 * i, 4 * i + 4)));
    }
    assert(bytes_words(words_bytes(v)) =~= v);
}

/// Saving a model to a `.hodu` container and loading the container back into the same slots
/// gives every slot its own payload back (and the graph blob and the descriptors back, each
/// empty-but-present `mins` read as no `mins`), for every model the format can hold.
pub proof fn law_save_load_round_trip(
    kvs: Seq<(Seq<char>, Seq<char>)>,
    slots: Seq<SlotView>,
    data: Seq<Seq<u8>>,
    ds: Seq<DescriptorView>,
    g: Seq<u8>,
)
    requires
        slots.len() == data.len(),
        writable(kvs, model_rows(slots, data), ds, g),
        g.len() <= usize::MAX,
    ensures
        dec_container(enc_container(kvs, model_rows(slots, data), ds, g)) matches Ok((es, ds2, g2))
            && ds2 == normalized(ds) && g2 == g && apply_spec(es, slots) == Ok::<Seq<Seq<u8>>, ModelError>(data),
{
    let es = model_rows(slots, data);
    assert forall|k: int| 0 <= k < es.len() implies (#[trigger] es[k]).dtype == DT_F32 || es[k].dtype == DT_U8 by {}
    law_container_round_trip(kvs, es, ds, g);
    law_model_round_trip(slots, data);
}

proof fn lemma_no_extra_left(rows: Seq<EntryView>, used: Seq<bool>, i: int)
    requires
        0 <= i,
        first_extra_row(rows, used, i) is None,
    ensures
        forall|j: int| i <= j < rows.len() && !used[j] ==> rows[j].kind == K_OPTIM,
    decreases rows.len() - i,
{
    if i < rows.len() {
        lemma_no_extra_left(rows, used, i + 1);
    }
}

/// Row `j` is taken by some slot in `m`.
pub open spec fn row_taken(m: Seq<int>, j: int) -> bool {
    exists|k: int| 0 <= k < m.len() && m[k] == j
}

/// What a successful load promises from `used` on: slot `k + i` took row `m[i]`, an unused row
/// of its kind, name, shape and dtype, and received that row's payload `v[i]`; no row was taken
/// twice; and every unused row that is not optimizer state was taken.
pub open spec fn loads_rows(rows: Seq<EntryView>, slots: Seq<SlotView>, used: Seq<bool>, k: int, m: Seq<int>, v: Seq<Seq<u8>>) -> bool {
    &&& m.len() == slots.len() - k
    &&& v.len() == m.len()
    &&& forall|i: int| #![trigger m[i]] 0 <= i < m.len() ==> {
        &&& 0 <= m[i] < rows.len()
        &&& !used[m[i]]
        &&& rows[m[i]].kind == kind_tag(slots[k + i].kind)
        &&& rows[m[i]].name == slots[k + i].name
        &&& rows[m[i]].shape == slots[k + i].shape
        &&& rows[m[i]].dtype == dtype_tag(slots[k + i].kind)
        &&& v[i] == rows[m[i]].data
    }
    &&& forall|i1: int, i2: int| 0 <= i1 < i2 < m.len() ==> m[i1] != m[i2]
    &&& forall|j: int| 0 <= j < rows.len() && !used[j] && rows[j].kind != K_OPTIM ==> #[trigger] row_taken(m, j)
}

proof fn lemma_apply_from_loads(rows: Seq<EntryView>, slots: Seq<SlotView>, used: Seq<bool>, k: int)
    requires
        used.len() == rows.len(),
        0 <= k <= slots.len(),
    ensures
        apply_from(rows, slots, used, k) is Ok ==> exists|m: Seq<int>| #[trigger] loads_rows(rows, slots, used, k, m, apply_from(rows, slots, used, k)->Ok_0),
    decreases slots.len() - k,
{
    if k < slots.len() {
        let s = slots[k];
        lemma_first_free_row(rows, used, kind_tag(s.kind), s.name, 0);
        if let Some(j) = first_free_row(rows, used, kind_tag(s.kind), s.name, 0) {
            let u2 = used.update(j, true);
            lemma_apply_from_loads(rows, slots, u2, k + 1);
            if rows[j].shape == s.shape && rows[j].dtype == dtype_tag(s.kind) {
                if let Ok(rest) = apply_from(rows, slots, u2, k + 1) {
                    let mr = choose|mr: Seq<int>| #[trigger] loads_rows(rows, slots, u2, k + 1, mr, rest);
                    let m = seq![j] + mr;
                    let v = seq![rows[j].data] + rest;
                    assert forall|i: int| #![trigger m[i]] 0 <= i < m.len() implies {
                        &&& 0 <= m[i] < rows.len()
                        &&& !used[m[i]]
                        &&& rows[m[i]].kind == kind_tag(slots[k + i].kind)
                        &&& rows[m[i]].name == slots[k + i].name
                        &&& rows[m[i]].shape == slots[k + i].shape
                        &&& rows[m[i]].dtype == dtype_tag(slots[k + i].kind)
                        &&& v[i] == rows[m[i]].data
                    } by {
                        if i > 0 {
                            assert(m[i] == mr[i - 1]);
                            assert(v[i] == rest[i - 1]);
                            assert(!u2[mr[i - 1]]);
                            assert(slots[(k + 1) + (i - 1)] == slots[k + i]);
                        }
                    }
                    assert forall|i1: int, i2: int| 0 <= i1 < i2 < m.len() implies m[i1] != m[i2] by {
                        assert(m[i2] == mr[i2 - 1]);
                        assert(!u2[mr[i2 - 1]]);
                        if i1 > 0 {
                            assert(m[i1] == mr[i1 - 1]);
                        }
                    }
                    assert forall|jj: int| 0 <= jj < rows.len() && !used[jj] && rows[jj].kind != K_OPTIM implies #[trigger] row_taken(m, jj) by {
                        if jj == j {
                            assert(m[0] == jj);
                        } else {
                            assert(!u2[jj]);
                            assert(row_taken(mr, jj));
                            let i0 = choose|i: int| 0 <= i < mr.len() && mr[i] == jj;
                            assert(m[i0 + 1] == jj);
                        }
                    }
                    assert(loads_rows(rows, slots, used, k, m, v));
                    assert(apply_from(rows, slots, used, k) == Ok::<Seq<Seq<u8>>, ModelError>(v));
                    assert(apply_from(rows, slots, used, k)->Ok_0 == v);
                }
            }
        }
    } else {
        if let Ok(v) = apply_from(rows, slots, used, k) {
            lemma_no_extra_left(rows, used, 0);
            let m: Seq<int> = seq![];
            assert(v =~= seq![]);
            assert(loads_rows(rows, slots, used, k, m, v));
            assert(apply_from(rows, slots, used, k)->Ok_0 == v);
        }
    }
}

/// A successful load is strict: every slot receives the payload of its own row -- one of its
/// kind, name, shape and dtype -- no row serves two slots, and every row that is not optimizer
/// state serves some slot.
pub proof fn law_model_load_strict(rows: Seq<EntryView>, slots: Seq<SlotView>)
    ensures
        apply_spec(rows, slots) matches Ok(v) ==> exists|m: Seq<int>| #[trigger] loads_rows(rows, slots, no_rows_used(rows.len()), 0, m, v),
{
    lemma_apply_from_loads(rows, slots, no_rows_used(rows.len()), 0);
}

} // verus!
