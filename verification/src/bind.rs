//! Binding a model's slots to the tensors of a weights file (GGUF, safetensors) by name: each
//! slot takes the first unused file tensor of its name, which must have the slot's shape, and
//! every file tensor must be taken.
use crate::model::{no_rows_used, slots_view, ModelSlot, SlotView};
use crate::wire::{shape_eq, str_eq};
use vstd::prelude::*;

verus! {

/// Why a weights file could not be bound to a model.
#[derive(Clone, Copy, Debug, PartialEq, Eq, Structural)]
pub enum BindError {
    /// Slot `slot` has no unused file tensor of its name.
    Missing { slot: usize },
    /// Slot `slot` found file tensor `tensor`, whose shape differs from the slot's.
    ShapeMismatch { slot: usize, tensor: usize },
    /// File tensor `tensor` was taken by no slot.
    Unmatched { tensor: usize },
}

pub open spec fn shapes_view(v: Seq<Vec<usize>>) -> Seq<Seq<usize>> {
    v.map_values(|s: Vec<usize>| s@)
}

pub open spec fn names_view(v: Seq<String>) -> Seq<Seq<char>> {
    v.map_values(|s: String| s@)
}

/// `out` is what `name_map` gives for a string whose text is `name`.
pub open spec fn maps_to<F: Fn(&str) -> String>(name_map: F, name: Seq<char>, out: String) -> bool {
    exists|x: &str| x@ == name && #[trigger] call_ensures(name_map, (x,), out)
}

/// The first file tensor at index `i` or later that is unused and named `name`.
pub open spec fn first_named(names: Seq<Seq<char>>, used: Seq<bool>, name: Seq<char>, i: int) -> Option<int>
    decreases names.len() - i,
{
    if 0 <= i < names.len() {
        if !used[i] && names[i] == name {
            Some(i)
        } else {
            first_named(names, used, name, i + 1)
        }
    } else {
        None
    }
}

/// The first unused file tensor at index `i` or later.
pub open spec fn first_unused(used: Seq<bool>, i: int) -> Option<int>
    decreases used.len() - i,
{
    if 0 <= i < used.len() {
        if !used[i] {
            Some(i)
        } else {
            first_unused(used, i + 1)
        }
    } else {
        None
    }
}

/// Binding slots `k..` once the tensors marked in `used` are taken: the file tensor index
/// each slot takes.
pub open spec fn bind_from(
    names: Seq<Seq<char>>,
    shapes: Seq<Seq<usize>>,
    slots: Seq<SlotView>,
    used: Seq<bool>,
    k: int,
) -> Result<Seq<usize>, BindError>
    decreases slots.len() - k,
{
    if 0 <= k < slots.len() {
        match first_named(names, used, slots[k].name, 0) {
            None => Err(BindError::Missing { slot: k as usize }),
            Some(j) => if shapes[j] != slots[k].shape {
                Err(BindError::ShapeMismatch { slot: k as usize, tensor: j as usize })
            } else {
                match bind_from(names, shapes, slots, used.update(j, true), k + 1) {
                    Ok(rest) => Ok(seq![j as usize] + rest),
                    Err(e) => Err(e),
                }
            },
        }
    } else {
        match first_unused(used, 0) {
            Some(j) => Err(BindError::Unmatched { tensor: j as usize }),
            None => Ok(seq![]),
        }
    }
}

/// Binding the file tensors named `names` with shapes `shapes` to `slots`: the index of the
/// file tensor each slot takes, in slot order.
pub open spec fn bind_spec(names: Seq<Seq<char>>, shapes: Seq<Seq<usize>>, slots: Seq<SlotView>) -> Result<Seq<usize>, BindError> {
    bind_from(names, shapes, slots, no_rows_used(names.len()), 0)
}

pub open spec fn prepend_picks(p: Seq<usize>, r: Result<Seq<usize>, BindError>) -> Result<Seq<usize>, BindError> {
    match r {
        Ok(x) => Ok(p + x),
        Err(e) => Err(e),
    }
}

proof fn lemma_first_named(names: Seq<Seq<char>>, used: Seq<bool>, name: Seq<char>, i: int)
    ensures
        first_named(names, used, name, i) matches Some(j) ==> 0 <= i <= j < names.len() && !used[j] && names[j] == name,
        0 <= i && first_named(names, used, name, i) is None ==> forall|j: int| i <= j < names.len() && !used[j] ==> names[j] != name,
    decreases names.len() - i,
{
    if 0 <= i < names.len() {
        lemma_first_named(names, used, name, i + 1);
    }
}

proof fn lemma_first_unused(used: Seq<bool>, i: int)
    ensures
        first_unused(used, i) matches Some(j) ==> 0 <= i <= j < used.len() && !used[j],
        0 <= i && first_unused(used, i) is None ==> forall|j: int| i <= j < used.len() ==> used[j],
    decreases used.len() - i,
{
    if 0 <= i < used.len() {
        lemma_first_unused(used, i + 1);
    }
}

/// Finds the first unused file tensor named `name` for slot `slot`, checks its shape and marks
/// it used.
fn take_named(names: &[String], shapes: &[Vec<usize>], used: &mut Vec<bool>, slot: usize, name: &str, want: &[usize]) -> (r: Result<usize, BindError>)
    requires
        names@.len() == shapes@.len(),
        old(used)@.len() == names@.len(),
    ensures
        final(used)@.len() == names@.len(),
        match first_named(names_view(names@), old(used)@, name@, 0) {
            None => r == Err::<usize, BindError>(BindError::Missing { slot }),
            Some(j) => if shapes_view(shapes@)[j] != want@ {
                r == Err::<usize, BindError>(BindError::ShapeMismatch { slot, tensor: j as usize })
            } else {
                r == Ok::<usize, BindError>(j as usize) && final(used)@ == old(used)@.update(j, true)
            },
        },
        r matches Ok(j) ==> j < names@.len() && first_named(names_view(names@), old(used)@, name@, 0) == Some(j as int),
{
    let ghost nv = names_view(names@);
    let mut i: usize = 0;
    while i < names.len()
        invariant
            nv == names_view(names@),
            names@.len() == shapes@.len(),
            used@ == old(used)@,
            used@.len() == names@.len(),
            i <= names@.len(),
            first_named(nv, used@, name@, 0) == first_named(nv, used@, name@, i as int),
        decreases names@.len() - i,
    {
        assert(nv[i as int] == names@[i as int]@);
        if !used[i] && str_eq(names[i].as_str(), name) {
            assert(shapes_view(shapes@)[i as int] == shapes@[i as int]@);
            if !shape_eq(shapes[i].as_slice(), want) {
                return Err(BindError::ShapeMismatch { slot, tensor: i });
            }
            used.set(i, true);
            return Ok(i);
        }
        i = i + 1;
    }
    Err(BindError::Missing { slot })
}

/// Binds file tensors to model slots by name: every slot takes the first unused file tensor of
/// its name, which must have the slot's shape, and afterwards every file tensor must have been
/// taken. Returns the index of the file tensor each slot takes, in slot order.
pub fn bind_slots(names: &[String], shapes: &[Vec<usize>], slots: &[ModelSlot]) -> (r: Result<Vec<usize>, BindError>)
    requires
        names@.len() == shapes@.len(),
    ensures
        match r {
            Ok(v) => bind_spec(names_view(names@), shapes_view(shapes@), slots_view(slots@)) == Ok::<Seq<usize>, BindError>(v@),
            Err(e) => bind_spec(names_view(names@), shapes_view(shapes@), slots_view(slots@)) == Err::<Seq<usize>, BindError>(e),
        },
{
    let ghost nv = names_view(names@);
    let ghost hv = shapes_view(shapes@);
    let ghost sv = slots_view(slots@);
    let mut used: Vec<bool> = Vec::new();
    let mut z: usize = 0;
    while z < names.len()
        invariant
            z <= names@.len(),
            used@ == no_rows_used(z as nat),
        decreases names@.len() - z,
    {
        used.push(false);
        z = z + 1;
        assert(used@ =~= no_rows_used(z as nat));
    }
    let mut out: Vec<usize> = Vec::new();
    let mut k: usize = 0;
    assert(out@ + seq![] =~= out@);
    while k < slots.len()
        invariant
            nv == names_view(names@),
            hv == shapes_view(shapes@),
            sv == slots_view(slots@),
            names@.len() == shapes@.len(),
            used@.len() == names@.len(),
            k <= slots@.len(),
            bind_spec(nv, hv, sv) == prepend_picks(out@, bind_from(nv, hv, sv, used@, k as int)),
        decreases slots@.len() - k,
    {
        let s = &slots[k];
        assert(sv[k as int] == s@);
        let ghost before = used@;
        let j = match take_named(names, shapes, &mut used, k, s.name.as_str(), s.shape.as_slice()) {
            Ok(j) => j,
            Err(e) => return Err(e),
        };
        let ghost prev = out@;
        out.push(j);
        proof {
            lemma_first_named(nv, before, s.name@, 0);
            match bind_from(nv, hv, sv, used@, k + 1) {
                Ok(rest) => {
                    assert(prev + (seq![j] + rest) =~= out@ + rest);
                },
                Err(e) => {},
            }
        }
        k = k + 1;
    }
    assert(sv.len() == slots@.len());
    let mut i: usize = 0;
    while i < used.len()
        invariant
            nv == names_view(names@),
            hv == shapes_view(shapes@),
            sv == slots_view(slots@),
            k == slots@.len(),
            sv.len() == slots@.len(),
            bind_spec(nv, hv, sv) == prepend_picks(out@, bind_from(nv, hv, sv, used@, k as int)),
            i <= used@.len(),
            first_unused(used@, 0) == first_unused(used@, i as int),
        decreases used@.len() - i,
    {
        if !used[i] {
            assert(first_unused(used@, i as int) == Some(i as int));
            assert(bind_from(nv, hv, sv, used@, k as int) == Err::<Seq<usize>, BindError>(BindError::Unmatched { tensor: i }));
            assert(bind_spec(nv, hv, sv) == Err::<Seq<usize>, BindError>(BindError::Unmatched { tensor: i }));
            return Err(BindError::Unmatched { tensor: i });
        }
        i = i + 1;
    }
    assert(out@ + seq![] =~= out@);
    Ok(out)
}

/// What a successful binding promises from `used` on: `m` takes each slot `k..` to a distinct
/// file tensor that was unused, has the slot's name and shape, and takes every unused tensor.
pub open spec fn binds(names: Seq<Seq<char>>, shapes: Seq<Seq<usize>>, slots: Seq<SlotView>, used: Seq<bool>, k: int, m: Seq<usize>) -> bool {
    &&& m.len() == slots.len() - k
    &&& forall|i: int| #![trigger m[i]] 0 <= i < m.len() ==> m[i] < names.len() && !used[m[i] as int]
        && names[m[i] as int] == slots[k + i].name && shapes[m[i] as int] == slots[k + i].shape
    &&& forall|i1: int, i2: int| 0 <= i1 < i2 < m.len() ==> m[i1] != m[i2]
    &&& forall|j: int| 0 <= j < names.len() && !used[j] ==> exists|i: int| 0 <= i < m.len() && m[i] == j
}

proof fn lemma_bind_from(names: Seq<Seq<char>>, shapes: Seq<Seq<usize>>, slots: Seq<SlotView>, used: Seq<bool>, k: int)
    requires
        used.len() == names.len(),
        names.len() <= usize::MAX,
        0 <= k <= slots.len(),
    ensures
        bind_from(names, shapes, slots, used, k) matches Ok(m) ==> binds(names, shapes, slots, used, k, m),
    decreases slots.len() - k,
{
    if k < slots.len() {
        lemma_first_named(names, used, slots[k].name, 0);
        if let Some(j) = first_named(names, used, slots[k].name, 0) {
            let u2 = used.update(j, true);
            lemma_bind_from(names, shapes, slots, u2, k + 1);
            if shapes[j] == slots[k].shape {
                if let Ok(rest) = bind_from(names, shapes, slots, u2, k + 1) {
                    let m = seq![j as usize] + rest;
                    assert(0 <= j < names.len());
                    assert(m[0] == j as usize && j as usize == j);
                    assert(binds(names, shapes, slots, u2, k + 1, rest));
                    assert forall|i: int| #![trigger m[i]] 0 <= i < m.len() implies m[i] < names.len() && !used[m[i] as int]
                        && names[m[i] as int] == slots[k + i].name && shapes[m[i] as int] == slots[k + i].shape by {
                        if i > 0 {
                            assert(m[i] == rest[i - 1]);
                            assert(!u2[rest[i - 1] as int]);
                        }
                    }
                    assert forall|i1: int, i2: int| 0 <= i1 < i2 < m.len() implies m[i1] != m[i2] by {
                        assert(m[i2] == rest[i2 - 1]);
                        assert(!u2[rest[i2 - 1] as int]);
                        if i1 > 0 {
                            assert(m[i1] == rest[i1 - 1]);
                        }
                    }
                    assert forall|jj: int| 0 <= jj < names.len() && !used[jj] implies exists|i: int| 0 <= i < m.len() && m[i] == jj by {
                        if jj == j {
                            assert(m[0] == jj);
                        } else {
                            assert(!u2[jj]);
                            let i0 = choose|i: int| 0 <= i < rest.len() && rest[i] == jj;
                            assert(m[i0 + 1] == jj);
                        }
                    }
                }
            }
        }
    } else {
        lemma_first_unused(used, 0);
    }
}

/// `m` takes each slot to its own file tensor, of the slot's name and shape, and every file
/// tensor to some slot.
pub open spec fn one_to_one(names: Seq<Seq<char>>, shapes: Seq<Seq<usize>>, slots: Seq<SlotView>, m: Seq<usize>) -> bool {
    &&& m.len() == slots.len()
    &&& forall|k: int| #![trigger m[k]] 0 <= k < m.len() ==> m[k] < names.len()
        && names[m[k] as int] == slots[k].name && shapes[m[k] as int] == slots[k].shape
    &&& forall|k1: int, k2: int| 0 <= k1 < k2 < m.len() ==> m[k1] != m[k2]
    &&& forall|j: int| 0 <= j < names.len() ==> #[trigger] taken(m, j)
}

/// Some slot takes file tensor `j`.
pub open spec fn taken(m: Seq<usize>, j: int) -> bool {
    exists|k: int| 0 <= k < m.len() && m[k] == j
}

/// A successful binding is a one-to-one correspondence: every slot gets its own file tensor,
/// of the slot's name and shape, and every file tensor goes to some slot.
pub proof fn law_bind_one_to_one(names: Seq<Seq<char>>, shapes: Seq<Seq<usize>>, slots: Seq<SlotView>)
    requires
        names.len() <= usize::MAX,
    ensures
        bind_spec(names, shapes, slots) matches Ok(m) ==> one_to_one(names, shapes, slots, m),
{
    let u = no_rows_used(names.len());
    lemma_bind_from(names, shapes, slots, u, 0);
    if let Ok(m) = bind_spec(names, shapes, slots) {
        assert(binds(names, shapes, slots, u, 0, m));
        assert forall|j: int| 0 <= j < names.len() implies #[trigger] taken(m, j) by {
            assert(!u[j]);
        }
        assert forall|k: int| #![trigger m[k]] 0 <= k < m.len() implies m[k] < names.len()
            && names[m[k] as int] == slots[k].name && shapes[m[k] as int] == slots[k].shape by {
            assert(slots[0 + k] == slots[k]);
        }
        assert(one_to_one(names, shapes, slots, m));
    }
}

} // verus!
