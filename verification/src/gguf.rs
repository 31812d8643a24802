//! GGUF (llama.cpp) weight import: a `.gguf` file's metadata and tensors, each tensor unpacked
//! from its ggml type with its dims reversed to row-major order (`load_gguf`), and the binding
//! of those tensors to a model's slots by name (`apply_gguf`). A GGUF file holds weights, not
//! a runnable graph.
use crate::bind::{bind_slots, bind_spec, maps_to, names_view, shapes_view, BindError};
use crate::model::{slots_view, ModelSlot};
use vstd::prelude::*;

pub mod dequant;
pub mod laws;
pub mod parse;

use dequant::{dequant, dequant_spec, Decoded, DecodedView};
use parse::{infos_view, kvs_view, parse, parse_spec, GgufError, GgufValue, InfoView, TensorInfo, ValueView};

verus! {

/// A tensor read from a GGUF file: its name, its row-major shape and its unpacked elements.
#[derive(Debug)]
pub struct GgufTensor {
    pub name: String,
    pub shape: Vec<usize>,
    pub values: Decoded,
}

pub struct GgufTensorView {
    pub name: Seq<char>,
    pub shape: Seq<usize>,
    pub values: DecodedView,
}

impl View for GgufTensor {
    type V = GgufTensorView;

    open spec fn view(&self) -> GgufTensorView {
        GgufTensorView { name: self.name@, shape: self.shape@, values: self.values@ }
    }
}

pub open spec fn tensors_view(v: Seq<GgufTensor>) -> Seq<GgufTensorView> {
    v.map_values(|t: GgufTensor| t@)
}

/// The product of `dims`.
pub open spec fn dims_product(dims: Seq<u64>) -> int
    decreases dims.len(),
{
    if dims.len() == 0 {
        1
    } else {
        dims_product(dims.drop_last()) * dims.last()
    }
}

/// Whether every dim and every running product of the dims fits a usize.
pub open spec fn count_fits(dims: Seq<u64>) -> bool {
    &&& forall|i: int| 0 <= i < dims.len() ==> dims[i] <= usize::MAX
    &&& forall|i: int| 0 <= i <= dims.len() ==> #[trigger] dims_product(dims.take(i)) <= usize::MAX
}

pub open spec fn dims_shape(dims: Seq<u64>) -> Seq<usize> {
    dims.map_values(|d: u64| d as usize)
}

/// Tensor `i` of the directory, its data `offset` bytes into the section that starts at `base`.
pub open spec fn load_tensor(b: Seq<u8>, base: int, t: InfoView, i: int) -> Result<GgufTensorView, GgufError> {
    if !count_fits(t.dims) {
        Err(GgufError::TooLarge { tensor: i as usize })
    } else if base + t.offset > b.len() {
        Err(GgufError::OffsetPastEof { tensor: i as usize })
    } else {
        match dequant_spec(t.ggml_type, b.subrange(base + t.offset, b.len() as int), dims_product(t.dims)) {
            Err(e) => Err(GgufError::Undecodable { tensor: i as usize, reason: e }),
            Ok(v) => Ok(GgufTensorView { name: t.name, shape: dims_shape(t.dims), values: v }),
        }
    }
}

/// The first `n` tensors of the directory.
pub open spec fn load_tensors(b: Seq<u8>, base: int, infos: Seq<InfoView>, n: nat) -> Result<Seq<GgufTensorView>, GgufError>
    decreases n,
{
    if n == 0 {
        Ok(seq![])
    } else {
        match load_tensors(b, base, infos, (n - 1) as nat) {
            Err(e) => Err(e),
            Ok(ts) => match load_tensor(b, base, infos[n - 1], n - 1) {
                Err(e) => Err(e),
                Ok(t) => Ok(ts.push(t)),
            },
        }
    }
}

/// Reading a whole GGUF file: its metadata and its tensors.
pub open spec fn load_gguf_spec(b: Seq<u8>) -> Result<(Seq<(Seq<char>, ValueView)>, Seq<GgufTensorView>), GgufError> {
    match parse_spec(b) {
        Err(e) => Err(e),
        Ok((kvs, infos, base)) => {
            if base > b.len() {
                Err(GgufError::DataPastEof)
            } else {
                match load_tensors(b, base, infos, infos.len()) {
                    Err(e) => Err(e),
                    Ok(ts) => Ok((kvs, ts)),
                }
            }
        },
    }
}

proof fn lemma_load_tensors_err(b: Seq<u8>, base: int, infos: Seq<InfoView>, i: nat, n: nat, err: GgufError)
    requires
        i <= n,
        load_tensors(b, base, infos, i) == Err::<Seq<GgufTensorView>, GgufError>(err),
    ensures
        load_tensors(b, base, infos, n) == Err::<Seq<GgufTensorView>, GgufError>(err),
    decreases n - i,
{
    if i < n {
        lemma_load_tensors_err(b, base, infos, i, (n - 1) as nat, err);
    }
}

/// The element count of `dims` as a usize, or `None` when a dim or a running product of them
/// does not fit.
fn element_count(dims: &[u64]) -> (r: Option<usize>)
    ensures
        r is Some <==> count_fits(dims@),
        r matches Some(n) ==> n == dims_product(dims@),
{
    let mut acc: usize = 1;
    let mut i: usize = 0;
    assert(dims@.take(0) =~= seq![]);
    while i < dims.len()
        invariant
            i <= dims@.len(),
            acc == dims_product(dims@.take(i as int)),
            forall|k: int| 0 <= k < i ==> dims@[k] <= usize::MAX,
            forall|k: int| 0 <= k <= i ==> #[trigger] dims_product(dims@.take(k)) <= usize::MAX,
        decreases dims@.len() - i,
    {
        let d = dims[i];
        assert(dims@.take(i as int + 1).drop_last() =~= dims@.take(i as int));
        if d > usize::MAX as u64 {
            return None;
        }
        let du = d as usize;
        if du != 0 && acc > usize::MAX / du {
            assert(acc * du > usize::MAX) by (nonlinear_arith)
                requires
                    du > 0,
                    acc > usize::MAX / du,
            ;
            assert(dims_product(dims@.take(i as int + 1)) > usize::MAX);
            return None;
        }
        assert(acc * du <= usize::MAX) by (nonlinear_arith)
            requires
                du == 0 || acc <= usize::MAX / du,
        ;
        acc = acc * du;
        i = i + 1;
    }
    assert(dims@.take(dims@.len() as int) =~= dims@);
    Some(acc)
}

/// Reads a GGUF file's bytes as its metadata and its tensors: each tensor's dims reversed to
/// row-major order and its data, found at its offset into the aligned tensor-data section,
/// unpacked from its ggml type. Errs on a bad magic or version, a truncated or malformed
/// header, a data section or offset past the end of the file, or an undecodable tensor.
pub fn load_gguf(bytes: &[u8]) -> (r: Result<(Vec<(String, GgufValue)>, Vec<GgufTensor>), GgufError>)
    ensures
        match load_gguf_spec(bytes@) {
            Ok((kvs, ts)) => r matches Ok((m, t)) && kvs_view(m@) == kvs && tensors_view(t@) == ts,
            Err(e) => r == Err::<(Vec<(String, GgufValue)>, Vec<GgufTensor>), GgufError>(e),
        },
{
    let (meta, infos, base) = match parse(bytes) {
        Ok(x) => x,
        Err(e) => return Err(e),
    };
    let blen = bytes.len();
    assert(blen as int == bytes@.len());
    if base > blen {
        return Err(GgufError::DataPastEof);
    }
    let data = vstd::slice::slice_subrange(bytes, base, blen);
    let ghost iv = infos_view(infos@);
    let mut out: Vec<GgufTensor> = Vec::new();
    assert(tensors_view(out@) =~= seq![]);
    let mut i: usize = 0;
    while i < infos.len()
        invariant
            blen as int == bytes@.len(),
            base <= blen,
            data@ == bytes@.subrange(base as int, blen as int),
            parse_spec(bytes@) == Ok::<(Seq<(Seq<char>, ValueView)>, Seq<InfoView>, int), GgufError>((kvs_view(meta@), iv, base as int)),
            iv == infos_view(infos@),
            i <= infos@.len(),
            load_tensors(bytes@, base as int, iv, i as nat) == Ok::<Seq<GgufTensorView>, GgufError>(tensors_view(out@)),
        decreases infos@.len() - i,
    {
        let t: &TensorInfo = &infos[i];
        assert(iv[i as int] == t@);
        let n = match element_count(t.dims.as_slice()) {
            Some(n) => n,
            None => {
                proof {
                    assert(load_tensors(bytes@, base as int, iv, (i + 1) as nat) == Err::<Seq<GgufTensorView>, GgufError>(GgufError::TooLarge { tensor: i }));
                    lemma_load_tensors_err(bytes@, base as int, iv, (i + 1) as nat, iv.len(), GgufError::TooLarge { tensor: i });
                }
                return Err(GgufError::TooLarge { tensor: i });
            },
        };
        let dl = data.len();
        if t.offset > dl as u64 {
            proof {
                assert(load_tensors(bytes@, base as int, iv, (i + 1) as nat) == Err::<Seq<GgufTensorView>, GgufError>(GgufError::OffsetPastEof { tensor: i }));
                lemma_load_tensors_err(bytes@, base as int, iv, (i + 1) as nat, iv.len(), GgufError::OffsetPastEof { tensor: i });
            }
            return Err(GgufError::OffsetPastEof { tensor: i });
        }
        let start = t.offset as usize;
        let raw = vstd::slice::slice_subrange(data, start, dl);
        assert(raw@ =~= bytes@.subrange(base + t.offset, bytes@.len() as int));
        let values = match dequant(t.ggml_type, raw, n) {
            Ok(v) => v,
            Err(e) => {
                proof {
                    let err = GgufError::Undecodable { tensor: i, reason: e };
                    assert(load_tensors(bytes@, base as int, iv, (i + 1) as nat) == Err::<Seq<GgufTensorView>, GgufError>(err));
                    lemma_load_tensors_err(bytes@, base as int, iv, (i + 1) as nat, iv.len(), err);
                }
                return Err(GgufError::Undecodable { tensor: i, reason: e });
            },
        };
        let mut shape: Vec<usize> = Vec::new();
        let mut j: usize = 0;
        while j < t.dims.len()
            invariant
                count_fits(t.dims@),
                j <= t.dims@.len(),
                shape@ == dims_shape(t.dims@.take(j as int)),
            decreases t.dims@.len() - j,
        {
            assert(t.dims@[j as int] <= usize::MAX);
            shape.push(t.dims[j] as usize);
            j = j + 1;
            assert(shape@ =~= dims_shape(t.dims@.take(j as int)));
        }
        assert(t.dims@.take(t.dims@.len() as int) =~= t.dims@);
        let ghost prev = tensors_view(out@);
        let tensor = GgufTensor { name: t.name.clone(), shape, values };
        let ghost tv = tensor@;
        out.push(tensor);
        assert(tensors_view(out@) =~= prev.push(tv));
        i = i + 1;
    }
    Ok((meta, out))
}

/// Why a GGUF file could not be applied to a model.
#[derive(Clone, Copy, Debug, PartialEq, Eq, Structural)]
pub enum GgufApplyError {
    /// The file could not be read.
    Gguf(GgufError),
    /// Its tensors could not be bound to the model's slots.
    Bind(BindError),
}

pub open spec fn tensor_shapes(ts: Seq<GgufTensorView>) -> Seq<Seq<usize>> {
    ts.map_values(|t: GgufTensorView| t.shape)
}

/// `names` are what `name_map` gives for the names of `ts`, one for one.
pub open spec fn mapped_names<F: Fn(&str) -> String>(name_map: F, ts: Seq<GgufTensorView>, names: Seq<String>) -> bool {
    &&& names.len() == ts.len()
    &&& forall|i: int| 0 <= i < names.len() ==> #[trigger] maps_to(name_map, ts[i].name, names[i])
}

/// Warm-starts a model from a GGUF file: reads its tensors, maps each tensor's name through
/// `name_map` to a model slot name, and binds every slot to the tensor of its name and shape
/// (strict: a missing slot tensor, a shape mismatch, or a tensor that maps to no slot all err).
/// Returns the tensors, their mapped names, and the index of the tensor each slot takes.
pub fn apply_gguf<F: Fn(&str) -> String>(slots: &[ModelSlot], bytes: &[u8], name_map: F) -> (r: Result<(Vec<GgufTensor>, Vec<String>, Vec<usize>), GgufApplyError>)
    requires
        forall|s: &str| name_map.requires((s,)),
    ensures
        match load_gguf_spec(bytes@) {
            Err(e) => r == Err::<(Vec<GgufTensor>, Vec<String>, Vec<usize>), GgufApplyError>(GgufApplyError::Gguf(e)),
            Ok((kvs, ts)) => match r {
                Ok((t, names, picks)) => tensors_view(t@) == ts && mapped_names(name_map, ts, names@)
                    && bind_spec(names_view(names@), tensor_shapes(ts), slots_view(slots@)) == Ok::<Seq<usize>, BindError>(picks@),
                Err(GgufApplyError::Bind(e)) => exists|nm: Seq<String>| mapped_names(name_map, ts, nm)
                    && #[trigger] bind_spec(names_view(nm), tensor_shapes(ts), slots_view(slots@)) == Err::<Seq<usize>, BindError>(e),
                Err(GgufApplyError::Gguf(_)) => false,
            },
        },
{
    let (_meta, tensors) = match load_gguf(bytes) {
        Ok(x) => x,
        Err(e) => return Err(GgufApplyError::Gguf(e)),
    };
    let ghost ts = tensors_view(tensors@);
    let mut names: Vec<String> = Vec::new();
    let mut shapes: Vec<Vec<usize>> = Vec::new();
    let mut i: usize = 0;
    while i < tensors.len()
        invariant
            forall|s: &str| name_map.requires((s,)),
            ts == tensors_view(tensors@),
            i <= tensors@.len(),
            names@.len() == i,
            forall|k: int| 0 <= k < i ==> #[trigger] maps_to(name_map, ts[k].name, names@[k]),
            shapes_view(shapes@) == tensor_shapes(ts).take(i as int),
        decreases tensors@.len() - i,
    {
        let t = &tensors[i];
        let x = t.name.as_str();
        let nm = name_map(x);
        let ghost old_names = names@;
        names.push(nm);
        proof {
            assert(x@ == ts[i as int].name);
            assert(call_ensures(name_map, (x,), nm));
            assert forall|k: int| 0 <= k < i + 1 implies #[trigger] maps_to(name_map, ts[k].name, names@[k]) by {
                if k < i {
                    assert(names@[k] == old_names[k]);
                } else {
                    assert(names@[k] == nm);
                }
            }
        }
        let ghost prev = shapes_view(shapes@);
        shapes.push(vstd::slice::slice_to_vec(t.shape.as_slice()));
        assert(shapes_view(shapes@) =~= prev.push(ts[i as int].shape));
        assert(tensor_shapes(ts).take(i as int + 1) =~= tensor_shapes(ts).take(i as int).push(ts[i as int].shape));
        i = i + 1;
    }
    assert(tensor_shapes(ts).take(ts.len() as int) =~= tensor_shapes(ts));
    match bind_slots(names.as_slice(), shapes.as_slice(), slots) {
        Ok(picks) => Ok((tensors, names, picks)),
        Err(e) => {
            assert(mapped_names(name_map, ts, names@));
            Err(GgufApplyError::Bind(e))
        },
    }
}

} // verus!
