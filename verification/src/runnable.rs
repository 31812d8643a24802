//! The runnable-graph artifact: a `.hodu` container whose graph section holds a serialized
//! forward graph. Loading resolves each graph Input binding against the container's rows once
//! (weights by name, the internal RNG inputs to their eval-mode defaults), so that a run only
//! needs the caller's runtime inputs. The graph itself is opaque here (`G`, with node ids `N`).
use crate::container::{
    descriptors_view, enc_container, entries_view, meta, read_container, write_container, writable, ContainerError, Entry,
    EntryView, QuantDescriptor,
};
use crate::model::{datas_view, model_entries, model_rows, slots_view, ModelSlot, SlotView};
use crate::wire::str_eq;
use vstd::prelude::*;

verus! {

broadcast use vstd::string::axiom_spec_iter, vstd::string::next_postcondition;

/// How a graph Input is fed.
#[derive(Clone, Copy, Debug, PartialEq, Eq, Structural)]
pub enum InputRole {
    /// From the artifact itself: a weight row, or an internal RNG input.
    Weight,
    /// By the caller, at every run.
    Runtime,
}

/// A named binding of a graph Input node.
pub struct InputBinding<N> {
    pub node: N,
    pub role: InputRole,
    pub name: String,
}

pub struct BindingView<N> {
    pub node: N,
    pub role: InputRole,
    pub name: Seq<char>,
}

impl<N> View for InputBinding<N> {
    type V = BindingView<N>;

    open spec fn view(&self) -> BindingView<N> {
        BindingView { node: self.node, role: self.role, name: self.name@ }
    }
}

pub open spec fn bindings_view<N>(v: Seq<InputBinding<N>>) -> Seq<BindingView<N>> {
    v.map_values(|b: InputBinding<N>| b@)
}

/// What feeds a weight Input on every run.
#[derive(Clone, Copy, Debug, PartialEq, Eq, Structural)]
pub enum WeightFeed {
    /// The payload of container row `row`.
    Row(usize),
    /// The eval-mode default of an internal RNG input: zeros of the node's dtype and shape
    /// (train flag 0.0, which makes every dropout mask all-ones, so the seed value is moot).
    EvalDefault,
}

/// What feeds a graph Input in one run.
#[derive(Clone, Copy, Debug, PartialEq, Eq, Structural)]
pub enum Feed {
    /// A weight feed resolved at load.
    Weight(WeightFeed),
    /// The caller's runtime input at index `input`.
    Runtime(usize),
}

/// Why a runnable artifact could not be loaded.
#[derive(Clone, Copy, Debug, PartialEq, Eq, Structural)]
pub enum RunnableError {
    /// The container could not be read.
    Container(ContainerError),
    /// The container has no graph section: it is not a runnable artifact.
    NoGraph,
    /// Weight binding `binding` names no container row.
    MissingWeight { binding: usize },
}

/// Why a run could not be fed.
#[derive(Clone, Copy, Debug, PartialEq, Eq, Structural)]
pub enum RunError {
    /// Runtime input `input` of the artifact was not supplied.
    MissingInput { input: usize },
}

/// Whether a binding name carries the reserved prefix of the internal RNG inputs: a leading NUL,
/// which no module path (dot-joined identifiers) can start with.
pub open spec fn is_rng_name(name: Seq<char>) -> bool {
    name.len() > 0 && name[0] == '\0'
}

/// Whether a binding name carries the reserved RNG-input prefix.
pub fn is_rng_binding(name: &str) -> (r: bool)
    ensures
        r == is_rng_name(name@),
{
    let mut it = name.chars();
    match it.next() {
        Some(c) => c == '\0',
        None => false,
    }
}

/// The first row at index `i` or later named `name`.
pub open spec fn first_row_named(rows: Seq<EntryView>, name: Seq<char>, i: int) -> Option<int>
    decreases rows.len() - i,
{
    if 0 <= i < rows.len() {
        if rows[i].name == name {
            Some(i)
        } else {
            first_row_named(rows, name, i + 1)
        }
    } else {
        None
    }
}

/// Resolving the first `n` bindings: the weight feeds and the runtime inputs, each in binding
/// order.
pub open spec fn resolve<N>(rows: Seq<EntryView>, bs: Seq<BindingView<N>>, n: nat) -> Result<(Seq<(N, WeightFeed)>, Seq<(Seq<char>, N)>), RunnableError>
    decreases n,
{
    if n == 0 {
        Ok((seq![], seq![]))
    } else {
        match resolve(rows, bs, (n - 1) as nat) {
            Err(e) => Err(e),
            Ok((ws, rt)) => {
                let b = bs[n - 1];
                if b.role == InputRole::Runtime {
                    Ok((ws, rt.push((b.name, b.node))))
                } else if is_rng_name(b.name) {
                    Ok((ws.push((b.node, WeightFeed::EvalDefault)), rt))
                } else {
                    match first_row_named(rows, b.name, 0) {
                        None => Err(RunnableError::MissingWeight { binding: (n - 1) as usize }),
                        Some(j) => Ok((ws.push((b.node, WeightFeed::Row(j as usize))), rt)),
                    }
                }
            },
        }
    }
}

/// A `.hodu` runnable artifact loaded into memory: the rebuilt graph, its outputs, the weight
/// feeds resolved from the container's rows, and the runtime inputs the caller supplies by name.
pub struct RunnableModel<G, N> {
    graph: G,
    outputs: Vec<N>,
    rows: Vec<Entry>,
    weights: Vec<(N, WeightFeed)>,
    runtime: Vec<(String, N)>,
}

pub open spec fn runtime_view<N>(v: Seq<(String, N)>) -> Seq<(Seq<char>, N)> {
    v.map_values(|p: (String, N)| (p.0@, p.1))
}

impl<G, N: Copy> RunnableModel<G, N> {
    pub closed spec fn graph_of(&self) -> G {
        self.graph
    }

    pub closed spec fn outputs_of(&self) -> Seq<N> {
        self.outputs@
    }

    pub closed spec fn rows_of(&self) -> Seq<EntryView> {
        entries_view(self.rows@)
    }

    /// The weight feeds, in binding order.
    pub closed spec fn weight_feeds(&self) -> Seq<(N, WeightFeed)> {
        self.weights@
    }

    /// The runtime inputs (name, node), in binding order.
    pub closed spec fn runtime_inputs(&self) -> Seq<(Seq<char>, N)> {
        runtime_view(self.runtime@)
    }

    /// The graph.
    pub fn graph(&self) -> (r: &G)
        ensures
            *r == self.graph_of(),
    {
        &self.graph
    }

    /// The output nodes.
    pub fn outputs(&self) -> (r: &[N])
        ensures
            r@ == self.outputs_of(),
    {
        self.outputs.as_slice()
    }

    /// The container rows weight feeds refer to.
    pub fn rows(&self) -> (r: &[Entry])
        ensures
            entries_view(r@) == self.rows_of(),
    {
        self.rows.as_slice()
    }

    /// The names of the runtime inputs this artifact expects, in binding order.
    pub fn input_names(&self) -> (r: Vec<&str>)
        ensures
            r@.len() == self.runtime_inputs().len(),
            forall|i: int| 0 <= i < r@.len() ==> #[trigger] r@[i]@ == self.runtime_inputs()[i].0,
    {
        let mut out: Vec<&str> = Vec::new();
        let mut i: usize = 0;
        while i < self.runtime.len()
            invariant
                i <= self.runtime@.len(),
                out@.len() == i,
                forall|k: int| 0 <= k < i ==> #[trigger] out@[k]@ == runtime_view(self.runtime@)[k].0,
            decreases self.runtime@.len() - i,
        {
            out.push(self.runtime[i].0.as_str());
            i = i + 1;
        }
        out
    }

    /// Plans one run: every weight feed, then each runtime input fed from the first supplied
    /// input of its name. Errs on the first runtime input that is not supplied.
    pub fn run(&self, supplied: &[&str]) -> (r: Result<Vec<(N, Feed)>, RunError>)
        ensures
            r is Ok <==> forall|k: int| #![trigger self.runtime_inputs()[k]] 0 <= k < self.runtime_inputs().len()
                ==> first_supplied(supplied@, self.runtime_inputs()[k].0, 0) is Some,
            r matches Ok(v) ==> v@ == run_plan(self.weight_feeds(), self.runtime_inputs(), supplied@),
            r matches Err(RunError::MissingInput { input }) ==> input < self.runtime_inputs().len()
                && first_supplied(supplied@, self.runtime_inputs()[input as int].0, 0) is None
                && forall|k: int| #![trigger self.runtime_inputs()[k]] 0 <= k < input
                    ==> first_supplied(supplied@, self.runtime_inputs()[k].0, 0) is Some,
    {
        let ghost rt = runtime_view(self.runtime@);
        let mut out: Vec<(N, Feed)> = Vec::new();
        let mut i: usize = 0;
        while i < self.weights.len()
            invariant
                i <= self.weights@.len(),
                out@ == weight_plan(self.weights@.take(i as int)),
            decreases self.weights@.len() - i,
        {
            let (node, w) = self.weights[i];
            out.push((node, Feed::Weight(w)));
            proof {
                assert(self.weights@.take(i as int + 1) =~= self.weights@.take(i as int).push(self.weights@[i as int]));
                assert(weight_plan(self.weights@.take(i as int + 1)) =~= weight_plan(self.weights@.take(i as int)).push((node, Feed::Weight(w))));
            }
            i = i + 1;
        }
        assert(self.weights@.take(self.weights@.len() as int) =~= self.weights@);
        let ghost base = out@;
        let mut k: usize = 0;
        while k < self.runtime.len()
            invariant
                rt == runtime_view(self.runtime@),
                rt == self.runtime_inputs(),
                base == weight_plan(self.weights@),
                k <= rt.len(),
                out@.len() == base.len() + k,
                out@.take(base.len() as int) == base,
                forall|j: int| 0 <= j < k ==> #[trigger] first_supplied(supplied@, rt[j].0, 0) is Some
                    && out@[base.len() + j] == (rt[j].1, Feed::Runtime(first_supplied(supplied@, rt[j].0, 0)->0 as usize)),
            decreases rt.len() - k,
        {
            let (name, node) = (&self.runtime[k].0, self.runtime[k].1);
            assert(rt[k as int] == (name@, node));
            let found = find_supplied(supplied, name.as_str());
            match found {
                Some(j) => {
                    let sl = supplied.len();
                    proof {
                        lemma_first_supplied(supplied@, name@, 0);
                        assert(sl as int == supplied@.len());
                    }
                    assert(first_supplied(supplied@, name@, 0) == Some(j as int));
                    out.push((node, Feed::Runtime(j)));
                },
                None => {
                    assert(first_supplied(supplied@, rt[k as int].0, 0) is None);
                    return Err(RunError::MissingInput { input: k });
                },
            }
            k = k + 1;
        }
        proof {
            assert(out@ =~= run_plan(self.weight_feeds(), self.runtime_inputs(), supplied@)) by {
                assert(out@.take(base.len() as int) == base);
                assert forall|j: int| 0 <= j < out@.len() implies out@[j] == run_plan(self.weight_feeds(), self.runtime_inputs(), supplied@)[j] by {
                    if j < base.len() {
                        assert(out@[j] == out@.take(base.len() as int)[j]);
                    } else {
                        assert(out@[base.len() + (j - base.len())] == out@[j]);
                    }
                }
            }
        }
        Ok(out)
    }
}

/// The first supplied input at index `i` or later named `name`.
pub open spec fn first_supplied(supplied: Seq<&str>, name: Seq<char>, i: int) -> Option<int>
    decreases supplied.len() - i,
{
    if 0 <= i < supplied.len() {
        if supplied[i]@ == name {
            Some(i)
        } else {
            first_supplied(supplied, name, i + 1)
        }
    } else {
        None
    }
}

pub open spec fn weight_plan<N>(ws: Seq<(N, WeightFeed)>) -> Seq<(N, Feed)> {
    ws.map_values(|w: (N, WeightFeed)| (w.0, Feed::Weight(w.1)))
}

/// The feeds of one run when every runtime input is supplied: the weight feeds, then each
/// runtime input fed from the first supplied input of its name.
pub open spec fn run_plan<N>(ws: Seq<(N, WeightFeed)>, rt: Seq<(Seq<char>, N)>, supplied: Seq<&str>) -> Seq<(N, Feed)> {
    weight_plan(ws) + rt.map_values(|p: (Seq<char>, N)| (p.1, Feed::Runtime(first_supplied(supplied, p.0, 0)->0 as usize)))
}

proof fn lemma_first_supplied(supplied: Seq<&str>, name: Seq<char>, i: int)
    ensures
        first_supplied(supplied, name, i) matches Some(j) ==> 0 <= j < supplied.len(),
    decreases supplied.len() - i,
{
    if 0 <= i < supplied.len() {
        lemma_first_supplied(supplied, name, i + 1);
    }
}

/// What `first_supplied` finds from index `i` on: the least index of that name, or none when
/// no supplied input from `i` on has the name.
proof fn lemma_first_supplied_at(supplied: Seq<&str>, name: Seq<char>, i: int)
    requires
        0 <= i,
    ensures
        first_supplied(supplied, name, i) matches Some(j) ==> i <= j < supplied.len() && supplied[j]@ == name
            && forall|t: int| i <= t < j ==> supplied[t]@ != name,
        first_supplied(supplied, name, i) is None ==> forall|t: int| i <= t < supplied.len() ==> supplied[t]@ != name,
    decreases supplied.len() - i,
{
    if i < supplied.len() {
        lemma_first_supplied_at(supplied, name, i + 1);
    }
}

/// A runtime input is fed from the first supplied input of its name; there is one exactly when
/// some supplied input has that name.
pub proof fn law_first_supplied(supplied: Seq<&str>, name: Seq<char>)
    ensures
        first_supplied(supplied, name, 0) is Some <==> exists|j: int| 0 <= j < supplied.len() && #[trigger] supplied[j]@ == name,
        first_supplied(supplied, name, 0) matches Some(j) ==> 0 <= j < supplied.len() && supplied[j]@ == name
            && forall|t: int| 0 <= t < j ==> supplied[t]@ != name,
{
    lemma_first_supplied_at(supplied, name, 0);
    if let Some(j) = first_supplied(supplied, name, 0) {
        assert(supplied[j]@ == name);
    }
}

proof fn lemma_first_supplied_append(supplied: Seq<&str>, extra: Seq<&str>, name: Seq<char>, i: int)
    requires
        0 <= i,
        first_supplied(supplied, name, i) is Some || forall|t: int| 0 <= t < extra.len() ==> extra[t]@ != name,
    ensures
        first_supplied(supplied + extra, name, i) == first_supplied(supplied, name, i),
    decreases supplied.len() + extra.len() - i,
{
    let u = supplied + extra;
    if i < supplied.len() {
        assert(u[i] == supplied[i]);
        if supplied[i]@ != name {
            lemma_first_supplied_append(supplied, extra, name, i + 1);
        }
    } else if i < u.len() {
        assert(u[i] == extra[i - supplied.len()]);
        lemma_first_supplied_append(supplied, extra, name, i + 1);
    }
}

/// Supplying more inputs after those a run is given changes nothing, as long as each runtime
/// input was already supplied or is named by none of the added inputs: every runtime input is
/// fed from the same supplied input (or is missing from both), so the run succeeds or fails
/// alike and plans the same feeds.
pub proof fn law_run_ignores_extra<N>(ws: Seq<(N, WeightFeed)>, rt: Seq<(Seq<char>, N)>, supplied: Seq<&str>, extra: Seq<&str>)
    requires
        forall|k: int| #![trigger rt[k]] 0 <= k < rt.len() ==> first_supplied(supplied, rt[k].0, 0) is Some
            || forall|t: int| 0 <= t < extra.len() ==> extra[t]@ != rt[k].0,
    ensures
        forall|k: int| #![trigger rt[k]] 0 <= k < rt.len() ==> first_supplied(supplied + extra, rt[k].0, 0) == first_supplied(supplied, rt[k].0, 0),
        run_plan(ws, rt, supplied + extra) == run_plan(ws, rt, supplied),
{
    assert forall|k: int| #![trigger rt[k]] 0 <= k < rt.len() implies first_supplied(supplied + extra, rt[k].0, 0) == first_supplied(supplied, rt[k].0, 0) by {
        lemma_first_supplied_append(supplied, extra, rt[k].0, 0);
    }
    assert(run_plan(ws, rt, supplied + extra) =~= run_plan(ws, rt, supplied)) by {
        let a = run_plan(ws, rt, supplied + extra);
        let b = run_plan(ws, rt, supplied);
        assert forall|j: int| 0 <= j < a.len() implies a[j] == b[j] by {
            if j >= ws.len() {
                let k = j - ws.len();
                assert(rt[k] == rt[k]);
            }
        }
    }
}

/// Reordering the supplied inputs, none of whose names occurs twice, changes only where each
/// input sits: every name is found exactly when it was found before, at its new position, so a
/// run succeeds on one order exactly when it succeeds on the other and feeds every runtime
/// input from the same input. `perm` maps each old position to the new one.
pub proof fn law_run_order_irrelevant<N>(
    ws: Seq<(N, WeightFeed)>,
    rt: Seq<(Seq<char>, N)>,
    supplied: Seq<&str>,
    reordered: Seq<&str>,
    perm: Seq<int>,
)
    requires
        reordered.len() == supplied.len(),
        perm.len() == supplied.len(),
        forall|i: int| #![trigger perm[i]] 0 <= i < perm.len() ==> 0 <= perm[i] < reordered.len() && reordered[perm[i]] == supplied[i],
        forall|t: int| 0 <= t < reordered.len() ==> #[trigger] perm.contains(t),
        forall|i: int, j: int| 0 <= i < j < supplied.len() ==> supplied[i]@ != supplied[j]@,
    ensures
        forall|name: Seq<char>| #[trigger] first_supplied(reordered, name, 0) == match first_supplied(supplied, name, 0) {
            Some(j) => Some(perm[j]),
            None => None::<int>,
        },
        (forall|k: int| #![trigger rt[k]] 0 <= k < rt.len() ==> first_supplied(supplied, rt[k].0, 0) is Some) ==> run_plan(ws, rt, reordered)
            == weight_plan(ws) + rt.map_values(|p: (Seq<char>, N)| (p.1, Feed::Runtime(perm[first_supplied(supplied, p.0, 0)->0] as usize))),
{
    assert forall|name: Seq<char>| #[trigger] first_supplied(reordered, name, 0) == match first_supplied(supplied, name, 0) {
        Some(j) => Some(perm[j]),
        None => None::<int>,
    } by {
        lemma_first_supplied_at(supplied, name, 0);
        lemma_first_supplied_at(reordered, name, 0);
        match first_supplied(supplied, name, 0) {
            Some(j) => {
                assert(reordered[perm[j]]@ == name);
                match first_supplied(reordered, name, 0) {
                    Some(j2) => {
                        assert(perm.contains(j2));
                        let i = choose|i: int| 0 <= i < perm.len() && #[trigger] perm[i] == j2;
                        assert(supplied[i]@ == name);
                        if i != j {
                            if i < j {
                                assert(supplied[i]@ != supplied[j]@);
                            } else {
                                assert(supplied[j]@ != supplied[i]@);
                            }
                        }
                    },
                    None => {},
                }
            },
            None => {
                match first_supplied(reordered, name, 0) {
                    Some(j2) => {
                        assert(perm.contains(j2));
                        let i = choose|i: int| 0 <= i < perm.len() && #[trigger] perm[i] == j2;
                        assert(supplied[i]@ == name);
                    },
                    None => {},
                }
            },
        }
    }
    if forall|k: int| #![trigger rt[k]] 0 <= k < rt.len() ==> first_supplied(supplied, rt[k].0, 0) is Some {
        let a = run_plan(ws, rt, reordered);
        let b = weight_plan(ws) + rt.map_values(|p: (Seq<char>, N)| (p.1, Feed::Runtime(perm[first_supplied(supplied, p.0, 0)->0] as usize)));
        assert forall|j: int| 0 <= j < a.len() implies a[j] == b[j] by {
            if j >= ws.len() {
                let k = j - ws.len();
                assert(rt[k] == rt[k]);
                assert(first_supplied(reordered, rt[k].0, 0) == Some(perm[first_supplied(supplied, rt[k].0, 0)->0]));
            }
        }
        assert(a =~= b);
    }
}

proof fn lemma_first_row_named(rows: Seq<EntryView>, name: Seq<char>, i: int)
    ensures
        first_row_named(rows, name, i) matches Some(j) ==> 0 <= j < rows.len(),
    decreases rows.len() - i,
{
    if 0 <= i < rows.len() {
        lemma_first_row_named(rows, name, i + 1);
    }
}

/// The first supplied input named `name`.
fn find_supplied(supplied: &[&str], name: &str) -> (r: Option<usize>)
    ensures
        match first_supplied(supplied@, name@, 0) {
            Some(j) => r == Some(j as usize),
            None => r is None,
        },
{
    let mut j: usize = 0;
    while j < supplied.len()
        invariant
            j <= supplied@.len(),
            first_supplied(supplied@, name@, 0) == first_supplied(supplied@, name@, j as int),
        decreases supplied@.len() - j,
    {
        if str_eq(supplied[j], name) {
            return Some(j);
        }
        j = j + 1;
    }
    None
}

/// The first row named `name`.
fn find_row(rows: &[Entry], name: &str) -> (r: Option<usize>)
    ensures
        match first_row_named(entries_view(rows@), name@, 0) {
            Some(j) => r == Some(j as usize),
            None => r is None,
        },
{
    let ghost rv = entries_view(rows@);
    let mut j: usize = 0;
    while j < rows.len()
        invariant
            rv == entries_view(rows@),
            j <= rows@.len(),
            first_row_named(rv, name@, 0) == first_row_named(rv, name@, j as int),
        decreases rows@.len() - j,
    {
        assert(rv[j as int] == rows@[j as int]@);
        if str_eq(rows[j].name.as_str(), name) {
            return Some(j);
        }
        j = j + 1;
    }
    None
}

/// Reads the parts of a runnable artifact from container bytes: the rows and the graph blob
/// (the quant-descriptor table is informational for a runnable and is dropped). Errs on an
/// unreadable container and on one without a graph section.
pub fn runnable_parts(bytes: &[u8]) -> (r: Result<(Vec<Entry>, Vec<u8>), RunnableError>)
    ensures
        match crate::container::dec_container(bytes@) {
            Err(e) => r == Err::<(Vec<Entry>, Vec<u8>), RunnableError>(RunnableError::Container(e)),
            Ok((es, ds, g)) => if g.len() == 0 {
                r == Err::<(Vec<Entry>, Vec<u8>), RunnableError>(RunnableError::NoGraph)
            } else {
                r matches Ok((rows, blob)) && entries_view(rows@) == es && blob@ == g
            },
        },
{
    let (rows, _descriptors, blob) = match read_container(bytes) {
        Ok(x) => x,
        Err(e) => return Err(RunnableError::Container(e)),
    };
    if blob.len() == 0 {
        return Err(RunnableError::NoGraph);
    }
    Ok((rows, blob))
}

/// Loads a runnable artifact from its rows and its rebuilt graph: weight bindings are resolved
/// by name against the rows (the first row of that name), internal RNG inputs get their
/// eval-mode default, and runtime bindings are kept for the caller to feed at each run. Errs on
/// a weight the rows do not hold.
pub fn load_runnable<G, N: Copy>(rows: Vec<Entry>, graph: G, outputs: Vec<N>, inputs: &[InputBinding<N>]) -> (r: Result<RunnableModel<G, N>, RunnableError>)
    ensures
        match resolve(entries_view(rows@), bindings_view(inputs@), inputs@.len()) {
            Err(e) => r == Err::<RunnableModel<G, N>, RunnableError>(e),
            Ok((ws, rt)) => r matches Ok(m) && m.weight_feeds() == ws && m.runtime_inputs() == rt
                && m.graph_of() == graph && m.outputs_of() == outputs@ && m.rows_of() == entries_view(rows@),
        },
{
    let ghost rv = entries_view(rows@);
    let ghost bv = bindings_view(inputs@);
    let mut weights: Vec<(N, WeightFeed)> = Vec::new();
    let mut runtime: Vec<(String, N)> = Vec::new();
    let mut i: usize = 0;
    assert(runtime_view(runtime@) =~= seq![]);
    while i < inputs.len()
        invariant
            rv == entries_view(rows@),
            bv == bindings_view(inputs@),
            i <= inputs@.len(),
            resolve(rv, bv, i as nat) == Ok::<(Seq<(N, WeightFeed)>, Seq<(Seq<char>, N)>), RunnableError>((weights@, runtime_view(runtime@))),
        decreases inputs@.len() - i,
    {
        let b = &inputs[i];
        assert(bv[i as int] == b@);
        match b.role {
            InputRole::Runtime => {
                let ghost prev = runtime_view(runtime@);
                runtime.push((b.name.clone(), b.node));
                assert(runtime_view(runtime@) =~= prev.push((b.name@, b.node)));
            },
            InputRole::Weight => {
                if is_rng_binding(b.name.as_str()) {
                    weights.push((b.node, WeightFeed::EvalDefault));
                } else {
                    let found = find_row(rows.as_slice(), b.name.as_str());
                    match found {
                        Some(j) => {
                            let rl = rows.len();
                            proof {
                                lemma_first_row_named(rv, b.name@, 0);
                                assert(rl as int == rv.len());
                            }
                            assert(first_row_named(rv, b.name@, 0) == Some(j as int));
                            weights.push((b.node, WeightFeed::Row(j)));
                        },
                        None => {
                            proof {
                                assert(!is_rng_name(b.name@));
                                assert(first_row_named(rv, b.name@, 0) is None);
                                assert(resolve(rv, bv, (i + 1) as nat) == Err::<(Seq<(N, WeightFeed)>, Seq<(Seq<char>, N)>), RunnableError>(RunnableError::MissingWeight { binding: i }));
                                lemma_resolve_err(rv, bv, (i + 1) as nat, inputs@.len(), RunnableError::MissingWeight { binding: i });
                            }
                            return Err(RunnableError::MissingWeight { binding: i });
                        },
                    }
                }
            },
        }
        i = i + 1;
    }
    Ok(RunnableModel { graph, outputs, rows, weights, runtime })
}

proof fn lemma_resolve_err<N>(rows: Seq<EntryView>, bs: Seq<BindingView<N>>, i: nat, n: nat, err: RunnableError)
    requires
        i <= n,
        resolve(rows, bs, i) == Err::<(Seq<(N, WeightFeed)>, Seq<(Seq<char>, N)>), RunnableError>(err),
    ensures
        resolve(rows, bs, n) == Err::<(Seq<(N, WeightFeed)>, Seq<(Seq<char>, N)>), RunnableError>(err),
    decreases n - i,
{
    if i < n {
        lemma_resolve_err(rows, bs, i, (n - 1) as nat, err);
    }
}

/// Named nodes bound under one role, in order.
pub open spec fn tagged<N>(v: Seq<(Seq<char>, N)>, role: InputRole) -> Seq<BindingView<N>> {
    v.map_values(|p: (Seq<char>, N)| BindingView { node: p.1, role, name: p.0 })
}

/// The input bindings a runnable artifact is saved with: every weight (parameters, buffers,
/// byte buffers) as a weight under its name, then the caller's runtime inputs, then the
/// internal RNG inputs as weights under their reserved names.
pub open spec fn artifact_bindings<N>(weights: Seq<(Seq<char>, N)>, runtime: Seq<(Seq<char>, N)>, rng: Seq<(Seq<char>, N)>) -> Seq<BindingView<N>> {
    tagged(weights, InputRole::Weight) + tagged(runtime, InputRole::Runtime) + tagged(rng, InputRole::Weight)
}

fn push_tagged<N: Copy>(out: &mut Vec<InputBinding<N>>, v: &[(String, N)], role: InputRole)
    ensures
        bindings_view(final(out)@) == bindings_view(old(out)@) + tagged(runtime_view(v@), role),
{
    let ghost start = bindings_view(out@);
    let mut i: usize = 0;
    while i < v.len()
        invariant
            i <= v@.len(),
            bindings_view(out@) == start + tagged(runtime_view(v@), role).take(i as int),
        decreases v@.len() - i,
    {
        let ghost prev = bindings_view(out@);
        out.push(InputBinding { node: v[i].1, role, name: v[i].0.clone() });
        proof {
            assert(bindings_view(out@) =~= prev.push(BindingView { node: v@[i as int].1, role, name: v@[i as int].0@ }));
            assert(tagged(runtime_view(v@), role).take(i as int + 1) =~= tagged(runtime_view(v@), role).take(i as int).push(
                BindingView { node: v@[i as int].1, role, name: v@[i as int].0@ }));
        }
        i = i + 1;
    }
    assert(tagged(runtime_view(v@), role).take(v@.len() as int) =~= tagged(runtime_view(v@), role));
}

/// The input bindings of a runnable artifact: the weights as weights, then the runtime inputs,
/// then the internal RNG inputs as weights.
pub fn runnable_bindings<N: Copy>(weights: &[(String, N)], runtime: &[(String, N)], rng: &[(String, N)]) -> (r: Vec<InputBinding<N>>)
    ensures
        bindings_view(r@) == artifact_bindings(runtime_view(weights@), runtime_view(runtime@), runtime_view(rng@)),
{
    let mut out: Vec<InputBinding<N>> = Vec::new();
    assert(bindings_view(out@) =~= seq![]);
    push_tagged(&mut out, weights, InputRole::Weight);
    push_tagged(&mut out, runtime, InputRole::Runtime);
    push_tagged(&mut out, rng, InputRole::Weight);
    assert(seq![] + tagged(runtime_view(weights@), InputRole::Weight) =~= tagged(runtime_view(weights@), InputRole::Weight));
    out
}

/// The bytes of a runnable artifact: the model's rows (one per slot, with its payload), its
/// quant descriptors, and the serialized graph as the graph section, under the format's
/// metadata. Errs, as the container writer does, on what the format cannot hold.
pub fn runnable_file(slots: &[ModelSlot], data: &[Vec<u8>], descriptors: &[QuantDescriptor], graph: &[u8]) -> (r: Result<Vec<u8>, ContainerError>)
    requires
        slots@.len() == data@.len(),
    ensures
        ({
            let m = seq![("format"@, "hodu"@), ("created_by"@, "hodu 0.1.0"@)];
            let rows = model_rows(slots_view(slots@), datas_view(data@));
            &&& r is Ok <==> writable(m, rows, descriptors_view(descriptors@), graph@)
            &&& r matches Ok(b) ==> b@ == enc_container(m, rows, descriptors_view(descriptors@), graph@)
            &&& r matches Err(e) ==> e == ContainerError::TooLarge
        }),
{
    let m = meta();
    let rows = model_entries(slots, data);
    let r = write_container(m.as_slice(), rows.as_slice(), descriptors, graph);
    proof {
        assert(crate::container::kvs_view(m@) =~= seq![("format"@, "hodu"@), ("created_by"@, "hodu 0.1.0"@)]);
    }
    r
}

/// The weight feeds a saved artifact's bindings resolve to: weight `k` from row `k`, then each
/// RNG input its eval-mode default.
pub open spec fn saved_feeds<N>(nodes: Seq<N>, rng: Seq<(Seq<char>, N)>) -> Seq<(N, WeightFeed)> {
    Seq::new(nodes.len(), |k: int| (nodes[k], WeightFeed::Row(k as usize)))
        + Seq::new(rng.len(), |k: int| (rng[k].1, WeightFeed::EvalDefault))
}

/// The weights of a model bound under their slot names.
pub open spec fn slot_weights<N>(slots: Seq<SlotView>, nodes: Seq<N>) -> Seq<(Seq<char>, N)> {
    Seq::new(slots.len(), |k: int| (slots[k].name, nodes[k]))
}

/// What resolving the first `t` saved bindings gives.
pub open spec fn saved_prefix<N>(nodes: Seq<N>, runtime: Seq<(Seq<char>, N)>, rng: Seq<(Seq<char>, N)>, t: int) -> (Seq<(N, WeightFeed)>, Seq<(Seq<char>, N)>) {
    let w = nodes.len() as int;
    let r = runtime.len() as int;
    if t <= w {
        (saved_feeds(nodes, rng).take(t), seq![])
    } else if t <= w + r {
        (saved_feeds(nodes, rng).take(w), runtime.take(t - w))
    } else {
        (saved_feeds(nodes, rng).take(t - r), runtime)
    }
}

proof fn lemma_saved_row_named(slots: Seq<SlotView>, data: Seq<Seq<u8>>, k: int, i: int)
    requires
        slots.len() == data.len(),
        0 <= i <= k < slots.len(),
        forall|a: int, b: int| 0 <= a < b < slots.len() ==> slots[a].name != slots[b].name,
    ensures
        first_row_named(model_rows(slots, data), slots[k].name, i) == Some(k),
    decreases k - i,
{
    if i < k {
        lemma_saved_row_named(slots, data, k, i + 1);
    }
}

proof fn lemma_saved_resolves<N>(
    slots: Seq<SlotView>,
    data: Seq<Seq<u8>>,
    nodes: Seq<N>,
    runtime: Seq<(Seq<char>, N)>,
    rng: Seq<(Seq<char>, N)>,
    t: nat,
)
    requires
        slots.len() == data.len(),
        nodes.len() == slots.len(),
        slots.len() <= usize::MAX,
        forall|a: int, b: int| 0 <= a < b < slots.len() ==> slots[a].name != slots[b].name,
        forall|a: int| 0 <= a < slots.len() ==> !is_rng_name(#[trigger] slots[a].name),
        forall|a: int| 0 <= a < rng.len() ==> is_rng_name(#[trigger] rng[a].0),
        t <= slots.len() + runtime.len() + rng.len(),
    ensures
        resolve(model_rows(slots, data), artifact_bindings(slot_weights(slots, nodes), runtime, rng), t)
            == Ok::<(Seq<(N, WeightFeed)>, Seq<(Seq<char>, N)>), RunnableError>(saved_prefix(nodes, runtime, rng, t as int)),
    decreases t,
{
    let rows = model_rows(slots, data);
    let ws = slot_weights(slots, nodes);
    let bs = artifact_bindings(ws, runtime, rng);
    let w = slots.len() as int;
    let r = runtime.len() as int;
    let feeds = saved_feeds(nodes, rng);
    if t == 0 {
        assert(feeds.take(0) =~= seq![]);
    } else {
        lemma_saved_resolves(slots, data, nodes, runtime, rng, (t - 1) as nat);
        let k = t - 1;
        if k < w {
            assert(bs[k] == BindingView { node: nodes[k], role: InputRole::Weight, name: slots[k].name });
            lemma_saved_row_named(slots, data, k, 0);
            assert(!is_rng_name(slots[k].name));
            assert(feeds[k] == (nodes[k], WeightFeed::Row(k as usize)));
            assert(feeds.take(k + 1) =~= feeds.take(k).push((nodes[k], WeightFeed::Row(k as usize))));
        } else if k < w + r {
            assert(bs[k] == BindingView { node: runtime[k - w].1, role: InputRole::Runtime, name: runtime[k - w].0 });
            assert(runtime.take(k + 1 - w) =~= runtime.take(k - w).push((runtime[k - w].0, runtime[k - w].1)));
            if k == w {
                assert(feeds.take(k) =~= feeds.take(w));
                assert(runtime.take(0) =~= seq![]);
            }
        } else {
            let g = k - w - r;
            assert(bs[k] == BindingView { node: rng[g].1, role: InputRole::Weight, name: rng[g].0 });
            assert(is_rng_name(rng[g].0));
            assert(feeds[k - r] == (rng[g].1, WeightFeed::EvalDefault));
            assert(feeds.take(k + 1 - r) =~= feeds.take(k - r).push((rng[g].1, WeightFeed::EvalDefault)));
            if k == w + r {
                assert(runtime.take(k - w) =~= runtime);
                assert(feeds.take(k - r) =~= feeds.take(w));
                if r == 0 {
                    assert(runtime =~= seq![]);
                }
            }
        }
    }
}

/// What a loader gives back of a saved runnable artifact: when the model's slot names are
/// distinct and none carries the RNG prefix (module paths never do), while every RNG input's
/// name does, resolving the saved bindings against the saved rows feeds weight `k` from row
/// `k`, every RNG input its eval-mode default, and keeps the runtime inputs in order.
pub proof fn law_runnable_round_trip<N>(
    slots: Seq<SlotView>,
    data: Seq<Seq<u8>>,
    nodes: Seq<N>,
    runtime: Seq<(Seq<char>, N)>,
    rng: Seq<(Seq<char>, N)>,
)
    requires
        slots.len() == data.len(),
        nodes.len() == slots.len(),
        slots.len() <= usize::MAX,
        forall|a: int, b: int| 0 <= a < b < slots.len() ==> slots[a].name != slots[b].name,
        forall|a: int| 0 <= a < slots.len() ==> !is_rng_name(#[trigger] slots[a].name),
        forall|a: int| 0 <= a < rng.len() ==> is_rng_name(#[trigger] rng[a].0),
    ensures
        ({
            let bs = artifact_bindings(slot_weights(slots, nodes), runtime, rng);
            resolve(model_rows(slots, data), bs, bs.len()) == Ok::<(Seq<(N, WeightFeed)>, Seq<(Seq<char>, N)>), RunnableError>(
                (saved_feeds(nodes, rng), runtime))
        }),
{
    let bs = artifact_bindings(slot_weights(slots, nodes), runtime, rng);
    let n = slots.len() + runtime.len() + rng.len();
    assert(bs.len() == n);
    lemma_saved_resolves(slots, data, nodes, runtime, rng, n as nat);
    let feeds = saved_feeds(nodes, rng);
    assert(feeds.take(n - runtime.len()) =~= feeds);
    if n <= slots.len() + runtime.len() {
        assert(rng.len() == 0);
        assert(feeds.take(slots.len() as int) =~= feeds);
        assert(runtime.take(n - slots.len()) =~= runtime);
        if n <= slots.len() {
            assert(feeds.take(n as int) =~= feeds);
            assert(runtime =~= seq![]);
        }
    }
}

/// Why a runnable artifact could not be written.
#[derive(Clone, Copy, Debug, PartialEq, Eq, Structural)]
pub enum SaveError {
    /// No output was given (for a multi-entry artifact: its first entry has none).
    NoOutputs,
    /// The container writer refused the rows, descriptors or graph.
    Container(ContainerError),
}

/// The format's metadata pairs, as text.
pub open spec fn meta_text() -> Seq<(Seq<char>, Seq<char>)> {
    seq![("format"@, "hodu"@), ("created_by"@, "hodu 0.1.0"@)]
}

/// Writes a runnable inference artifact: the model's rows (one per slot), its descriptors, and
/// the graph as `serialize` writes it for `outputs` and the artifact's bindings -- every slot
/// bound as a weight under its name to its node, then the runtime inputs, then the internal
/// RNG inputs as weights -- so the model runs from the file alone. Errs when no output is
/// given, and as the container writer does.
pub fn save_runnable<N: Copy, F: Fn(&[N], &[InputBinding<N>]) -> Vec<u8>>(
    slots: &[ModelSlot],
    data: &[Vec<u8>],
    descriptors: &[QuantDescriptor],
    nodes: &[N],
    runtime: &[(String, N)],
    rng: &[(String, N)],
    outputs: &[N],
    serialize: F,
) -> (r: Result<Vec<u8>, SaveError>)
    requires
        slots@.len() == data@.len(),
        nodes@.len() == slots@.len(),
        forall|o: &[N], b: &[InputBinding<N>]| serialize.requires((o, b)),
    ensures
        outputs@.len() == 0 <==> r == Err::<Vec<u8>, SaveError>(SaveError::NoOutputs),
        r matches Err(SaveError::Container(e)) ==> e == ContainerError::TooLarge,
        outputs@.len() > 0 ==> exists|bs: &[InputBinding<N>], blob: Vec<u8>| {
            &&& bindings_view(bs@) == artifact_bindings(slot_weights(slots_view(slots@), nodes@), runtime_view(runtime@), runtime_view(rng@))
            &&& call_ensures(serialize, (outputs, bs), blob)
            &&& (r is Ok <==> writable(meta_text(), model_rows(slots_view(slots@), datas_view(data@)), descriptors_view(descriptors@), blob@))
            &&& (r matches Ok(b) ==> b@ == enc_container(meta_text(), model_rows(slots_view(slots@), datas_view(data@)), descriptors_view(descriptors@), blob@))
        },
{
    if outputs.len() == 0 {
        return Err(SaveError::NoOutputs);
    }
    let mut weights: Vec<(String, N)> = Vec::new();
    let mut i: usize = 0;
    while i < slots.len()
        invariant
            nodes@.len() == slots@.len(),
            i <= slots@.len(),
            runtime_view(weights@) == slot_weights(slots_view(slots@), nodes@).take(i as int),
        decreases slots@.len() - i,
    {
        let ghost prev = runtime_view(weights@);
        weights.push((slots[i].name.clone(), nodes[i]));
        proof {
            assert(runtime_view(weights@) =~= prev.push((slots@[i as int].name@, nodes@[i as int])));
            assert(slot_weights(slots_view(slots@), nodes@).take(i as int + 1) =~= slot_weights(slots_view(slots@), nodes@).take(i as int).push(
                (slots@[i as int].name@, nodes@[i as int])));
        }
        i = i + 1;
    }
    assert(slot_weights(slots_view(slots@), nodes@).take(slots@.len() as int) =~= slot_weights(slots_view(slots@), nodes@));
    let bindings = runnable_bindings(weights.as_slice(), runtime, rng);
    let blob = serialize(outputs, bindings.as_slice());
    let r = runnable_file(slots, data, descriptors, blob.as_slice());
    assert(meta_text() =~= seq![("format"@, "hodu"@), ("created_by"@, "hodu 0.1.0"@)]);
    match r {
        Ok(b) => Ok(b),
        Err(e) => Err(SaveError::Container(e)),
    }
}

/// One entry point of a multi-entry artifact: its name, its outputs and its runtime inputs.
pub struct EntrySpec<N> {
    pub name: String,
    pub outputs: Vec<N>,
    pub runtime: Vec<(String, N)>,
}

/// One serialized entry point: its name, its outputs and all its bindings.
pub struct EntryBindings<N> {
    pub name: String,
    pub outputs: Vec<N>,
    pub inputs: Vec<InputBinding<N>>,
}

/// The bindings each entry point of a multi-entry artifact is saved with: the shared weights
/// (every slot under its name, then the internal RNG inputs), then the entry's own runtime
/// inputs.
pub open spec fn entry_bindings<N>(weights: Seq<(Seq<char>, N)>, rng: Seq<(Seq<char>, N)>, runtime: Seq<(Seq<char>, N)>) -> Seq<BindingView<N>> {
    tagged(weights, InputRole::Weight) + tagged(rng, InputRole::Weight) + tagged(runtime, InputRole::Runtime)
}

/// Whether `es` are `entries` each with its outputs and its bindings.
pub open spec fn entries_bound<N>(es: Seq<EntryBindings<N>>, entries: Seq<EntrySpec<N>>, weights: Seq<(Seq<char>, N)>, rng: Seq<(Seq<char>, N)>) -> bool {
    &&& es.len() == entries.len()
    &&& forall|k: int| #![trigger es[k]] 0 <= k < es.len() ==> es[k].name@ == entries[k].name@ && es[k].outputs@ == entries[k].outputs@
        && bindings_view(es[k].inputs@) == entry_bindings(weights, rng, runtime_view(entries[k].runtime@))
}

/// Writes a multi-entry runnable artifact: the model's rows and descriptors plus one graph that
/// `serialize` writes for all the named entry points, each bound to the shared weights (every
/// slot under its name, then the RNG inputs) and its own runtime inputs. Errs when the first
/// entry has no output (or there is no entry), and as the container writer does.
pub fn save_multi<N: Copy, F: Fn(&[EntryBindings<N>]) -> Vec<u8>>(
    slots: &[ModelSlot],
    data: &[Vec<u8>],
    descriptors: &[QuantDescriptor],
    nodes: &[N],
    rng: &[(String, N)],
    entries: &[EntrySpec<N>],
    serialize: F,
) -> (r: Result<Vec<u8>, SaveError>)
    requires
        slots@.len() == data@.len(),
        nodes@.len() == slots@.len(),
        forall|e: &[EntryBindings<N>]| serialize.requires((e,)),
    ensures
        (entries@.len() == 0 || entries@[0].outputs@.len() == 0) <==> r == Err::<Vec<u8>, SaveError>(SaveError::NoOutputs),
        r matches Err(SaveError::Container(e)) ==> e == ContainerError::TooLarge,
        !(entries@.len() == 0 || entries@[0].outputs@.len() == 0) ==> exists|es: &[EntryBindings<N>], blob: Vec<u8>| {
            &&& entries_bound(es@, entries@, slot_weights(slots_view(slots@), nodes@), runtime_view(rng@))
            &&& call_ensures(serialize, (es,), blob)
            &&& (r is Ok <==> writable(meta_text(), model_rows(slots_view(slots@), datas_view(data@)), descriptors_view(descriptors@), blob@))
            &&& (r matches Ok(b) ==> b@ == enc_container(meta_text(), model_rows(slots_view(slots@), datas_view(data@)), descriptors_view(descriptors@), blob@))
        },
{
    if entries.len() == 0 || entries[0].outputs.len() == 0 {
        return Err(SaveError::NoOutputs);
    }
    let mut weights: Vec<(String, N)> = Vec::new();
    let mut i: usize = 0;
    while i < slots.len()
        invariant
            nodes@.len() == slots@.len(),
            i <= slots@.len(),
            runtime_view(weights@) == slot_weights(slots_view(slots@), nodes@).take(i as int),
        decreases slots@.len() - i,
    {
        let ghost prev = runtime_view(weights@);
        weights.push((slots[i].name.clone(), nodes[i]));
        proof {
            assert(runtime_view(weights@) =~= prev.push((slots@[i as int].name@, nodes@[i as int])));
            assert(slot_weights(slots_view(slots@), nodes@).take(i as int + 1) =~= slot_weights(slots_view(slots@), nodes@).take(i as int).push(
                (slots@[i as int].name@, nodes@[i as int])));
        }
        i = i + 1;
    }
    assert(slot_weights(slots_view(slots@), nodes@).take(slots@.len() as int) =~= slot_weights(slots_view(slots@), nodes@));
    let ghost wv = slot_weights(slots_view(slots@), nodes@);
    let mut es: Vec<EntryBindings<N>> = Vec::new();
    let mut k: usize = 0;
    while k < entries.len()
        invariant
            runtime_view(weights@) == wv,
            k <= entries@.len(),
            es@.len() == k,
            forall|j: int| #![trigger es@[j]] 0 <= j < k ==> es@[j].name@ == entries@[j].name@ && es@[j].outputs@ == entries@[j].outputs@
                && bindings_view(es@[j].inputs@) == entry_bindings(wv, runtime_view(rng@), runtime_view(entries@[j].runtime@)),
        decreases entries@.len() - k,
    {
        let e = &entries[k];
        let mut inputs: Vec<InputBinding<N>> = Vec::new();
        assert(bindings_view(inputs@) =~= seq![]);
        push_tagged(&mut inputs, weights.as_slice(), InputRole::Weight);
        push_tagged(&mut inputs, rng, InputRole::Weight);
        push_tagged(&mut inputs, e.runtime.as_slice(), InputRole::Runtime);
        assert(seq![] + tagged(wv, InputRole::Weight) =~= tagged(wv, InputRole::Weight));
        es.push(EntryBindings { name: e.name.clone(), outputs: vstd::slice::slice_to_vec(e.outputs.as_slice()), inputs });
        k = k + 1;
    }
    let blob = serialize(es.as_slice());
    let r = runnable_file(slots, data, descriptors, blob.as_slice());
    assert(meta_text() =~= seq![("format"@, "hodu"@), ("created_by"@, "hodu 0.1.0"@)]);
    assert(entries_bound(es@, entries@, wv, runtime_view(rng@)));
    match r {
        Ok(b) => Ok(b),
        Err(e) => Err(SaveError::Container(e)),
    }
}

} // verus!
