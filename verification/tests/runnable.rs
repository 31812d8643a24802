use hodu::container::{meta, write_container, ContainerError, Entry, DT_F32, DT_U8, K_PARAM};
use hodu::model::{ModelSlot, SlotKind};
use hodu::runnable::{
    is_rng_binding, load_runnable, runnable_bindings, runnable_file, runnable_parts, save_multi, save_runnable, EntryBindings,
    EntrySpec, Feed, InputBinding, InputRole, RunError, RunnableError, SaveError, WeightFeed,
};

fn entry(name: &str, dtype: u8, data: Vec<u8>) -> Entry {
    Entry { name: name.to_string(), kind: K_PARAM, dtype, shape: vec![data.len()], data }
}

fn binding(node: u32, role: InputRole, name: &str) -> InputBinding<u32> {
    InputBinding { node, role, name: name.to_string() }
}

fn artifact(graph: &[u8]) -> Vec<u8> {
    let rows = vec![entry("0.0", DT_F32, vec![0; 8]), entry("0.q", DT_U8, vec![1, 2])];
    write_container(&meta(), &rows, &[], graph).unwrap()
}

#[test]
fn runnable_parts_needs_a_graph() {
    let (rows, blob) = runnable_parts(&artifact(&[1, 2, 3])).unwrap();
    assert_eq!(rows.len(), 2);
    assert_eq!(blob, vec![1, 2, 3]);
    assert!(matches!(runnable_parts(&artifact(&[])), Err(RunnableError::NoGraph)));
    assert!(matches!(runnable_parts(b"HODU"), Err(RunnableError::Container(ContainerError::UnexpectedEof))));
}

#[test]
fn load_resolves_weights_rng_and_runtime() {
    let (rows, _) = runnable_parts(&artifact(&[9])).unwrap();
    let inputs = vec![
        binding(10, InputRole::Weight, "0.q"),
        binding(11, InputRole::Runtime, "x"),
        binding(12, InputRole::Weight, "\u{0}0"),
        binding(13, InputRole::Weight, "0.0"),
        binding(14, InputRole::Runtime, "tokens"),
    ];
    let m = load_runnable(rows, "graph", vec![99u32], &inputs).unwrap();
    assert_eq!(m.input_names(), vec!["x", "tokens"]);
    assert_eq!(*m.graph(), "graph");
    assert_eq!(m.outputs(), &[99]);
    assert_eq!(m.rows().len(), 2);

    let plan = m.run(&["tokens", "x", "x"]).unwrap();
    assert_eq!(
        plan,
        vec![
            (10, Feed::Weight(WeightFeed::Row(1))),
            (12, Feed::Weight(WeightFeed::EvalDefault)),
            (13, Feed::Weight(WeightFeed::Row(0))),
            (11, Feed::Runtime(1)),
            (14, Feed::Runtime(0)),
        ]
    );
    assert_eq!(m.run(&["x"]), Err(RunError::MissingInput { input: 1 }));
    assert_eq!(m.run(&[]), Err(RunError::MissingInput { input: 0 }));
}

#[test]
fn load_errs_on_a_missing_weight() {
    let (rows, _) = runnable_parts(&artifact(&[9])).unwrap();
    let inputs = vec![binding(1, InputRole::Runtime, "x"), binding(2, InputRole::Weight, "head.weight")];
    assert!(matches!(load_runnable(rows, (), Vec::<u32>::new(), &inputs), Err(RunnableError::MissingWeight { binding: 1 })));
}

#[test]
fn rng_names_start_with_nul() {
    assert!(is_rng_binding("\u{0}3"));
    assert!(!is_rng_binding("0.weight"));
    assert!(!is_rng_binding(""));
}

#[test]
fn saved_artifact_runs_from_the_file_alone() {
    let slots = vec![
        ModelSlot { name: "0.0".to_string(), kind: SlotKind::Param, shape: vec![2] },
        ModelSlot { name: "0.1".to_string(), kind: SlotKind::Buffer, shape: vec![1] },
    ];
    let data = vec![vec![0u8; 8], vec![0u8; 4]];
    let weights = vec![("0.0".to_string(), 1u32), ("0.1".to_string(), 2u32)];
    let runtime = vec![("x".to_string(), 3u32)];
    let rng = vec![("\u{0}0".to_string(), 4u32)];
    let bindings = runnable_bindings(&weights, &runtime, &rng);
    let roles: Vec<(u32, InputRole, &str)> = bindings.iter().map(|b| (b.node, b.role, b.name.as_str())).collect();
    assert_eq!(
        roles,
        vec![(1, InputRole::Weight, "0.0"), (2, InputRole::Weight, "0.1"), (3, InputRole::Runtime, "x"), (4, InputRole::Weight, "\u{0}0")]
    );
    let file = runnable_file(&slots, &data, &[], &[42]).unwrap();
    let (rows, blob) = runnable_parts(&file).unwrap();
    assert_eq!(blob, vec![42]);
    let m = load_runnable(rows, (), vec![7u32], &bindings).unwrap();
    assert_eq!(m.input_names(), vec!["x"]);
    assert_eq!(
        m.run(&["x"]).unwrap(),
        vec![
            (1, Feed::Weight(WeightFeed::Row(0))),
            (2, Feed::Weight(WeightFeed::Row(1))),
            (4, Feed::Weight(WeightFeed::EvalDefault)),
            (3, Feed::Runtime(0)),
        ]
    );
}

fn two_slots() -> (Vec<ModelSlot>, Vec<Vec<u8>>) {
    (
        vec![
            ModelSlot { name: "0.0".to_string(), kind: SlotKind::Param, shape: vec![1] },
            ModelSlot { name: "0.1".to_string(), kind: SlotKind::Param, shape: vec![1] },
        ],
        vec![vec![1u8, 0, 0, 0], vec![2u8, 0, 0, 0]],
    )
}

#[test]
fn save_runnable_round_trips() {
    let (slots, data) = two_slots();
    let runtime = vec![("x".to_string(), 30u32)];
    let rng = vec![("\u{0}0".to_string(), 40u32)];
    // a stand-in graph writer: records the outputs and each binding's node
    let ser = |outs: &[u32], bs: &[InputBinding<u32>]| -> Vec<u8> {
        outs.iter().map(|&o| o as u8).chain(bs.iter().map(|b| b.node as u8)).collect()
    };
    let file = save_runnable(&slots, &data, &[], &[10, 11], &runtime, &rng, &[99], ser).unwrap();
    let (rows, blob) = runnable_parts(&file).unwrap();
    assert_eq!(blob, vec![99, 10, 11, 30, 40]);
    let bindings = runnable_bindings(&[("0.0".to_string(), 10), ("0.1".to_string(), 11)], &runtime, &rng);
    let m = load_runnable(rows, (), vec![99u32], &bindings).unwrap();
    assert_eq!(m.input_names(), vec!["x"]);
    assert_eq!(m.run(&["x"]).unwrap()[0], (10, Feed::Weight(WeightFeed::Row(0))));
    assert_eq!(save_runnable(&slots, &data, &[], &[10, 11], &runtime, &rng, &[], ser), Err(SaveError::NoOutputs));
}

#[test]
fn save_multi_forward_round_trips() {
    let (slots, data) = two_slots();
    let rng = vec![("\u{0}0".to_string(), 40u32)];
    let entries = vec![
        EntrySpec { name: "forward".to_string(), outputs: vec![99u32], runtime: vec![("x".to_string(), 30u32)] },
        EntrySpec { name: "forward_backward".to_string(), outputs: vec![98u32, 97], runtime: vec![("y".to_string(), 31u32)] },
    ];
    let ser = |es: &[EntryBindings<u32>]| -> Vec<u8> {
        let mut v = Vec::new();
        for e in es {
            v.push(e.outputs.len() as u8);
            v.extend(e.inputs.iter().map(|b| b.node as u8));
        }
        v
    };
    let file = save_multi(&slots, &data, &[], &[10, 11], &rng, &entries, ser).unwrap();
    let (_, blob) = runnable_parts(&file).unwrap();
    assert_eq!(blob, vec![1, 10, 11, 40, 30, 2, 10, 11, 40, 31]);
    assert_eq!(save_multi(&slots, &data, &[], &[10, 11], &rng, &[], ser), Err(SaveError::NoOutputs));
}

// Feeds each runtime input its supplied value, as a caller does with the plan.
fn fed<'a>(plan: &[(u32, Feed)], supplied: &[(&str, &'a str)]) -> Vec<(u32, &'a str)> {
    plan.iter()
        .filter_map(|(node, f)| match f {
            Feed::Runtime(i) => Some((*node, supplied[*i].1)),
            Feed::Weight(_) => None,
        })
        .collect()
}

fn two_input_model() -> hodu::runnable::RunnableModel<&'static str, u32> {
    let (rows, _) = runnable_parts(&artifact(&[9])).unwrap();
    let inputs = vec![binding(10, InputRole::Weight, "0.0"), binding(11, InputRole::Runtime, "x"), binding(12, InputRole::Runtime, "y")];
    load_runnable(rows, "graph", vec![1u32], &inputs).unwrap()
}

#[test]
fn run_ignores_extra_inputs() {
    let m = two_input_model();
    let base = m.run(&["x", "y"]).unwrap();
    assert_eq!(m.run(&["x", "y", "z"]).unwrap(), base);
    assert_eq!(m.run(&["x", "y", "x"]).unwrap(), base);
    // missing inputs stay missing when the extra input has another name
    assert_eq!(m.run(&["x", "z"]), Err(RunError::MissingInput { input: 1 }));
    assert_eq!(m.run(&["x"]), Err(RunError::MissingInput { input: 1 }));
}

#[test]
fn run_feeds_the_same_values_in_any_order() {
    let m = two_input_model();
    let a = [("x", "x-value"), ("y", "y-value")];
    let b = [("y", "y-value"), ("x", "x-value")];
    let names_a: Vec<&str> = a.iter().map(|p| p.0).collect();
    let names_b: Vec<&str> = b.iter().map(|p| p.0).collect();
    let plan_a = m.run(&names_a).unwrap();
    let plan_b = m.run(&names_b).unwrap();
    assert_eq!(plan_a[1..], [(11, Feed::Runtime(0)), (12, Feed::Runtime(1))]);
    assert_eq!(plan_b[1..], [(11, Feed::Runtime(1)), (12, Feed::Runtime(0))]);
    assert_eq!(fed(&plan_a, &a), vec![(11, "x-value"), (12, "y-value")]);
    assert_eq!(fed(&plan_b, &b), fed(&plan_a, &a));
    assert_eq!(plan_a[..1], plan_b[..1]);
}
