use osmium::broadcast::{broadcast, BroadcastingError};
use osmium::exec::{execute, run, ExecutionError, GraphContext};
use osmium::graph::{output_id, FieldType, Graph, GraphError, SlotValue};
use osmium::table::Table;
use osmium::types::{Catalog, DataType, InputInfo, MetaInfo, MetaType, NodeType, OutputInfo};
use osmium::values::{duplicate_values, Num, Real, Value};

use base64::engine::general_purpose::STANDARD_NO_PAD;
use base64::Engine;

fn unit_byte(x: f64) -> u8 {
    (255.0 * x) as u8
}

fn fval(x: f64) -> Value {
    Value::Num(Num::Real(Real { bits: x.to_bits(), byte: unit_byte(x) }))
}

fn fnum(x: f64) -> Num {
    Num::Real(Real { bits: x.to_bits(), byte: unit_byte(x) })
}

fn whole(i: u64) -> Value {
    Value::Num(Num::Whole(i))
}

fn text(s: &str) -> Value {
    Value::Text(s.to_string())
}

fn ctx(w: usize, h: usize) -> GraphContext {
    GraphContext { dimensions: (w, h) }
}

fn meta_decl(name: &str, t: MetaType) -> MetaInfo {
    MetaInfo { name: name.to_string(), meta_type: t, default_value: None }
}

fn input_decl(name: &str, t: DataType) -> InputInfo {
    InputInfo { name: name.to_string(), data_type: t, default_value: None }
}

fn output_decl(name: &str, t: DataType) -> OutputInfo {
    OutputInfo { name: name.to_string(), data_type: t }
}

fn node_type(
    name: &str,
    meta: Vec<MetaInfo>,
    inputs: Vec<InputInfo>,
    outputs: Vec<OutputInfo>,
) -> NodeType {
    NodeType { name: name.to_string(), meta, inputs, outputs }
}

fn catalog() -> Catalog {
    let mut cat: Catalog = Table::new();
    cat.add(
        "Input".to_string(),
        node_type("Input", vec![], vec![], vec![output_decl("size", DataType::Vec2)]),
    );
    cat.add(
        "Output".to_string(),
        node_type("Output", vec![], vec![input_decl("sink", DataType::Texture)], vec![]),
    );
    cat.add(
        "Value".to_string(),
        node_type(
            "Value",
            vec![meta_decl("value", MetaType::Simple(DataType::Scalar))],
            vec![],
            vec![output_decl("value", DataType::Scalar)],
        ),
    );
    cat.add(
        "Save".to_string(),
        node_type(
            "Save",
            vec![meta_decl("path", MetaType::FilePath)],
            vec![input_decl("texture", DataType::Texture)],
            vec![],
        ),
    );
    cat.add(
        "Relay".to_string(),
        node_type(
            "Relay",
            vec![],
            vec![input_decl("in", DataType::Scalar)],
            vec![output_decl("out", DataType::Scalar)],
        ),
    );
    cat.add(
        "ColorSrc".to_string(),
        node_type("ColorSrc", vec![], vec![], vec![output_decl("color", DataType::Color)]),
    );
    cat
}

fn table_pairs(t: &Table<Vec<Value>>) -> Vec<(String, Vec<Value>)> {
    let mut out = Vec::new();
    for i in 0..t.len() {
        out.push((t.key_at(i).clone(), duplicate_values(t.val_at(i))));
    }
    out
}

#[test]
fn passthrough() {
    let meta = vec![whole(12)];
    let inputs = vec![whole(24)];
    let result = execute(&"Output".to_string(), &meta, &inputs, &ctx(16, 16)).unwrap();
    assert_eq!(result.0, vec![whole(12), whole(24)]);
}

#[test]
fn node_info() {
    let graph_info = ctx(16, 16);
    let meta = vec![];
    let inputs = vec![];
    let result = execute(&"Input".to_string(), &meta, &inputs, &graph_info).unwrap();
    assert_eq!(result.0, vec![Value::List(vec![Num::Whole(16), Num::Whole(16)])]);
}

#[test]
fn execute_unknown_type() {
    let r = execute(&"Mystery".to_string(), &vec![], &vec![], &ctx(4, 4));
    assert_eq!(r, Err(ExecutionError::UnknownNode("Mystery".to_string())));
}

#[test]
fn broadcast_identity_all_types() {
    let c = ctx(8, 8);
    let cases = vec![
        (fval(0.123), DataType::Scalar),
        (Value::List(vec![fnum(0.1), fnum(0.2)]), DataType::Vec2),
        (Value::List(vec![fnum(0.1), fnum(0.2), fnum(0.3)]), DataType::Vec3),
        (Value::List(vec![Num::Whole(1), Num::Whole(2), Num::Whole(3), Num::Whole(255)]), DataType::Color),
        (text("AAAA"), DataType::Texture),
    ];
    for (v, t) in cases {
        let expected = match &v {
            Value::Num(n) => Value::Num(*n),
            Value::Text(s) => Value::Text(s.clone()),
            Value::List(l) => Value::List(l.clone()),
        };
        assert_eq!(broadcast(v, &t, &t, &c), Ok(expected));
    }
}

#[test]
fn broadcast_scalar_to_color_truncates() {
    let r = broadcast(fval(0.123), &DataType::Scalar, &DataType::Color, &ctx(4, 4)).unwrap();
    assert_eq!(
        r,
        Value::List(vec![Num::Whole(31), Num::Whole(31), Num::Whole(31), Num::Whole(255)])
    );
}

#[test]
fn broadcast_vec3_to_color_truncates() {
    let v = Value::List(vec![fnum(1.0), fnum(0.5), fnum(0.0)]);
    let r = broadcast(v, &DataType::Vec3, &DataType::Color, &ctx(4, 4)).unwrap();
    assert_eq!(
        r,
        Value::List(vec![Num::Whole(255), Num::Whole(127), Num::Whole(0), Num::Whole(255)])
    );
}

#[test]
fn broadcast_scalar_to_vec3_replicates() {
    let r = broadcast(fval(0.25), &DataType::Scalar, &DataType::Vec3, &ctx(4, 4)).unwrap();
    assert_eq!(r, Value::List(vec![fnum(0.25), fnum(0.25), fnum(0.25)]));
}

#[test]
fn broadcast_color_to_vec3_exact_ratios() {
    let v = Value::List(vec![Num::Whole(255), Num::Whole(127), Num::Whole(0), Num::Whole(9)]);
    let r = broadcast(v, &DataType::Color, &DataType::Vec3, &ctx(4, 4)).unwrap();
    assert_eq!(r, Value::List(vec![Num::Ratio(255), Num::Ratio(127), Num::Ratio(0)]));
}

#[test]
fn broadcast_scalar_to_texture_matches_base64() {
    let r = broadcast(fval(0.123), &DataType::Scalar, &DataType::Texture, &ctx(2, 1)).unwrap();
    let expected = STANDARD_NO_PAD.encode([31u8, 31, 31, 255, 31, 31, 31, 255]);
    assert_eq!(r, Value::Text(expected));
}

#[test]
fn broadcast_rejects_incompatible_pair() {
    let v = Value::List(vec![Num::Whole(1), Num::Whole(2), Num::Whole(3), Num::Whole(4)]);
    let r = broadcast(v, &DataType::Color, &DataType::Scalar, &ctx(4, 4));
    assert_eq!(
        r,
        Err(BroadcastingError::CanNotBroadcast(DataType::Color, DataType::Scalar))
    );
}

#[test]
fn broadcast_rejects_malformed_value() {
    let r = broadcast(text("oops"), &DataType::Scalar, &DataType::Vec2, &ctx(4, 4));
    assert_eq!(r, Err(BroadcastingError::InvalidValue));
}

#[test]
fn finalize_rejects_cycle() {
    let cat = catalog();
    let mut g = Graph::new();
    let a = g.insert("Relay".to_string(), vec![], vec![SlotValue::Unset]);
    let b = g.insert("Relay".to_string(), vec![], vec![SlotValue::Unset]);
    assert!(g.connect(a.clone(), 0, b.clone(), 0));
    assert!(g.connect(b.clone(), 0, a.clone(), 0));
    let r = g.finalize(&cat);
    assert!(matches!(r, Err(GraphError::Cyclic)));
}

#[test]
fn finalize_rejects_meta_arity_mismatch() {
    let cat = catalog();
    let mut g = Graph::new();
    g.insert("Value".to_string(), vec![], vec![]);
    let r = g.finalize(&cat);
    assert!(matches!(r, Err(GraphError::MissingValue(FieldType::Meta))));
}

#[test]
fn finalize_rejects_input_arity_mismatch() {
    let cat = catalog();
    let mut g = Graph::new();
    g.insert("Save".to_string(), vec![text("./x.png")], vec![]);
    let r = g.finalize(&cat);
    assert!(matches!(r, Err(GraphError::MissingValue(FieldType::Input))));
}

#[test]
fn finalize_rejects_unknown_type() {
    let cat = catalog();
    let mut g = Graph::new();
    g.insert("Mystery".to_string(), vec![], vec![]);
    let r = g.finalize(&cat);
    match r {
        Err(GraphError::InvalidNode(n)) => assert_eq!(n, "Mystery"),
        _ => panic!("expected an invalid-node error"),
    }
}

#[test]
fn finalize_rejects_incompatible_slots() {
    let cat = catalog();
    let mut g = Graph::new();
    let src = g.insert("ColorSrc".to_string(), vec![], vec![]);
    let sink = g.insert("Relay".to_string(), vec![], vec![SlotValue::Unset]);
    assert!(g.connect(src, 0, sink, 0));
    let r = g.finalize(&cat);
    assert!(matches!(r, Err(GraphError::InvalidSlots)));
}

#[test]
fn connect_refuses_unknown_nodes_and_double_producers() {
    let mut g = Graph::new();
    let a = g.insert("Relay".to_string(), vec![], vec![SlotValue::Unset]);
    let b = g.insert("Relay".to_string(), vec![], vec![SlotValue::Unset]);
    assert!(!g.connect("nope".to_string(), 0, a.clone(), 0));
    assert!(!g.connect(a.clone(), 0, "nope".to_string(), 0));
    assert!(!g.connect(a.clone(), 0, b.clone(), 7));
    assert!(g.connect(a.clone(), 0, b.clone(), 0));
    // a second producer for the same input slot is refused, identical or not
    assert!(!g.connect(a.clone(), 0, b.clone(), 0));
    assert!(!g.connect(b.clone(), 0, b.clone(), 0));
}

#[test]
fn insert_returns_fresh_ids() {
    let mut g = Graph::new();
    let a = g.insert("Relay".to_string(), vec![], vec![SlotValue::Unset]);
    let b = g.insert("Relay".to_string(), vec![], vec![SlotValue::Unset]);
    assert_ne!(a, b);
    assert!(g.nodes.contains(&a));
    assert!(g.nodes.contains(&b));
    assert_eq!(g.nodes.len(), 4);
}

#[test]
fn run_fails_on_unset_slot() {
    let cat = catalog();
    let g = Graph::new();
    let fg = g.finalize(&cat).unwrap();
    let r = run(fg, ctx(4, 4));
    assert!(matches!(r, Err(ExecutionError::DisconnectedSlot(0))));
}

#[test]
fn run_dispatches_each_node_once() {
    let cat = catalog();
    let mut g = Graph::new();
    let value = g.insert("Value".to_string(), vec![fval(0.25)], vec![]);
    let save_a = g.insert("Save".to_string(), vec![text("./a.png")], vec![SlotValue::Unset]);
    let save_b = g.insert("Save".to_string(), vec![text("./b.png")], vec![SlotValue::Unset]);
    assert!(g.connect(value.clone(), 0, save_a, 0));
    assert!(g.connect(value.clone(), 0, save_b, 0));
    assert!(g.connect(value.clone(), 0, output_id(), 0));
    let fg = g.finalize(&cat).unwrap();
    let out = run(fg, ctx(2, 2)).unwrap();
    assert_eq!(out.dispatches.len(), 5);
    for i in 0..out.dispatches.len() {
        for j in 0..i {
            assert_ne!(out.dispatches[i], out.dispatches[j]);
        }
    }
    assert_eq!(out.dispatches.iter().filter(|d| **d == value).count(), 1);
    assert_eq!(out.images.len(), 2);
}

#[test]
fn scalar_value_saved_as_uniform_image() {
    let cat = catalog();
    let mut g = Graph::new();
    let value = g.insert("Value".to_string(), vec![fval(0.123)], vec![]);
    let save = g.insert("Save".to_string(), vec![text("./out.png")], vec![SlotValue::Unset]);
    assert!(g.connect(value.clone(), 0, save.clone(), 0));
    assert!(g.connect(value.clone(), 0, output_id(), 0));
    let fg = g.finalize(&cat).unwrap();
    let out = run(fg, ctx(64, 64)).unwrap();
    assert_eq!(out.images.len(), 1);
    let req = &out.images[0];
    assert_eq!(req.path, "./out.png");
    assert_eq!(req.width, 64);
    assert_eq!(req.height, 64);
    assert_eq!(req.pixels.len(), 64 * 64 * 4);
    for px in req.pixels.chunks(4) {
        assert_eq!(px, [31, 31, 31, 255]);
    }
    // the save node itself yields no outputs
    assert_eq!(out.values.get(&save), Some(&vec![]));
}

#[test]
fn graph_round_trip_preserves_results() {
    let cat = catalog();
    let mut g = Graph::new();
    let value = g.insert("Value".to_string(), vec![fval(0.5)], vec![]);
    let save = g.insert("Save".to_string(), vec![text("./rt.png")], vec![SlotValue::Unset]);
    assert!(g.connect(value.clone(), 0, save, 0));
    assert!(g.connect(value, 0, output_id(), 0));
    let saved = g.to_saved();
    let g2 = Graph::from_saved(&saved).unwrap();
    let out1 = run(g.finalize(&cat).unwrap(), ctx(4, 4)).unwrap();
    let out2 = run(g2.finalize(&cat).unwrap(), ctx(4, 4)).unwrap();
    assert_eq!(table_pairs(&out1.values), table_pairs(&out2.values));
    assert_eq!(out1.images, out2.images);
    assert_eq!(out1.dispatches, out2.dispatches);
}

#[test]
fn save_texture_rejects_malformed_textures() {
    let c = ctx(2, 2);
    let r = osmium::exec::save_texture(
        &vec![text("./x.png")],
        &vec![text("!!! not base64 !!!")],
        &c,
    );
    assert!(matches!(r, Err(ExecutionError::ValueError)));
    let short = STANDARD_NO_PAD.encode([1u8, 2, 3, 4]);
    let r = osmium::exec::save_texture(&vec![text("./x.png")], &vec![Value::Text(short)], &c);
    assert!(matches!(r, Err(ExecutionError::ValueError)));
    let r = osmium::exec::save_texture(&vec![], &vec![], &c);
    assert!(matches!(r, Err(ExecutionError::ValueError)));
}

#[test]
fn run_surfaces_broadcasting_failure() {
    // the catalog promises a scalar, the literal is text: finalize cannot
    // see it, the runtime coercion refuses it
    let cat = catalog();
    let mut g = Graph::new();
    let value = g.insert("Value".to_string(), vec![text("oops")], vec![]);
    let save = g.insert("Save".to_string(), vec![text("./x.png")], vec![SlotValue::Unset]);
    assert!(g.connect(value.clone(), 0, save, 0));
    assert!(g.connect(value, 0, output_id(), 0));
    let fg = g.finalize(&cat).unwrap();
    let r = run(fg, ctx(2, 2));
    assert_eq!(
        r.err(),
        Some(ExecutionError::BroadcastingError(BroadcastingError::InvalidValue))
    );
}

#[test]
fn insert_ids_are_sixteen_alphanumeric() {
    let mut g = Graph::new();
    for _ in 0..8 {
        let id = g.insert("Relay".to_string(), vec![], vec![SlotValue::Unset]);
        assert_eq!(id.chars().count(), 16);
        assert!(id.chars().all(|c| c.is_ascii_alphanumeric()));
    }
}
