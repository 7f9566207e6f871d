use hydrolysis::json::JsonValue;
use hydrolysis::model::{Node, NodeData};
use hydrolysis::semantics::{
    get_node_semantics, get_semantics, get_semantics_by_label, is_lattice_type, is_network_batch,
};
use hydrolysis::{Monotonicity, NdEffect};

fn node_with_label(id: &str, node_type: &str, label: &str, backtrace: JsonValue) -> Node {
    Node {
        id: id.to_string(),
        node_type: node_type.to_string(),
        short_label: format!("{}_short", id),
        full_label: None,
        label: Some(label.to_string()),
        data: Some(NodeData {
            location_id: Some(0),
            location_type: Some("Process".to_string()),
            backtrace,
        }),
    }
}

fn frame(file: &str, function: Option<&str>) -> JsonValue {
    let mut kvs = vec![
        ("file".to_string(), JsonValue::Text(file.to_string())),
        ("line".to_string(), JsonValue::Num("10".to_string())),
    ];
    if let Some(f) = function {
        kvs.push(("function".to_string(), JsonValue::Text(f.to_string())));
    }
    JsonValue::Obj(kvs)
}

#[test]
fn test_kind_semantics_table() {
    for kind in ["Source", "Transform", "Join", "Network", "Sink", "Tee"] {
        let s = get_semantics(kind);
        assert_eq!(s.nd, NdEffect::Deterministic);
        assert_eq!(s.monotone, Monotonicity::Always);
    }
    let agg = get_semantics("Aggregation");
    assert_eq!(agg.nd, NdEffect::Deterministic);
    assert_eq!(agg.monotone, Monotonicity::Depends);
    let nd = get_semantics("NonDeterministic");
    assert_eq!(nd.nd, NdEffect::LocallyNonDet);
    assert_eq!(nd.monotone, Monotonicity::Never);
}

#[test]
fn test_unknown_kind_conservative_default() {
    let s = get_semantics("somethingelse");
    assert_eq!(s.nd, NdEffect::LocallyNonDet);
    assert_eq!(s.monotone, Monotonicity::Never);
}

#[test]
fn test_label_semantics_table() {
    let m = get_semantics_by_label("map").unwrap();
    assert_eq!(m.nd, NdEffect::Deterministic);
    assert_eq!(m.monotone, Monotonicity::Always);

    // case-insensitive lookup
    let m2 = get_semantics_by_label("MAP").unwrap();
    assert_eq!(m2.monotone, Monotonicity::Always);

    let d = get_semantics_by_label("difference").unwrap();
    assert_eq!(d.monotone, Monotonicity::Never);

    let f = get_semantics_by_label("fold").unwrap();
    assert_eq!(f.monotone, Monotonicity::Depends);

    let s = get_semantics_by_label("sample_every").unwrap();
    assert_eq!(s.nd, NdEffect::LocallyNonDet);
    assert_eq!(s.monotone, Monotonicity::Never);

    assert!(get_semantics_by_label("no_such_operator").is_none());
}

#[test]
fn test_lattice_type_detection() {
    assert!(is_lattice_type(Some("SetUnion<i32>")));
    assert!(is_lattice_type(Some("Stream<MapUnion<String, Max<u64>>>")));
    assert!(is_lattice_type(Some("lattices::set_union::SetUnionHashSet<u8>")));
    assert!(is_lattice_type(Some("CausalWrapper<VCWrapper<i64>>")));
    assert!(!is_lattice_type(Some("Vec<String>")));
    assert!(!is_lattice_type(Some("maximal")));
}

#[test]
fn test_none_label_not_lattice() {
    assert!(
        !is_lattice_type(None),
        "None label should not be a lattice type"
    );
}

#[test]
fn test_network_batch_probe() {
    let net = JsonValue::Arr(vec![frame("src/location/networking.rs", None)]);
    assert!(is_network_batch(&net));
    let manual = JsonValue::Arr(vec![frame("examples/my_flow.rs", None)]);
    assert!(!is_network_batch(&manual));
    assert!(!is_network_batch(&JsonValue::Null));
}

#[test]
fn test_manual_vs_network_batch() {
    // a batch inserted by the framework's networking layer is structural
    let net_node = node_with_label(
        "0",
        "Transform",
        "batch",
        JsonValue::Arr(vec![frame("src/location/networking.rs", None)]),
    );
    let s = get_node_semantics(&net_node);
    assert_eq!(s.nd, NdEffect::Deterministic);
    assert_eq!(s.monotone, Monotonicity::Always);

    // a manual batch is semantic nondeterminism
    let manual_node = node_with_label(
        "1",
        "Transform",
        "batch",
        JsonValue::Arr(vec![frame("examples/my_flow.rs", None)]),
    );
    let s2 = get_node_semantics(&manual_node);
    assert_eq!(s2.nd, NdEffect::LocallyNonDet);
    assert_eq!(s2.monotone, Monotonicity::Never);
}

#[test]
fn test_commutative_idempotent_fold_probe() {
    let ci = node_with_label(
        "0",
        "Aggregation",
        "fold",
        JsonValue::Arr(vec![frame(
            "src/flow.rs",
            Some("my_crate::fold_commutative_idempotent_impl"),
        )]),
    );
    let s = get_node_semantics(&ci);
    assert_eq!(s.nd, NdEffect::Deterministic);
    assert_eq!(s.monotone, Monotonicity::Always);

    let plain = node_with_label(
        "1",
        "Aggregation",
        "fold",
        JsonValue::Arr(vec![frame("src/flow.rs", Some("my_crate::fold_impl"))]),
    );
    let s2 = get_node_semantics(&plain);
    assert_eq!(s2.monotone, Monotonicity::Depends);

    // observenondet inside a commutative+idempotent fold is structural
    let obs = node_with_label(
        "2",
        "NonDeterministic",
        "observenondet",
        JsonValue::Arr(vec![frame(
            "src/flow.rs",
            Some("my_crate::reduce_idempotent_commutative_impl"),
        )]),
    );
    let s3 = get_node_semantics(&obs);
    assert_eq!(s3.nd, NdEffect::Deterministic);

    let obs_plain = node_with_label(
        "3",
        "NonDeterministic",
        "observenondet",
        JsonValue::Arr(vec![frame("src/flow.rs", Some("observe"))]),
    );
    let s4 = get_node_semantics(&obs_plain);
    assert_eq!(s4.nd, NdEffect::LocallyNonDet);
}

#[test]
fn test_unknown_label_falls_back_to_kind() {
    let n = node_with_label("0", "Aggregation", "0_label", JsonValue::Arr(vec![]));
    let s = get_node_semantics(&n);
    assert_eq!(s.nd, NdEffect::Deterministic);
    assert_eq!(s.monotone, Monotonicity::Depends);
}
