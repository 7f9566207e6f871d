use hydrolysis::analysis::run_analysis;
use hydrolysis::annotate::annotate;
use hydrolysis::codec::{annotated_to_json, ir_from_json, ir_to_json};
use hydrolysis::json::JsonValue;
use hydrolysis::model::Node;
use hydrolysis::strutil::{str_contains, str_ieq, str_starts_with};

fn text(s: &str) -> JsonValue {
    JsonValue::Text(s.to_string())
}

fn node_doc(id: &str, node_type: &str) -> JsonValue {
    JsonValue::Obj(vec![
        ("id".to_string(), text(id)),
        ("nodeType".to_string(), text(node_type)),
        ("shortLabel".to_string(), text(&format!("{}_short", id))),
    ])
}

fn edge_doc(id: &str, source: &str, target: &str, tag: &str) -> JsonValue {
    JsonValue::Obj(vec![
        ("id".to_string(), text(id)),
        ("source".to_string(), text(source)),
        ("target".to_string(), text(target)),
        (
            "semanticTags".to_string(),
            JsonValue::Arr(vec![text(tag)]),
        ),
    ])
}

fn obj_get<'a>(v: &'a JsonValue, key: &str) -> Option<&'a JsonValue> {
    match v {
        JsonValue::Obj(kvs) => kvs.iter().find(|(k, _)| k == key).map(|(_, w)| w),
        _ => None,
    }
}

#[test]
fn test_parse_minimal_document() {
    let doc = JsonValue::Obj(vec![
        (
            "nodes".to_string(),
            JsonValue::Arr(vec![node_doc("0", "Source"), node_doc("1", "Sink")]),
        ),
        (
            "edges".to_string(),
            JsonValue::Arr(vec![edge_doc("e0", "0", "1", "Local")]),
        ),
        ("selectedHierarchy".to_string(), text("location")),
    ]);
    let ir = ir_from_json(&doc).expect("document should parse");
    assert_eq!(ir.nodes.len(), 2);
    assert_eq!(ir.nodes[0].id, "0");
    assert_eq!(ir.nodes[0].node_type, "Source");
    assert_eq!(ir.nodes[0].short_label, "0_short");
    assert_eq!(ir.nodes[0].full_label, None);
    assert_eq!(ir.edges.len(), 1);
    assert_eq!(ir.edges[0].source, "0");
    assert_eq!(
        ir.edges[0].semantic_tags,
        Some(vec!["Local".to_string()])
    );
    assert_eq!(ir.selected_hierarchy, Some("location".to_string()));
    assert!(ir.legend.is_none());
}

#[test]
fn test_parse_rejects_missing_required_member() {
    let doc = JsonValue::Obj(vec![(
        "nodes".to_string(),
        JsonValue::Arr(vec![JsonValue::Obj(vec![(
            "id".to_string(),
            text("0"),
        )])]),
    )]);
    assert!(ir_from_json(&doc).is_none());

    let no_nodes = JsonValue::Obj(vec![("edges".to_string(), JsonValue::Arr(vec![]))]);
    assert!(ir_from_json(&no_nodes).is_none());

    let bad_type = JsonValue::Obj(vec![
        ("nodes".to_string(), JsonValue::Arr(vec![])),
        ("edges".to_string(), text("not an array")),
    ]);
    assert!(ir_from_json(&bad_type).is_none());
}

#[test]
fn test_parse_data_and_backtrace() {
    let frame = JsonValue::Obj(vec![
        ("file".to_string(), text("examples/flow.rs")),
        ("line".to_string(), JsonValue::Num("42".to_string())),
        ("function".to_string(), text("main")),
    ]);
    let mut node = match node_doc("0", "Source") {
        JsonValue::Obj(kvs) => kvs,
        _ => unreachable!(),
    };
    node.push((
        "data".to_string(),
        JsonValue::Obj(vec![
            ("locationId".to_string(), JsonValue::Num("7".to_string())),
            ("locationType".to_string(), text("Process")),
            ("backtrace".to_string(), JsonValue::Arr(vec![frame])),
        ]),
    ));
    let doc = JsonValue::Obj(vec![
        ("nodes".to_string(), JsonValue::Arr(vec![JsonValue::Obj(node)])),
        ("edges".to_string(), JsonValue::Arr(vec![])),
    ]);
    let ir = ir_from_json(&doc).expect("document should parse");
    let data = ir.nodes[0].data.as_ref().expect("data should be present");
    assert_eq!(data.location_id, Some(7));
    assert_eq!(data.location_type, Some("Process".to_string()));

    // the backtrace feeds source-location extraction
    let loc = ir.nodes[0]
        .extract_source_location()
        .expect("location should be found");
    assert_eq!(loc.file, "examples/flow.rs");
    assert_eq!(loc.line, 42);
    assert_eq!(loc.function, Some("main".to_string()));
}

#[test]
fn test_source_location_prefers_user_frames() {
    let framework_frame = JsonValue::Obj(vec![
        ("file".to_string(), text("hydro_lang/src/live_collections/stream.rs")),
        ("line".to_string(), JsonValue::Num("10".to_string())),
    ]);
    let user_frame = JsonValue::Obj(vec![
        ("file".to_string(), text("examples/flow.rs")),
        ("lineNumber".to_string(), JsonValue::Num("99".to_string())),
    ]);
    let node = Node {
        id: "0".to_string(),
        node_type: "Source".to_string(),
        short_label: "s".to_string(),
        full_label: None,
        label: None,
        data: Some(hydrolysis::model::NodeData {
            location_id: None,
            location_type: None,
            backtrace: JsonValue::Arr(vec![framework_frame, user_frame]),
        }),
    };
    let loc = node.extract_source_location().expect("should find user frame");
    assert_eq!(loc.file, "examples/flow.rs");
    assert_eq!(loc.line, 99);
    assert_eq!(loc.function, None);
}

#[test]
fn test_source_location_missing_line() {
    let frame = JsonValue::Obj(vec![("file".to_string(), text("examples/flow.rs"))]);
    let node = Node {
        id: "0".to_string(),
        node_type: "Source".to_string(),
        short_label: "s".to_string(),
        full_label: None,
        label: None,
        data: Some(hydrolysis::model::NodeData {
            location_id: None,
            location_type: None,
            backtrace: JsonValue::Arr(vec![frame]),
        }),
    };
    assert!(node.extract_source_location().is_none());
}

#[test]
fn test_annotated_document_shape() {
    let doc = JsonValue::Obj(vec![
        (
            "nodes".to_string(),
            JsonValue::Arr(vec![node_doc("0", "Source"), node_doc("1", "Sink")]),
        ),
        (
            "edges".to_string(),
            JsonValue::Arr(vec![edge_doc("e0", "0", "1", "Local")]),
        ),
    ]);
    let ir = ir_from_json(&doc).expect("document should parse");
    let results = run_analysis(&ir);
    let annotated = annotate(ir, results);
    let out = annotated_to_json(&annotated);

    let nodes = obj_get(&out, "nodes").expect("output should have nodes");
    match nodes {
        JsonValue::Arr(items) => {
            assert_eq!(items.len(), 2);
            for item in items {
                assert!(obj_get(item, "id").is_some());
                assert!(obj_get(item, "nodeType").is_some());
                assert!(obj_get(item, "analysis").is_some());
                let analysis = obj_get(item, "analysis").unwrap();
                assert!(obj_get(analysis, "nd_effect").is_some());
                assert!(obj_get(analysis, "monotone").is_some());
                assert!(obj_get(analysis, "issues").is_some());
            }
        },
        _ => panic!("nodes should be an array"),
    }
    let edges = obj_get(&out, "edges").expect("output should have edges");
    match edges {
        JsonValue::Arr(items) => {
            assert_eq!(items.len(), 1);
            assert!(obj_get(&items[0], "analysis").is_some());
            assert!(obj_get(&items[0], "source").is_some());
            assert!(obj_get(&items[0], "target").is_some());
        },
        _ => panic!("edges should be an array"),
    }
    let overall = obj_get(&out, "overall").expect("output should have overall");
    assert!(matches!(
        obj_get(overall, "deterministic"),
        Some(JsonValue::Bool(true))
    ));
    assert!(obj_get(overall, "calm_safe").is_some());
    // configurations are always enriched into the output
    assert!(obj_get(&out, "nodeTypeConfig").is_some());
    assert!(obj_get(&out, "edgeStyleConfig").is_some());
}

#[test]
fn test_ir_round_trip() {
    // parse -> emit -> parse yields a structurally equal IR
    let frame = JsonValue::Obj(vec![
        ("file".to_string(), text("examples/flow.rs")),
        ("line".to_string(), JsonValue::Num("3".to_string())),
    ]);
    let mut node0 = match node_doc("0", "Source") {
        JsonValue::Obj(kvs) => kvs,
        _ => unreachable!(),
    };
    node0.push(("fullLabel".to_string(), text("the source")));
    node0.push((
        "data".to_string(),
        JsonValue::Obj(vec![
            ("locationId".to_string(), JsonValue::Num("1".to_string())),
            ("locationType".to_string(), text("Process")),
            ("backtrace".to_string(), JsonValue::Arr(vec![frame])),
        ]),
    ));
    let mut edge0 = match edge_doc("e0", "0", "1", "Network") {
        JsonValue::Obj(kvs) => kvs,
        _ => unreachable!(),
    };
    edge0.push(("label".to_string(), text("SetUnion<i32>")));
    let doc = JsonValue::Obj(vec![
        (
            "nodes".to_string(),
            JsonValue::Arr(vec![JsonValue::Obj(node0), node_doc("1", "Sink")]),
        ),
        ("edges".to_string(), JsonValue::Arr(vec![JsonValue::Obj(edge0)])),
        ("legend".to_string(), JsonValue::Obj(vec![("show".to_string(), JsonValue::Bool(true))])),
    ]);

    let ir = ir_from_json(&doc).expect("first parse should succeed");
    let emitted = ir_to_json(&ir);
    let ir2 = ir_from_json(&emitted).expect("reparse should succeed");

    assert_eq!(ir.nodes.len(), ir2.nodes.len());
    for (a, b) in ir.nodes.iter().zip(ir2.nodes.iter()) {
        assert_eq!(a.id, b.id);
        assert_eq!(a.node_type, b.node_type);
        assert_eq!(a.short_label, b.short_label);
        assert_eq!(a.full_label, b.full_label);
        assert_eq!(a.label, b.label);
        assert_eq!(
            a.data.as_ref().map(|d| d.location_id),
            b.data.as_ref().map(|d| d.location_id)
        );
        assert_eq!(
            a.data.as_ref().map(|d| d.location_type.clone()),
            b.data.as_ref().map(|d| d.location_type.clone())
        );
    }
    assert_eq!(ir.edges.len(), ir2.edges.len());
    for (a, b) in ir.edges.iter().zip(ir2.edges.iter()) {
        assert_eq!(a.id, b.id);
        assert_eq!(a.source, b.source);
        assert_eq!(a.target, b.target);
        assert_eq!(a.edge_properties, b.edge_properties);
        assert_eq!(a.semantic_tags, b.semantic_tags);
        assert_eq!(a.label, b.label);
    }
    assert_eq!(ir.selected_hierarchy, ir2.selected_hierarchy);
    assert_eq!(ir.legend.is_some(), ir2.legend.is_some());

    // emitting the reparsed IR is stable
    let emitted2 = ir_to_json(&ir2);
    match (&emitted, &emitted2) {
        (JsonValue::Obj(a), JsonValue::Obj(b)) => assert_eq!(a.len(), b.len()),
        _ => panic!("emitted documents should be objects"),
    }
}

#[test]
fn test_json_number_access() {
    assert_eq!(JsonValue::Num("42".to_string()).as_u64(), Some(42));
    assert_eq!(JsonValue::Num("0".to_string()).as_u64(), Some(0));
    assert_eq!(
        JsonValue::Num("18446744073709551615".to_string()).as_u64(),
        Some(u64::MAX)
    );
    assert_eq!(
        JsonValue::Num("18446744073709551616".to_string()).as_u64(),
        None
    );
    assert_eq!(JsonValue::Num("1.5".to_string()).as_u64(), None);
    assert_eq!(JsonValue::Num("-3".to_string()).as_u64(), None);
    assert_eq!(JsonValue::Text("7".to_string()).as_u64(), None);
}

#[test]
fn test_string_helpers() {
    assert!(str_contains("hydro_lang/src/lib.rs", "hydro_lang"));
    assert!(!str_contains("examples/flow.rs", "hydro_lang"));
    assert!(str_contains("abc", ""));
    assert!(!str_contains("ab", "abc"));
    assert!(str_starts_with("src/location/mod.rs", "src/"));
    assert!(!str_starts_with("location/mod.rs", "src/"));
    assert!(str_ieq("FoldKeyed", "foldkeyed"));
    assert!(!str_ieq("fold", "folds"));
}
