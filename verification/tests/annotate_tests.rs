use hydrolysis::analysis::run_analysis;
use hydrolysis::annotate::{annotate, create_enhanced_edge_config, create_enhanced_node_config};
use hydrolysis::json::JsonValue;
use hydrolysis::model::{Edge, HydroIr, Node, NodeData};

fn make_test_node(id: &str, node_type: &str) -> Node {
    Node {
        id: id.to_string(),
        node_type: node_type.to_string(),
        short_label: format!("{}_short", id),
        full_label: Some(format!("{}_full", id)),
        label: Some(format!("{}_label", id)),
        data: Some(NodeData {
            location_id: Some(0),
            location_type: Some("Process".to_string()),
            backtrace: JsonValue::Arr(vec![]),
        }),
    }
}

fn make_test_edge(id: &str, source: &str, target: &str, tags: Vec<&str>) -> Edge {
    Edge {
        id: id.to_string(),
        source: source.to_string(),
        target: target.to_string(),
        edge_properties: None,
        semantic_tags: Some(tags.iter().map(|s| s.to_string()).collect()),
        label: None,
    }
}

fn obj_get<'a>(v: &'a JsonValue, key: &str) -> Option<&'a JsonValue> {
    match v {
        JsonValue::Obj(kvs) => kvs.iter().find(|(k, _)| k == key).map(|(_, w)| w),
        _ => None,
    }
}

#[test]
fn test_simple_annotation() {
    let nodes = vec![
        make_test_node("0", "Source"),
        make_test_node("1", "Transform"),
        make_test_node("2", "Sink"),
    ];

    let edges = vec![
        make_test_edge("e0", "0", "1", vec!["Local"]),
        make_test_edge("e1", "1", "2", vec!["Local"]),
    ];

    let ir = HydroIr {
        nodes,
        edges,
        hierarchy_choices: Some(JsonValue::Arr(vec![JsonValue::Obj(vec![(
            "id".to_string(),
            JsonValue::Text("location".to_string()),
        )])])),
        node_assignments: Some(JsonValue::Obj(vec![(
            "location".to_string(),
            JsonValue::Obj(vec![("0".to_string(), JsonValue::Text("loc_0".to_string()))]),
        )])),
        selected_hierarchy: Some("location".to_string()),
        edge_style_config: None,
        node_type_config: None,
        legend: None,
    };

    // Run analysis
    let results = run_analysis(&ir);

    // Annotate
    let annotated = annotate(ir, results);

    // Verify structure
    assert_eq!(annotated.nodes.len(), 3);
    assert_eq!(annotated.edges.len(), 2);
    assert!(annotated.overall.is_some());

    // Verify all nodes have analysis
    for node in &annotated.nodes {
        assert!(node.analysis.is_some());
    }

    // Verify all edges have analysis
    for edge in &annotated.edges {
        assert!(edge.analysis.is_some());
    }

    // Verify optional fields preserved
    assert!(annotated.hierarchy_choices.is_some());
    assert!(annotated.node_assignments.is_some());
    assert_eq!(annotated.selected_hierarchy, Some("location".to_string()));
}

#[test]
fn test_output_preserves_fields_and_tags() {
    let nodes = vec![
        make_test_node("0", "Source"),
        make_test_node("1", "NonDeterministic"),
        make_test_node("2", "Transform"),
    ];
    let edges = vec![
        make_test_edge("e0", "0", "1", vec!["Local", "Stream"]),
        make_test_edge("e1", "1", "2", vec!["Local"]),
    ];
    let ir = HydroIr {
        nodes,
        edges,
        hierarchy_choices: None,
        node_assignments: None,
        selected_hierarchy: None,
        edge_style_config: None,
        node_type_config: None,
        legend: None,
    };
    let results = run_analysis(&ir);
    let annotated = annotate(ir, results);

    // node fields are echoed
    assert_eq!(annotated.nodes[0].id, "0");
    assert_eq!(annotated.nodes[0].node_type, "Source");
    assert_eq!(annotated.nodes[0].short_label, "0_short");
    assert_eq!(annotated.nodes[0].full_label, Some("0_full".to_string()));
    assert_eq!(annotated.nodes[0].label, Some("0_label".to_string()));

    // node tags: kind, nondeterminism tag, monotonicity tag
    let tags0 = annotated.nodes[0].semantic_tags.as_ref().unwrap();
    assert_eq!(tags0, &vec!["Source", "Deterministic", "Monotone"]);
    let tags1 = annotated.nodes[1].semantic_tags.as_ref().unwrap();
    assert_eq!(
        tags1,
        &vec!["NonDeterministic", "NonDetRoot", "NonMonotone"]
    );
    // node 2 is tainted by propagation only
    let tags2 = annotated.nodes[2].semantic_tags.as_ref().unwrap();
    assert_eq!(tags2, &vec!["Transform", "NonDetInherited", "Monotone"]);

    // edge tags are a superset of the input tags
    let etags = annotated.edges[0].semantic_tags.as_ref().unwrap();
    assert_eq!(&etags[0..2], &["Local".to_string(), "Stream".to_string()]);
    assert_eq!(etags[2], "NonLattice");
    assert_eq!(etags[3], "CalmSafe");

    // analyses carried over
    assert_eq!(
        annotated.nodes[1].analysis.as_ref().unwrap().nd_effect,
        "LocallyNonDet"
    );
    let overall = annotated.overall.unwrap();
    assert!(!overall.deterministic);
}

#[test]
fn test_enhanced_node_config_from_default() {
    let config = create_enhanced_node_config(None);
    assert!(matches!(
        obj_get(&config, "defaultType"),
        Some(JsonValue::Text(t)) if t == "Transform"
    ));
    let mappings = obj_get(&config, "semanticMappings").unwrap();
    let nd_group = obj_get(mappings, "NondeterminismGroup").unwrap();
    let root = obj_get(nd_group, "NonDetRoot").unwrap();
    assert!(matches!(
        obj_get(root, "color-token"),
        Some(JsonValue::Text(t)) if t == "warning"
    ));
    assert!(matches!(
        obj_get(root, "border-width"),
        Some(JsonValue::Num(n)) if n == "3"
    ));
    let mono_group = obj_get(mappings, "MonotonicityGroup").unwrap();
    assert!(obj_get(mono_group, "Monotone").is_some());
    assert!(obj_get(mono_group, "NonMonotone").is_some());
}

#[test]
fn test_enhanced_edge_config_merges_existing() {
    let original = JsonValue::Obj(vec![
        ("default".to_string(), JsonValue::Text("solid".to_string())),
        ("semanticMappings".to_string(), JsonValue::Obj(vec![(
            "MyGroup".to_string(),
            JsonValue::Obj(vec![]),
        )])),
    ]);
    let config = create_enhanced_edge_config(Some(original));
    // the original keys stay
    assert!(matches!(
        obj_get(&config, "default"),
        Some(JsonValue::Text(t)) if t == "solid"
    ));
    let mappings = obj_get(&config, "semanticMappings").unwrap();
    assert!(obj_get(mappings, "MyGroup").is_some());
    // the CALM styles are added
    let calm_group = obj_get(mappings, "CALMGroup").unwrap();
    let safe = obj_get(calm_group, "CalmSafe").unwrap();
    assert!(matches!(
        obj_get(safe, "line-pattern"),
        Some(JsonValue::Text(t)) if t == "solid"
    ));
    assert!(matches!(
        obj_get(safe, "line-width"),
        Some(JsonValue::Num(n)) if n == "2"
    ));
    let lat_group = obj_get(mappings, "LatticeGroup").unwrap();
    assert!(obj_get(lat_group, "Lattice").is_some());
}

#[test]
fn test_enhanced_edge_config_creates_missing_member() {
    // an edge configuration without a semanticMappings member gains one
    // holding exactly the lattice and CALM entries
    let original = JsonValue::Obj(vec![(
        "default".to_string(),
        JsonValue::Text("solid".to_string()),
    )]);
    let config = create_enhanced_edge_config(Some(original));
    assert!(obj_get(&config, "default").is_some());
    let mappings = obj_get(&config, "semanticMappings").expect("member should be created");
    assert!(obj_get(mappings, "LatticeGroup").is_some());
    let calm_group = obj_get(mappings, "CALMGroup").unwrap();
    let unsafe_style = obj_get(calm_group, "CalmUnsafe").unwrap();
    assert!(matches!(
        obj_get(unsafe_style, "line-pattern"),
        Some(JsonValue::Text(t)) if t == "dashed"
    ));
    assert!(matches!(
        obj_get(unsafe_style, "line-width"),
        Some(JsonValue::Num(n)) if n == "3"
    ));
}
