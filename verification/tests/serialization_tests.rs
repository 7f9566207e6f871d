use hydrolysis::analysis::run_analysis;
use hydrolysis::annotate::annotate;
use hydrolysis::codec::annotated_to_json;
use hydrolysis::json::JsonValue;
use hydrolysis::model::{Edge, HydroIr, Node, NodeData};

fn make_test_node(id: &str, node_type: &str) -> Node {
    Node {
        id: id.to_string(),
        node_type: node_type.to_string(),
        short_label: format!("{}_short", id),
        full_label: Some(format!("{}_full", id)),
        label: Some(format!("{}_label", id)),
        data: Some(NodeData {
            location_id: Some(0),
            location_type: Some("Process".to_string()),
            backtrace: JsonValue::Arr(vec![]),
        }),
    }
}

fn make_test_edge(id: &str, source: &str, target: &str, tags: Vec<&str>) -> Edge {
    Edge {
        id: id.to_string(),
        source: source.to_string(),
        target: target.to_string(),
        edge_properties: None,
        semantic_tags: Some(tags.iter().map(|s| s.to_string()).collect()),
        label: None,
    }
}

/// Render the analyzer's document as serde JSON, as the launcher does.
fn from_model(v: &JsonValue) -> serde_json::Value {
    match v {
        JsonValue::Null => serde_json::Value::Null,
        JsonValue::Bool(b) => serde_json::Value::Bool(*b),
        JsonValue::Num(s) => serde_json::from_str::<serde_json::Number>(s)
            .map(serde_json::Value::Number)
            .unwrap_or(serde_json::Value::Null),
        JsonValue::Text(s) => serde_json::Value::String(s.clone()),
        JsonValue::Arr(items) => serde_json::Value::Array(items.iter().map(from_model).collect()),
        JsonValue::Obj(kvs) => serde_json::Value::Object(
            kvs.iter().map(|(k, w)| (k.clone(), from_model(w))).collect(),
        ),
    }
}

#[test]
fn test_json_serialization() {
    // Create a simple test case
    let nodes = vec![
        make_test_node("0", "Source"),
        make_test_node("1", "Transform"),
        make_test_node("2", "Sink"),
    ];

    let edges = vec![
        make_test_edge("e0", "0", "1", vec!["Local"]),
        make_test_edge("e1", "1", "2", vec!["Local"]),
    ];

    let ir = HydroIr {
        nodes,
        edges,
        hierarchy_choices: Some(JsonValue::Arr(vec![JsonValue::Obj(vec![(
            "id".to_string(),
            JsonValue::Text("location".to_string()),
        )])])),
        node_assignments: Some(JsonValue::Obj(vec![(
            "location".to_string(),
            JsonValue::Obj(vec![("0".to_string(), JsonValue::Text("loc_0".to_string()))]),
        )])),
        selected_hierarchy: Some("location".to_string()),
        edge_style_config: Some(JsonValue::Obj(vec![(
            "default".to_string(),
            JsonValue::Text("solid".to_string()),
        )])),
        node_type_config: Some(JsonValue::Obj(vec![(
            "defaultType".to_string(),
            JsonValue::Text("Transform".to_string()),
        )])),
        legend: Some(JsonValue::Obj(vec![("show".to_string(), JsonValue::Bool(true))])),
    };

    // Run analysis
    let results = run_analysis(&ir);

    // Serialize to JSON
    let annotated = annotate(ir, results);
    let json_result = serde_json::to_string_pretty(&from_model(&annotated_to_json(&annotated)));
    assert!(json_result.is_ok(), "JSON serialization should succeed");

    let json_str = json_result.unwrap();

    // Verify it's valid JSON by parsing it back
    let parsed: serde_json::Value =
        serde_json::from_str(&json_str).expect("Serialized output should be valid JSON");

    // Verify key fields are present in the JSON
    assert!(parsed.get("nodes").is_some(), "JSON should have nodes field");
    assert!(parsed.get("edges").is_some(), "JSON should have edges field");
    assert!(parsed.get("overall").is_some(), "JSON should have overall field");

    // Verify nodes array has correct length
    let nodes_array = parsed["nodes"].as_array().expect("nodes should be an array");
    assert_eq!(nodes_array.len(), 3, "Should have 3 nodes");

    // Verify each node has analysis
    for node in nodes_array {
        assert!(node.get("analysis").is_some(), "Each node should have analysis");
        assert!(node.get("id").is_some(), "Each node should have id");
        assert!(node.get("nodeType").is_some(), "Each node should have nodeType");
    }

    // Verify edges array has correct length
    let edges_array = parsed["edges"].as_array().expect("edges should be an array");
    assert_eq!(edges_array.len(), 2, "Should have 2 edges");

    // Verify each edge has analysis
    for edge in edges_array {
        assert!(edge.get("analysis").is_some(), "Each edge should have analysis");
        assert!(edge.get("id").is_some(), "Each edge should have id");
        assert!(edge.get("source").is_some(), "Each edge should have source");
        assert!(edge.get("target").is_some(), "Each edge should have target");
    }

    // Verify overall analysis
    let overall = parsed["overall"].as_object().expect("overall should be an object");
    assert!(
        overall.get("deterministic").is_some(),
        "overall should have deterministic"
    );
    assert!(overall.get("calm_safe").is_some(), "overall should have calm_safe");

    // Verify optional fields are preserved
    assert!(
        parsed.get("hierarchy_choices").is_some() || parsed.get("hierarchyChoices").is_some(),
        "JSON should have hierarchy_choices or hierarchyChoices"
    );
    assert!(
        parsed.get("node_assignments").is_some() || parsed.get("nodeAssignments").is_some(),
        "JSON should have node_assignments or nodeAssignments"
    );
    assert!(
        parsed.get("selected_hierarchy").is_some() || parsed.get("selectedHierarchy").is_some(),
        "JSON should have selected_hierarchy or selectedHierarchy"
    );
    assert!(
        parsed.get("edge_style_config").is_some() || parsed.get("edgeStyleConfig").is_some(),
        "JSON should have edge_style_config or edgeStyleConfig"
    );
    assert!(
        parsed.get("node_type_config").is_some() || parsed.get("nodeTypeConfig").is_some(),
        "JSON should have node_type_config or nodeTypeConfig"
    );
    assert!(parsed.get("legend").is_some(), "JSON should have legend");

    // Verify the JSON is pretty-printed (contains newlines)
    assert!(json_str.contains('\n'), "JSON should be pretty-printed with newlines");
}

#[test]
fn test_json_round_trip() {
    // Create a test case
    let nodes = vec![
        make_test_node("0", "Source"),
        make_test_node("1", "NonDeterministic"),
        make_test_node("2", "Sink"),
    ];

    let edges = vec![
        make_test_edge("e0", "0", "1", vec!["Local"]),
        make_test_edge("e1", "1", "2", vec!["Network"]),
    ];

    let ir = HydroIr {
        nodes,
        edges,
        hierarchy_choices: None,
        node_assignments: None,
        selected_hierarchy: None,
        edge_style_config: None,
        node_type_config: None,
        legend: None,
    };

    // Run analysis
    let results = run_analysis(&ir);

    // Serialize to JSON
    let annotated = annotate(ir, results);
    let json_str = serde_json::to_string_pretty(&from_model(&annotated_to_json(&annotated)))
        .expect("Serialization should succeed");

    // Parse back
    let parsed: serde_json::Value = serde_json::from_str(&json_str)
        .expect("Should be able to parse back to AnnotatedHydroIr");

    // Verify structure is preserved
    assert_eq!(parsed["nodes"].as_array().unwrap().len(), 3);
    assert_eq!(parsed["edges"].as_array().unwrap().len(), 2);
    assert!(parsed.get("overall").is_some());

    // Verify analysis is present
    for node in parsed["nodes"].as_array().unwrap() {
        assert!(node.get("analysis").is_some());
    }

    for edge in parsed["edges"].as_array().unwrap() {
        assert!(edge.get("analysis").is_some());
    }

    // Serialize again and verify it's stable
    let json_str2 =
        serde_json::to_string_pretty(&parsed).expect("Second serialization should succeed");

    assert_eq!(json_str, json_str2, "JSON serialization should be stable");
}
