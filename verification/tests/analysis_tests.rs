use hydrolysis::analysis::run_analysis;
use hydrolysis::json::JsonValue;
use hydrolysis::model::{Edge, HydroIr, Node, NodeData};

fn make_test_node(id: &str, node_type: &str) -> Node {
    Node {
        id: id.to_string(),
        node_type: node_type.to_string(),
        short_label: format!("{}_short", id),
        full_label: Some(format!("{}_full", id)),
        label: Some(format!("{}_label", id)),
        data: Some(NodeData {
            location_id: Some(0),
            location_type: Some("Process".to_string()),
            backtrace: JsonValue::Arr(vec![]),
        }),
    }
}

fn make_test_edge(id: &str, source: &str, target: &str, tags: Vec<&str>) -> Edge {
    Edge {
        id: id.to_string(),
        source: source.to_string(),
        target: target.to_string(),
        edge_properties: None,
        semantic_tags: Some(tags.iter().map(|s| s.to_string()).collect()),
        label: None,
    }
}

fn make_ir(nodes: Vec<Node>, edges: Vec<Edge>) -> HydroIr {
    HydroIr {
        nodes,
        edges,
        hierarchy_choices: None,
        node_assignments: None,
        selected_hierarchy: None,
        edge_style_config: None,
        node_type_config: None,
        legend: None,
    }
}

#[test]
fn test_deterministic_graph() {
    // Create a simple deterministic graph: Source -> Transform -> Sink
    let nodes = vec![
        make_test_node("0", "Source"),
        make_test_node("1", "Transform"),
        make_test_node("2", "Sink"),
    ];

    let edges = vec![
        make_test_edge("e0", "0", "1", vec!["Local"]),
        make_test_edge("e1", "1", "2", vec!["Local"]),
    ];

    let ir = make_ir(nodes, edges);
    let result = run_analysis(&ir);

    // All nodes should be deterministic
    assert_eq!(result.node_analyses[0].nd_effect, "Deterministic");
    assert_eq!(result.node_analyses[1].nd_effect, "Deterministic");
    assert_eq!(result.node_analyses[2].nd_effect, "Deterministic");

    // Overall should be deterministic
    assert!(result.overall.deterministic);

    // No issues should be generated on the nodes
    assert!(result.node_analyses[0].issues.is_empty());
    assert!(result.node_analyses[1].issues.is_empty());
    assert!(result.node_analyses[2].issues.is_empty());
}

#[test]
fn test_nondeterministic_propagation() {
    // Source -> NonDeterministic -> Transform -> Sink
    let nodes = vec![
        make_test_node("0", "Source"),
        make_test_node("1", "NonDeterministic"),
        make_test_node("2", "Transform"),
        make_test_node("3", "Sink"),
    ];

    let edges = vec![
        make_test_edge("e0", "0", "1", vec!["Local"]),
        make_test_edge("e1", "1", "2", vec!["Local"]),
        make_test_edge("e2", "2", "3", vec!["Local"]),
    ];

    let ir = make_ir(nodes, edges);
    let result = run_analysis(&ir);

    // Node 0 should be deterministic
    assert_eq!(result.node_analyses[0].nd_effect, "Deterministic");

    // Node 1 should be LocallyNonDet (seed)
    assert_eq!(result.node_analyses[1].nd_effect, "LocallyNonDet");

    // Nodes 2 and 3 should be tainted
    assert_eq!(result.node_analyses[2].nd_effect, "LocallyNonDet");
    assert_eq!(result.node_analyses[3].nd_effect, "LocallyNonDet");

    // Overall should be non-deterministic
    assert!(!result.overall.deterministic);

    // Issues should be generated for tainted nodes
    assert!(!result.node_analyses[1].issues.is_empty());
    assert!(!result.node_analyses[2].issues.is_empty());
    assert!(!result.node_analyses[3].issues.is_empty());

    // The finding carries the exact message
    assert_eq!(result.node_analyses[1].issues[0].kind, "NonDet");
    assert_eq!(
        result.node_analyses[1].issues[0].message,
        "Node '1' is nondeterministic (LocallyNonDet)"
    );
}

#[test]
fn test_calm_safe_network_edge() {
    // A Network edge carrying a lattice type is CALM safe
    let nodes = vec![
        make_test_node("0", "Source"),
        make_test_node("1", "Transform"),
    ];

    let mut edges = vec![make_test_edge("e0", "0", "1", vec!["Network"])];
    edges[0].label = Some("SetUnion<i32>".to_string());

    let ir = make_ir(nodes, edges);
    let result = run_analysis(&ir);

    // Edge should be CALM safe
    assert_eq!(result.edge_analyses[0].calm, "CalmSafe");
    assert!(result.edge_analyses[0].is_lattice);

    // Overall should be CALM safe
    assert!(result.overall.calm_safe);
}

#[test]
fn test_non_lattice_network_edge() {
    // The same network edge without a type label is CALM unsafe
    let nodes = vec![
        make_test_node("0", "Source"),
        make_test_node("1", "Transform"),
    ];
    let edges = vec![make_test_edge("e0", "0", "1", vec!["Network"])];

    let ir = make_ir(nodes, edges);
    let result = run_analysis(&ir);

    assert_eq!(result.edge_analyses[0].calm, "CalmUnsafe");
    assert!(!result.edge_analyses[0].is_lattice);
    assert!(!result.overall.calm_safe);

    // A NonLattice finding names the offending edge and the critical edge
    assert!(result.edge_analyses[0]
        .issues
        .iter()
        .any(|i| i.kind == "NonLattice"));
    assert_eq!(
        result.edge_analyses[0].issues[0].message,
        "Edge 'e0' is non-lattice on CALM-critical path to edge 'e0'"
    );
}

#[test]
fn test_non_monotone_on_critical_path() {
    // Source -> NonDeterministic -> Sink with lattice-typed edges: the
    // final edge is critical and the non-monotone node blocks it
    let nodes = vec![
        make_test_node("0", "Source"),
        make_test_node("1", "NonDeterministic"),
        make_test_node("2", "Sink"),
    ];
    let mut edges = vec![
        make_test_edge("e0", "0", "1", vec!["Local"]),
        make_test_edge("e1", "1", "2", vec!["Local"]),
    ];
    edges[0].label = Some("SetUnion<i32>".to_string());
    edges[1].label = Some("SetUnion<i32>".to_string());

    let ir = make_ir(nodes, edges);
    let result = run_analysis(&ir);

    // e1 targets a Sink, so it is critical; node 1 is non-monotone
    assert_eq!(result.edge_analyses[1].calm, "CalmUnsafe");
    assert!(!result.overall.calm_safe);

    let issues = &result.node_analyses[1].issues;
    assert!(issues.iter().any(|i| i.kind == "NonMonotone"));
    assert!(issues
        .iter()
        .any(|i| i.message == "Node '1' is non-monotone on CALM-critical path to edge 'e1'"));
}

#[test]
fn test_taint_seeds_from_manual_batch() {
    // A manual batch seeds taint that reaches its successors
    let mut batch_node = make_test_node("0", "Transform");
    batch_node.label = Some("batch".to_string());
    let nodes = vec![batch_node, make_test_node("1", "Transform")];
    let edges = vec![make_test_edge("e0", "0", "1", vec!["Local"])];

    let ir = make_ir(nodes, edges);
    let result = run_analysis(&ir);

    assert_eq!(result.node_analyses[0].nd_effect, "LocallyNonDet");
    assert_eq!(result.node_analyses[1].nd_effect, "LocallyNonDet");
    assert!(!result.overall.deterministic);
}

#[test]
fn test_dangling_edge_gets_analysis() {
    // An edge whose endpoints are missing contributes no adjacency but
    // still receives an analysis record
    let nodes = vec![make_test_node("0", "Source")];
    let mut edges = vec![make_test_edge("e0", "0", "missing", vec!["Local"])];
    edges[0].label = Some("SetUnion<i32>".to_string());

    let ir = make_ir(nodes, edges);
    let result = run_analysis(&ir);

    assert_eq!(result.edge_analyses.len(), 1);
    assert_eq!(result.edge_analyses[0].calm, "CalmSafe");
    assert!(result.edge_analyses[0].is_lattice);
    assert!(result.edge_analyses[0].issues.is_empty());
    assert!(result.overall.calm_safe);
}

#[test]
fn test_empty_ir() {
    let ir = make_ir(vec![], vec![]);
    let result = run_analysis(&ir);
    assert!(result.overall.deterministic);
    assert!(result.overall.calm_safe);
    assert!(result.node_analyses.is_empty());
    assert!(result.edge_analyses.is_empty());
}

#[test]
fn test_duplicate_node_ids_last_wins() {
    // Two nodes share an id: edges resolve to the last occurrence
    let nodes = vec![
        make_test_node("0", "Source"),
        make_test_node("1", "NonDeterministic"),
        make_test_node("1", "Transform"),
    ];
    let edges = vec![make_test_edge("e0", "1", "0", vec!["Local"])];

    let ir = make_ir(nodes, edges);
    let result = run_analysis(&ir);

    // the seed at index 1 has no outgoing adjacency (its id resolves to
    // index 2), so node 0 stays deterministic
    assert_eq!(result.node_analyses[0].nd_effect, "Deterministic");
    assert_eq!(result.node_analyses[1].nd_effect, "LocallyNonDet");
    assert_eq!(result.node_analyses[2].nd_effect, "Deterministic");
}
