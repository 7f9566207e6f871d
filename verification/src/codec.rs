//! The IR codec over the JSON document model: parsing an input IR out of
//! a document, emitting a document for an IR and for the annotated output,
//! and the round-trip law tying parse and emit together.

use vstd::prelude::*;
use crate::json::{
    JsonVal, JsonValue, arr_view, dec_seq, json_as_u64, json_get, lemma_dec_seq_val,
    lemma_obj_lookup_concat, lemma_obj_lookup_first, lemma_obj_lookup_none, obj_lookup, pairs_view,
    u64_to_dec,
};
use crate::model::{
    AnnotatedEdge, AnnotatedHydroIr, AnnotatedNode, Edge, EdgeAnalysis, EdgeView, HydroIr, Issue,
    IrView, Node, NodeAnalysis, NodeData, NodeDataView, NodeView, OverallAnalysis, SourceLocation,
    edges_view, nodes_view, opt_json_view,
};

verus! {

broadcast use vstd::seq::group_seq_axioms, vstd::std_specs::vec::group_vec_axioms;

// ---------------------------------------------------------------------
// Parsing, specification side: total functions from a document to the
// parsed value, `None` rejecting the document.
// ---------------------------------------------------------------------

/// A required string member.
pub open spec fn spec_req_text(v: JsonVal, key: Seq<char>) -> Option<Seq<char>> {
    match json_get(v, key) {
        Some(JsonVal::Text(s)) => Some(s),
        _ => None,
    }
}

/// An optional string member: absent or null is fine, any other
/// non-string rejects.
pub open spec fn spec_opt_text(v: JsonVal, key: Seq<char>) -> Option<Option<Seq<char>>> {
    match json_get(v, key) {
        None => Some(None),
        Some(JsonVal::Null) => Some(None),
        Some(JsonVal::Text(s)) => Some(Some(s)),
        Some(_) => None,
    }
}

/// An optional pass-through member: absent or null reads as absent.
pub open spec fn spec_opt_passthrough(v: JsonVal, key: Seq<char>) -> Option<JsonVal> {
    match json_get(v, key) {
        None => None,
        Some(JsonVal::Null) => None,
        Some(w) => Some(w),
    }
}

/// All elements as strings.
pub open spec fn spec_texts(items: Seq<JsonVal>) -> Option<Seq<Seq<char>>>
    decreases items.len(),
{
    if items.len() == 0 {
        Some(Seq::empty())
    } else {
        match (spec_texts(items.drop_last()), items.last()) {
            (Some(pre), JsonVal::Text(s)) => Some(pre.push(s)),
            _ => None,
        }
    }
}

/// An optional string-array member.
pub open spec fn spec_opt_texts(v: JsonVal, key: Seq<char>) -> Option<Option<Seq<Seq<char>>>> {
    match json_get(v, key) {
        None => Some(None),
        Some(JsonVal::Null) => Some(None),
        Some(JsonVal::Arr(items)) => match spec_texts(items) {
            Some(ts) => Some(Some(ts)),
            None => None,
        },
        Some(_) => None,
    }
}

/// An optional location-id member: an unsigned integer that fits the
/// platform's index type.
pub open spec fn spec_opt_location_id(v: JsonVal, key: Seq<char>) -> Option<Option<usize>> {
    match json_get(v, key) {
        None => Some(None),
        Some(JsonVal::Null) => Some(None),
        Some(w) => match json_as_u64(w) {
            Some(u) => if u <= usize::MAX {
                Some(Some(u as usize))
            } else {
                None
            },
            None => None,
        },
    }
}

/// A node's context payload: optional location fields and a required
/// backtrace document.
pub open spec fn spec_data_from_json(v: JsonVal) -> Option<NodeDataView> {
    match (spec_opt_location_id(v, "locationId"@), spec_opt_text(v, "locationType"@), json_get(
        v,
        "backtrace"@,
    )) {
        (Some(li), Some(lt), Some(bt)) => Some(
            NodeDataView { location_id: li, location_type: lt, backtrace: bt },
        ),
        _ => None,
    }
}

/// An optional `data` member.
pub open spec fn spec_opt_data(v: JsonVal) -> Option<Option<NodeDataView>> {
    match json_get(v, "data"@) {
        None => Some(None),
        Some(JsonVal::Null) => Some(None),
        Some(w) => match spec_data_from_json(w) {
            Some(d) => Some(Some(d)),
            None => None,
        },
    }
}

/// One node of the input IR.
pub open spec fn spec_node_from_json(v: JsonVal) -> Option<NodeView> {
    match (spec_req_text(v, "id"@), spec_req_text(v, "nodeType"@), spec_req_text(
        v,
        "shortLabel"@,
    )) {
        (Some(id), Some(nt), Some(sl)) => {
            match (spec_opt_text(v, "fullLabel"@), spec_opt_text(v, "label"@), spec_opt_data(v)) {
                (Some(fl), Some(lb), Some(d)) => Some(
                    NodeView {
                        id,
                        node_type: nt,
                        short_label: sl,
                        full_label: fl,
                        label: lb,
                        data: d,
                    },
                ),
                _ => None,
            }
        },
        _ => None,
    }
}

/// All elements as nodes.
pub open spec fn spec_nodes_from_json(items: Seq<JsonVal>) -> Option<Seq<NodeView>>
    decreases items.len(),
{
    if items.len() == 0 {
        Some(Seq::empty())
    } else {
        match (spec_nodes_from_json(items.drop_last()), spec_node_from_json(items.last())) {
            (Some(pre), Some(n)) => Some(pre.push(n)),
            _ => None,
        }
    }
}

/// One edge of the input IR.
pub open spec fn spec_edge_from_json(v: JsonVal) -> Option<EdgeView> {
    match (spec_req_text(v, "id"@), spec_req_text(v, "source"@), spec_req_text(v, "target"@)) {
        (Some(id), Some(src), Some(tgt)) => {
            match (spec_opt_texts(v, "edgeProperties"@), spec_opt_texts(v, "semanticTags"@),
            spec_opt_text(v, "label"@)) {
                (Some(ep), Some(st), Some(lb)) => Some(
                    EdgeView {
                        id,
                        source: src,
                        target: tgt,
                        edge_properties: ep,
                        semantic_tags: st,
                        label: lb,
                    },
                ),
                _ => None,
            }
        },
        _ => None,
    }
}

/// All elements as edges.
pub open spec fn spec_edges_from_json(items: Seq<JsonVal>) -> Option<Seq<EdgeView>>
    decreases items.len(),
{
    if items.len() == 0 {
        Some(Seq::empty())
    } else {
        match (spec_edges_from_json(items.drop_last()), spec_edge_from_json(items.last())) {
            (Some(pre), Some(e)) => Some(pre.push(e)),
            _ => None,
        }
    }
}

/// The whole input IR: required node and edge arrays, optional
/// pass-through members.
pub open spec fn spec_ir_from_json(v: JsonVal) -> Option<IrView> {
    match (json_get(v, "nodes"@), json_get(v, "edges"@)) {
        (Some(JsonVal::Arr(nitems)), Some(JsonVal::Arr(eitems))) => {
            match (spec_nodes_from_json(nitems), spec_edges_from_json(eitems), spec_opt_text(
                v,
                "selectedHierarchy"@,
            )) {
                (Some(ns), Some(es), Some(sh)) => Some(
                    IrView {
                        nodes: ns,
                        edges: es,
                        hierarchy_choices: spec_opt_passthrough(v, "hierarchyChoices"@),
                        node_assignments: spec_opt_passthrough(v, "nodeAssignments"@),
                        selected_hierarchy: sh,
                        edge_style_config: spec_opt_passthrough(v, "edgeStyleConfig"@),
                        node_type_config: spec_opt_passthrough(v, "nodeTypeConfig"@),
                        legend: spec_opt_passthrough(v, "legend"@),
                    },
                ),
                _ => None,
            }
        },
        _ => None,
    }
}

// ---------------------------------------------------------------------
// Parsing, executable side.
// ---------------------------------------------------------------------

/// A required string member, copied out.
fn req_text(v: &JsonValue, key: &str) -> (r: Option<String>)
    ensures
        match r {
            Some(s) => spec_req_text(v@, key@) == Some(s@),
            None => spec_req_text(v@, key@) is None,
        },
{
    match v.get(key) {
        Some(w) => match w {
            JsonValue::Text(s) => Some(s.clone()),
            _ => None,
        },
        None => None,
    }
}

/// An optional string member, copied out.
fn opt_text(v: &JsonValue, key: &str) -> (r: Option<Option<String>>)
    ensures
        match r {
            Some(o) => spec_opt_text(v@, key@) == Some(o.deep_view()),
            None => spec_opt_text(v@, key@) is None,
        },
{
    match v.get(key) {
        None => Some(None),
        Some(w) => match w {
            JsonValue::Null => Some(None),
            JsonValue::Text(s) => Some(Some(s.clone())),
            _ => None,
        },
    }
}

/// An optional pass-through member, copied out.
fn opt_passthrough(v: &JsonValue, key: &str) -> (r: Option<JsonValue>)
    ensures
        opt_json_view(r) == spec_opt_passthrough(v@, key@),
{
    match v.get(key) {
        None => None,
        Some(w) => match w {
            JsonValue::Null => None,
            _ => Some(w.dup()),
        },
    }
}

/// Every element of a bad index makes the whole string list reject.
proof fn lemma_texts_bad(items: Seq<JsonVal>, i: int)
    requires
        0 <= i < items.len(),
        !(items[i] is Text),
    ensures
        spec_texts(items) is None,
    decreases items.len(),
{
    if i == items.len() - 1 {
    } else {
        assert(items.drop_last()[i] == items[i]);
        lemma_texts_bad(items.drop_last(), i);
    }
}

/// An optional string-array member, copied out.
fn opt_texts(v: &JsonValue, key: &str) -> (r: Option<Option<Vec<String>>>)
    ensures
        match r {
            Some(o) => spec_opt_texts(v@, key@) == Some(o.deep_view()),
            None => spec_opt_texts(v@, key@) is None,
        },
{
    match v.get(key) {
        None => Some(None),
        Some(w) => match w {
            JsonValue::Null => Some(None),
            JsonValue::Arr(items) => {
                let ghost iv = arr_view(items@);
                proof {
                    assert(json_get(v@, key@) == Some(JsonVal::Arr(iv)));
                }
                let n = items.len();
                let mut out: Vec<String> = Vec::new();
                let mut i: usize = 0;
                while i < n
                    invariant
                        i <= n,
                        n == items@.len(),
                        iv == arr_view(items@),
                        json_get(v@, key@) == Some(JsonVal::Arr(iv)),
                        out@.len() == i,
                        spec_texts(iv.take(i as int)) == Some(out.deep_view()),
                    decreases n - i,
                {
                    match &items[i] {
                        JsonValue::Text(s) => {
                            out.push(s.clone());
                            proof {
                                assert(iv.take(i + 1).drop_last() =~= iv.take(i as int));
                                assert(iv.take(i + 1).last() == iv[i as int]);
                                assert(out.deep_view() =~= spec_texts(
                                    iv.take(i + 1),
                                )->Some_0);
                            }
                        },
                        _ => {
                            proof {
                                lemma_texts_bad(iv, i as int);
                            }
                            return None;
                        },
                    }
                    i = i + 1;
                }
                proof {
                    assert(iv.take(n as int) =~= iv);
                }
                Some(Some(out))
            },
            _ => None,
        },
    }
}

/// An optional location-id member.
fn opt_location_id(v: &JsonValue, key: &str) -> (r: Option<Option<usize>>)
    ensures
        match r {
            Some(o) => spec_opt_location_id(v@, key@) == Some(o),
            None => spec_opt_location_id(v@, key@) is None,
        },
{
    match v.get(key) {
        None => Some(None),
        Some(w) => match w {
            JsonValue::Null => Some(None),
            _ => match w.as_u64() {
                Some(u) => if u <= (usize::MAX as u64) {
                    Some(Some(u as usize))
                } else {
                    None
                },
                None => None,
            },
        },
    }
}

/// A node's context payload.
fn data_from_json(v: &JsonValue) -> (r: Option<NodeData>)
    ensures
        match r {
            Some(d) => spec_data_from_json(v@) == Some(d@),
            None => spec_data_from_json(v@) is None,
        },
{
    let location_id = match opt_location_id(v, "locationId") {
        Some(o) => o,
        None => {
            return None;
        },
    };
    let location_type = match opt_text(v, "locationType") {
        Some(o) => o,
        None => {
            return None;
        },
    };
    let backtrace = match v.get("backtrace") {
        Some(b) => b.dup(),
        None => {
            return None;
        },
    };
    Some(NodeData { location_id, location_type, backtrace })
}

/// An optional `data` member.
fn opt_data(v: &JsonValue) -> (r: Option<Option<NodeData>>)
    ensures
        match r {
            Some(o) => spec_opt_data(v@) == Some(
                match o {
                    Some(d) => Some(d@),
                    None => None,
                },
            ),
            None => spec_opt_data(v@) is None,
        },
{
    match v.get("data") {
        None => Some(None),
        Some(w) => match w {
            JsonValue::Null => Some(None),
            _ => match data_from_json(w) {
                Some(d) => Some(Some(d)),
                None => None,
            },
        },
    }
}

/// One node of the input IR.
fn node_from_json(v: &JsonValue) -> (r: Option<Node>)
    ensures
        match r {
            Some(n) => spec_node_from_json(v@) == Some(n@),
            None => spec_node_from_json(v@) is None,
        },
{
    let id = match req_text(v, "id") {
        Some(s) => s,
        None => {
            return None;
        },
    };
    let node_type = match req_text(v, "nodeType") {
        Some(s) => s,
        None => {
            return None;
        },
    };
    let short_label = match req_text(v, "shortLabel") {
        Some(s) => s,
        None => {
            return None;
        },
    };
    let full_label = match opt_text(v, "fullLabel") {
        Some(o) => o,
        None => {
            return None;
        },
    };
    let label = match opt_text(v, "label") {
        Some(o) => o,
        None => {
            return None;
        },
    };
    let data = match opt_data(v) {
        Some(o) => o,
        None => {
            return None;
        },
    };
    let n = Node { id, node_type, short_label, full_label, label, data };
    proof {
        assert(spec_node_from_json(v@) == Some(n@)) by {
            assert(spec_node_from_json(v@)->Some_0 =~~= n@);
        }
    }
    Some(n)
}

/// One edge of the input IR.
fn edge_from_json(v: &JsonValue) -> (r: Option<Edge>)
    ensures
        match r {
            Some(e) => spec_edge_from_json(v@) == Some(e@),
            None => spec_edge_from_json(v@) is None,
        },
{
    let id = match req_text(v, "id") {
        Some(s) => s,
        None => {
            return None;
        },
    };
    let source = match req_text(v, "source") {
        Some(s) => s,
        None => {
            return None;
        },
    };
    let target = match req_text(v, "target") {
        Some(s) => s,
        None => {
            return None;
        },
    };
    let edge_properties = match opt_texts(v, "edgeProperties") {
        Some(o) => o,
        None => {
            return None;
        },
    };
    let semantic_tags = match opt_texts(v, "semanticTags") {
        Some(o) => o,
        None => {
            return None;
        },
    };
    let label = match opt_text(v, "label") {
        Some(o) => o,
        None => {
            return None;
        },
    };
    let e = Edge { id, source, target, edge_properties, semantic_tags, label };
    proof {
        assert(spec_edge_from_json(v@) == Some(e@)) by {
            assert(spec_edge_from_json(v@)->Some_0 =~~= e@);
        }
    }
    Some(e)
}

/// A bad element makes the whole node list reject.
proof fn lemma_nodes_bad(items: Seq<JsonVal>, i: int)
    requires
        0 <= i < items.len(),
        spec_node_from_json(items[i]) is None,
    ensures
        spec_nodes_from_json(items) is None,
    decreases items.len(),
{
    if i < items.len() - 1 {
        assert(items.drop_last()[i] == items[i]);
        lemma_nodes_bad(items.drop_last(), i);
    }
}

/// A bad element makes the whole edge list reject.
proof fn lemma_edges_bad(items: Seq<JsonVal>, i: int)
    requires
        0 <= i < items.len(),
        spec_edge_from_json(items[i]) is None,
    ensures
        spec_edges_from_json(items) is None,
    decreases items.len(),
{
    if i < items.len() - 1 {
        assert(items.drop_last()[i] == items[i]);
        lemma_edges_bad(items.drop_last(), i);
    }
}

/// Parse the whole input IR out of a document; `None` rejects it.
pub fn ir_from_json(v: &JsonValue) -> (r: Option<HydroIr>)
    ensures
        match r {
            Some(ir) => spec_ir_from_json(v@) == Some(ir@),
            None => spec_ir_from_json(v@) is None,
        },
{
    let nitems = match v.get("nodes") {
        Some(w) => match w.as_array() {
            Some(items) => items,
            None => {
                return None;
            },
        },
        None => {
            return None;
        },
    };
    let eitems = match v.get("edges") {
        Some(w) => match w.as_array() {
            Some(items) => items,
            None => {
                return None;
            },
        },
        None => {
            return None;
        },
    };
    let ghost niv = arr_view(nitems@);
    let ghost eiv = arr_view(eitems@);
    proof {
        assert(json_get(v@, "nodes"@) == Some(JsonVal::Arr(niv)));
        assert(json_get(v@, "edges"@) == Some(JsonVal::Arr(eiv)));
    }

    let mut nodes: Vec<Node> = Vec::new();
    let nn = nitems.len();
    let mut i: usize = 0;
    while i < nn
        invariant
            i <= nn,
            nn == nitems@.len(),
            niv == arr_view(nitems@),
            json_get(v@, "nodes"@) == Some(JsonVal::Arr(niv)),
            json_get(v@, "edges"@) == Some(JsonVal::Arr(eiv)),
            nodes@.len() == i,
            spec_nodes_from_json(niv.take(i as int)) == Some(nodes_view(nodes@)),
        decreases nn - i,
    {
        match node_from_json(&nitems[i]) {
            Some(n) => {
                nodes.push(n);
                proof {
                    assert(niv.take(i + 1).drop_last() =~= niv.take(i as int));
                    assert(niv.take(i + 1).last() == niv[i as int]);
                    assert(nodes_view(nodes@) =~= spec_nodes_from_json(niv.take(i + 1))->Some_0);
                }
            },
            None => {
                proof {
                    lemma_nodes_bad(niv, i as int);
                }
                return None;
            },
        }
        i = i + 1;
    }
    proof {
        assert(niv.take(nn as int) =~= niv);
    }

    let mut edges: Vec<Edge> = Vec::new();
    let ne = eitems.len();
    let mut i: usize = 0;
    while i < ne
        invariant
            i <= ne,
            ne == eitems@.len(),
            eiv == arr_view(eitems@),
            json_get(v@, "nodes"@) == Some(JsonVal::Arr(niv)),
            json_get(v@, "edges"@) == Some(JsonVal::Arr(eiv)),
            edges@.len() == i,
            spec_edges_from_json(eiv.take(i as int)) == Some(edges_view(edges@)),
        decreases ne - i,
    {
        match edge_from_json(&eitems[i]) {
            Some(e) => {
                edges.push(e);
                proof {
                    assert(eiv.take(i + 1).drop_last() =~= eiv.take(i as int));
                    assert(eiv.take(i + 1).last() == eiv[i as int]);
                    assert(edges_view(edges@) =~= spec_edges_from_json(eiv.take(i + 1))->Some_0);
                }
            },
            None => {
                proof {
                    lemma_edges_bad(eiv, i as int);
                }
                return None;
            },
        }
        i = i + 1;
    }
    proof {
        assert(eiv.take(ne as int) =~= eiv);
    }

    let selected_hierarchy = match opt_text(v, "selectedHierarchy") {
        Some(o) => o,
        None => {
            return None;
        },
    };
    let hierarchy_choices = opt_passthrough(v, "hierarchyChoices");
    let node_assignments = opt_passthrough(v, "nodeAssignments");
    let edge_style_config = opt_passthrough(v, "edgeStyleConfig");
    let node_type_config = opt_passthrough(v, "nodeTypeConfig");
    let legend = opt_passthrough(v, "legend");
    let ir = HydroIr {
        nodes,
        edges,
        hierarchy_choices,
        node_assignments,
        selected_hierarchy,
        edge_style_config,
        node_type_config,
        legend,
    };
    proof {
        assert(spec_ir_from_json(v@) == Some(ir@)) by {
            assert(spec_ir_from_json(v@)->Some_0 =~~= ir@);
        }
    }
    Some(ir)
}

// ---------------------------------------------------------------------
// Emitting, specification side.
// ---------------------------------------------------------------------

/// An optional string member's entries.
pub open spec fn opt_text_entry(key: Seq<char>, o: Option<Seq<char>>) -> Seq<(Seq<char>, JsonVal)> {
    match o {
        Some(s) => seq![(key, JsonVal::Text(s))],
        None => Seq::empty(),
    }
}

/// An optional pass-through member's entries.
pub open spec fn opt_val_entry(key: Seq<char>, o: Option<JsonVal>) -> Seq<(Seq<char>, JsonVal)> {
    match o {
        Some(w) => seq![(key, w)],
        None => Seq::empty(),
    }
}

/// Strings as JSON string values.
pub open spec fn texts_json(ts: Seq<Seq<char>>) -> Seq<JsonVal> {
    Seq::new(ts.len(), |i: int| JsonVal::Text(ts[i]))
}

/// An optional string-array member's entries.
pub open spec fn opt_texts_entry(key: Seq<char>, o: Option<Seq<Seq<char>>>) -> Seq<
    (Seq<char>, JsonVal),
> {
    match o {
        Some(ts) => seq![(key, JsonVal::Arr(texts_json(ts)))],
        None => Seq::empty(),
    }
}

/// The document of a node's context payload; the location members are
/// always present, null standing for an absent one.
pub open spec fn spec_data_to_json(d: NodeDataView) -> JsonVal {
    JsonVal::Obj(
        seq![
            (
                "locationId"@,
                match d.location_id {
                    Some(n) => JsonVal::Num(dec_seq(n as nat)),
                    None => JsonVal::Null,
                },
            ),
            (
                "locationType"@,
                match d.location_type {
                    Some(s) => JsonVal::Text(s),
                    None => JsonVal::Null,
                },
            ),
            ("backtrace"@, d.backtrace),
        ],
    )
}

/// The document of one node; absent optional members are omitted.
pub open spec fn spec_node_to_json(n: NodeView) -> JsonVal {
    JsonVal::Obj(
        seq![
            ("id"@, JsonVal::Text(n.id)),
            ("nodeType"@, JsonVal::Text(n.node_type)),
            ("shortLabel"@, JsonVal::Text(n.short_label)),
        ] + opt_text_entry("fullLabel"@, n.full_label) + opt_text_entry("label"@, n.label) + (
        match n.data {
            Some(d) => seq![("data"@, spec_data_to_json(d))],
            None => Seq::empty(),
        }),
    )
}

/// The document of one edge.
pub open spec fn spec_edge_to_json(e: EdgeView) -> JsonVal {
    JsonVal::Obj(
        seq![
            ("id"@, JsonVal::Text(e.id)),
            ("source"@, JsonVal::Text(e.source)),
            ("target"@, JsonVal::Text(e.target)),
        ] + opt_texts_entry("edgeProperties"@, e.edge_properties) + opt_texts_entry(
            "semanticTags"@,
            e.semantic_tags,
        ) + opt_text_entry("label"@, e.label),
    )
}

/// The node array of the document.
pub open spec fn spec_nodes_to_json(ns: Seq<NodeView>) -> Seq<JsonVal> {
    Seq::new(ns.len(), |i: int| spec_node_to_json(ns[i]))
}

/// The edge array of the document.
pub open spec fn spec_edges_to_json(es: Seq<EdgeView>) -> Seq<JsonVal> {
    Seq::new(es.len(), |i: int| spec_edge_to_json(es[i]))
}

/// The document of a whole input IR.
pub open spec fn spec_ir_to_json(ir: IrView) -> JsonVal {
    JsonVal::Obj(
        seq![
            ("nodes"@, JsonVal::Arr(spec_nodes_to_json(ir.nodes))),
            ("edges"@, JsonVal::Arr(spec_edges_to_json(ir.edges))),
        ] + opt_val_entry("hierarchyChoices"@, ir.hierarchy_choices) + opt_val_entry(
            "nodeAssignments"@,
            ir.node_assignments,
        ) + opt_text_entry("selectedHierarchy"@, ir.selected_hierarchy) + opt_val_entry(
            "edgeStyleConfig"@,
            ir.edge_style_config,
        ) + opt_val_entry("nodeTypeConfig"@, ir.node_type_config) + opt_val_entry(
            "legend"@,
            ir.legend,
        ),
    )
}

// ---------------------------------------------------------------------
// Emitting, executable side.
// ---------------------------------------------------------------------

/// One node of the input IR as a document.
fn node_to_json(n: &Node) -> (r: JsonValue)
    ensures
        r@ == spec_node_to_json(n@),
{
    let mut kvs: Vec<(String, JsonValue)> = Vec::new();
    kvs.push(("id".to_owned(), JsonValue::Text(n.id.clone())));
    kvs.push(("nodeType".to_owned(), JsonValue::Text(n.node_type.clone())));
    kvs.push(("shortLabel".to_owned(), JsonValue::Text(n.short_label.clone())));
    match &n.full_label {
        Some(s) => {
            kvs.push(("fullLabel".to_owned(), JsonValue::Text(s.clone())));
        },
        None => {},
    }
    match &n.label {
        Some(s) => {
            kvs.push(("label".to_owned(), JsonValue::Text(s.clone())));
        },
        None => {},
    }
    match &n.data {
        Some(d) => {
            kvs.push(("data".to_owned(), data_to_json(d)));
        },
        None => {},
    }
    let r = JsonValue::Obj(kvs);
    proof {
        assert(pairs_view(r->Obj_0@) =~= spec_node_to_json(n@)->Obj_0);
    }
    r
}

/// One edge of the input IR as a document.
fn edge_to_json(e: &Edge) -> (r: JsonValue)
    ensures
        r@ == spec_edge_to_json(e@),
{
    let mut kvs: Vec<(String, JsonValue)> = Vec::new();
    kvs.push(("id".to_owned(), JsonValue::Text(e.id.clone())));
    kvs.push(("source".to_owned(), JsonValue::Text(e.source.clone())));
    kvs.push(("target".to_owned(), JsonValue::Text(e.target.clone())));
    match &e.edge_properties {
        Some(ts) => {
            kvs.push(("edgeProperties".to_owned(), texts_to_json(ts)));
        },
        None => {},
    }
    match &e.semantic_tags {
        Some(ts) => {
            kvs.push(("semanticTags".to_owned(), texts_to_json(ts)));
        },
        None => {},
    }
    match &e.label {
        Some(s) => {
            kvs.push(("label".to_owned(), JsonValue::Text(s.clone())));
        },
        None => {},
    }
    let r = JsonValue::Obj(kvs);
    proof {
        assert(pairs_view(r->Obj_0@) =~= spec_edge_to_json(e@)->Obj_0);
    }
    r
}

/// Emit a whole input IR as a document; parsing it gives the IR back
/// (see the round-trip law below).
#[verifier::rlimit(100)]
pub fn ir_to_json(ir: &HydroIr) -> (r: JsonValue)
    ensures
        r@ == spec_ir_to_json(ir@),
{
    let mut kvs: Vec<(String, JsonValue)> = Vec::new();

    let n = ir.nodes.len();
    let mut nodes_out: Vec<JsonValue> = Vec::new();
    let mut i: usize = 0;
    while i < n
        invariant
            i <= n,
            n == ir.nodes@.len(),
            nodes_out@.len() == i,
            forall|k: int|
                0 <= k < i ==> (#[trigger] nodes_out@[k])@ == spec_node_to_json(ir.nodes@[k]@),
        decreases n - i,
    {
        nodes_out.push(node_to_json(&ir.nodes[i]));
        i = i + 1;
    }
    let nodes_j = JsonValue::Arr(nodes_out);
    proof {
        assert(arr_view(nodes_j->Arr_0@) =~= spec_nodes_to_json(nodes_view(ir.nodes@)));
    }

    let m = ir.edges.len();
    let mut edges_out: Vec<JsonValue> = Vec::new();
    let mut i: usize = 0;
    while i < m
        invariant
            i <= m,
            m == ir.edges@.len(),
            edges_out@.len() == i,
            forall|k: int|
                0 <= k < i ==> (#[trigger] edges_out@[k])@ == spec_edge_to_json(ir.edges@[k]@),
        decreases m - i,
    {
        edges_out.push(edge_to_json(&ir.edges[i]));
        i = i + 1;
    }
    let edges_j = JsonValue::Arr(edges_out);
    proof {
        assert(arr_view(edges_j->Arr_0@) =~= spec_edges_to_json(edges_view(ir.edges@)));
    }

    kvs.push(("nodes".to_owned(), nodes_j));
    kvs.push(("edges".to_owned(), edges_j));
    match &ir.hierarchy_choices {
        Some(v) => {
            kvs.push(("hierarchyChoices".to_owned(), v.dup()));
        },
        None => {},
    }
    match &ir.node_assignments {
        Some(v) => {
            kvs.push(("nodeAssignments".to_owned(), v.dup()));
        },
        None => {},
    }
    match &ir.selected_hierarchy {
        Some(s) => {
            kvs.push(("selectedHierarchy".to_owned(), JsonValue::Text(s.clone())));
        },
        None => {},
    }
    match &ir.edge_style_config {
        Some(v) => {
            kvs.push(("edgeStyleConfig".to_owned(), v.dup()));
        },
        None => {},
    }
    match &ir.node_type_config {
        Some(v) => {
            kvs.push(("nodeTypeConfig".to_owned(), v.dup()));
        },
        None => {},
    }
    match &ir.legend {
        Some(v) => {
            kvs.push(("legend".to_owned(), v.dup()));
        },
        None => {},
    }
    let r = JsonValue::Obj(kvs);
    proof {
        assert(pairs_view(r->Obj_0@) =~= spec_ir_to_json(ir@)->Obj_0);
    }
    r
}

// ---------------------------------------------------------------------
// Emitting the annotated output IR.
// ---------------------------------------------------------------------

/// The document of a source location.
pub open spec fn spec_source_location_json(l: SourceLocation) -> JsonVal {
    JsonVal::Obj(
        seq![
            ("file"@, JsonVal::Text(l.file@)),
            ("line"@, JsonVal::Num(dec_seq(l.line as nat))),
        ] + opt_text_entry("function"@, l.function.deep_view()),
    )
}

/// The document of one finding.
pub open spec fn spec_issue_json(i: Issue) -> JsonVal {
    JsonVal::Obj(
        seq![("kind"@, JsonVal::Text(i.kind@)), ("message"@, JsonVal::Text(i.message@))],
    )
}

/// The documents of a finding list.
pub open spec fn issues_json(s: Seq<Issue>) -> Seq<JsonVal> {
    Seq::new(s.len(), |q: int| spec_issue_json(s[q]))
}

/// The document of a node's analysis record.
pub open spec fn spec_node_analysis_json(a: NodeAnalysis) -> JsonVal {
    JsonVal::Obj(
        seq![
            ("nd_effect"@, JsonVal::Text(a.nd_effect@)),
            ("monotone"@, JsonVal::Bool(a.monotone)),
            ("issues"@, JsonVal::Arr(issues_json(a.issues@))),
        ] + (match a.source_location {
            Some(l) => seq![("source_location"@, spec_source_location_json(l))],
            None => Seq::empty(),
        }),
    )
}

/// The document of an edge's analysis record.
pub open spec fn spec_edge_analysis_json(a: EdgeAnalysis) -> JsonVal {
    JsonVal::Obj(
        seq![
            ("is_lattice"@, JsonVal::Bool(a.is_lattice)),
            ("calm"@, JsonVal::Text(a.calm@)),
            ("issues"@, JsonVal::Arr(issues_json(a.issues@))),
        ],
    )
}

/// The document of the overall verdicts.
pub open spec fn spec_overall_json(o: OverallAnalysis) -> JsonVal {
    JsonVal::Obj(
        seq![
            ("deterministic"@, JsonVal::Bool(o.deterministic)),
            ("calm_safe"@, JsonVal::Bool(o.calm_safe)),
        ],
    )
}

/// The document of one annotated node.
pub open spec fn spec_annotated_node_json(n: AnnotatedNode) -> JsonVal {
    JsonVal::Obj(
        seq![("id"@, JsonVal::Text(n.id@)), ("nodeType"@, JsonVal::Text(n.node_type@))]
            + opt_texts_entry("semanticTags"@, n.semantic_tags.deep_view()) + seq![
            ("shortLabel"@, JsonVal::Text(n.short_label@)),
        ] + opt_text_entry("fullLabel"@, n.full_label.deep_view()) + opt_text_entry(
            "label"@,
            n.label.deep_view(),
        ) + (match n.data {
            Some(d) => seq![("data"@, spec_data_to_json(d@))],
            None => Seq::empty(),
        }) + (match n.analysis {
            Some(a) => seq![("analysis"@, spec_node_analysis_json(a))],
            None => Seq::empty(),
        }),
    )
}

/// The document of one annotated edge.
pub open spec fn spec_annotated_edge_json(e: AnnotatedEdge) -> JsonVal {
    JsonVal::Obj(
        seq![
            ("id"@, JsonVal::Text(e.id@)),
            ("source"@, JsonVal::Text(e.source@)),
            ("target"@, JsonVal::Text(e.target@)),
        ] + opt_texts_entry("edgeProperties"@, e.edge_properties.deep_view()) + opt_texts_entry(
            "semanticTags"@,
            e.semantic_tags.deep_view(),
        ) + opt_text_entry("label"@, e.label.deep_view()) + (match e.analysis {
            Some(a) => seq![("analysis"@, spec_edge_analysis_json(a))],
            None => Seq::empty(),
        }),
    )
}

/// The document of the whole annotated output.
pub open spec fn spec_annotated_ir_json(x: AnnotatedHydroIr) -> JsonVal {
    JsonVal::Obj(
        seq![
            ("nodes"@, JsonVal::Arr(Seq::new(x.nodes@.len(), |i: int| spec_annotated_node_json(x.nodes@[i])))),
            ("edges"@, JsonVal::Arr(Seq::new(x.edges@.len(), |i: int| spec_annotated_edge_json(x.edges@[i])))),
        ] + (match x.overall {
            Some(o) => seq![("overall"@, spec_overall_json(o))],
            None => Seq::empty(),
        }) + opt_val_entry("hierarchyChoices"@, opt_json_view(x.hierarchy_choices)) + opt_val_entry(
            "nodeAssignments"@,
            opt_json_view(x.node_assignments),
        ) + opt_text_entry("selectedHierarchy"@, x.selected_hierarchy.deep_view()) + opt_val_entry(
            "edgeStyleConfig"@,
            opt_json_view(x.edge_style_config),
        ) + opt_val_entry("nodeTypeConfig"@, opt_json_view(x.node_type_config)) + opt_val_entry(
            "legend"@,
            opt_json_view(x.legend),
        ),
    )
}

/// Strings as a JSON array of string values.
fn texts_to_json(ts: &Vec<String>) -> (r: JsonValue)
    ensures
        r@ == JsonVal::Arr(texts_json(ts.deep_view())),
{
    let n = ts.len();
    let mut out: Vec<JsonValue> = Vec::new();
    let mut i: usize = 0;
    while i < n
        invariant
            i <= n,
            n == ts@.len(),
            out@.len() == i,
            forall|k: int| 0 <= k < i ==> (#[trigger] out@[k])@ == JsonVal::Text(ts@[k]@),
        decreases n - i,
    {
        out.push(JsonValue::Text(ts[i].clone()));
        i = i + 1;
    }
    let r = JsonValue::Arr(out);
    proof {
        assert(arr_view(r->Arr_0@) =~= texts_json(ts.deep_view()));
    }
    r
}

/// A node's context payload as a document.
fn data_to_json(d: &NodeData) -> (r: JsonValue)
    ensures
        r@ == spec_data_to_json(d@),
{
    let mut kvs: Vec<(String, JsonValue)> = Vec::new();
    let lid: JsonValue = match d.location_id {
        Some(n) => JsonValue::Num(u64_to_dec(n as u64)),
        None => JsonValue::Null,
    };
    let lt: JsonValue = match &d.location_type {
        Some(s) => JsonValue::Text(s.clone()),
        None => JsonValue::Null,
    };
    kvs.push(("locationId".to_owned(), lid));
    kvs.push(("locationType".to_owned(), lt));
    kvs.push(("backtrace".to_owned(), d.backtrace.dup()));
    let r = JsonValue::Obj(kvs);
    proof {
        assert(pairs_view(r->Obj_0@) =~= spec_data_to_json(d@)->Obj_0);
    }
    r
}

/// A source location as a document.
fn source_location_to_json(l: &SourceLocation) -> (r: JsonValue)
    ensures
        r@ == spec_source_location_json(*l),
{
    let mut kvs: Vec<(String, JsonValue)> = Vec::new();
    kvs.push(("file".to_owned(), JsonValue::Text(l.file.clone())));
    kvs.push(("line".to_owned(), JsonValue::Num(u64_to_dec(l.line as u64))));
    match &l.function {
        Some(f) => {
            kvs.push(("function".to_owned(), JsonValue::Text(f.clone())));
        },
        None => {},
    }
    let r = JsonValue::Obj(kvs);
    proof {
        assert(pairs_view(r->Obj_0@) =~= spec_source_location_json(*l)->Obj_0);
    }
    r
}

/// A finding list as documents.
fn issues_to_json(issues: &Vec<Issue>) -> (r: JsonValue)
    ensures
        r@ == JsonVal::Arr(issues_json(issues@)),
{
    let n = issues.len();
    let mut out: Vec<JsonValue> = Vec::new();
    let mut i: usize = 0;
    while i < n
        invariant
            i <= n,
            n == issues@.len(),
            out@.len() == i,
            forall|k: int| 0 <= k < i ==> (#[trigger] out@[k])@ == spec_issue_json(issues@[k]),
        decreases n - i,
    {
        let mut kvs: Vec<(String, JsonValue)> = Vec::new();
        kvs.push(("kind".to_owned(), JsonValue::Text(issues[i].kind.clone())));
        kvs.push(("message".to_owned(), JsonValue::Text(issues[i].message.clone())));
        let j = JsonValue::Obj(kvs);
        proof {
            assert(pairs_view(j->Obj_0@) =~= spec_issue_json(issues@[i as int])->Obj_0);
        }
        out.push(j);
        i = i + 1;
    }
    let r = JsonValue::Arr(out);
    proof {
        assert(arr_view(r->Arr_0@) =~= issues_json(issues@));
    }
    r
}

/// A node analysis record as a document.
fn node_analysis_to_json(a: &NodeAnalysis) -> (r: JsonValue)
    ensures
        r@ == spec_node_analysis_json(*a),
{
    let mut kvs: Vec<(String, JsonValue)> = Vec::new();
    kvs.push(("nd_effect".to_owned(), JsonValue::Text(a.nd_effect.clone())));
    kvs.push(("monotone".to_owned(), JsonValue::Bool(a.monotone)));
    kvs.push(("issues".to_owned(), issues_to_json(&a.issues)));
    match &a.source_location {
        Some(l) => {
            kvs.push(("source_location".to_owned(), source_location_to_json(l)));
        },
        None => {},
    }
    let r = JsonValue::Obj(kvs);
    proof {
        assert(pairs_view(r->Obj_0@) =~= spec_node_analysis_json(*a)->Obj_0);
    }
    r
}

/// An edge analysis record as a document.
fn edge_analysis_to_json(a: &EdgeAnalysis) -> (r: JsonValue)
    ensures
        r@ == spec_edge_analysis_json(*a),
{
    let mut kvs: Vec<(String, JsonValue)> = Vec::new();
    kvs.push(("is_lattice".to_owned(), JsonValue::Bool(a.is_lattice)));
    kvs.push(("calm".to_owned(), JsonValue::Text(a.calm.clone())));
    kvs.push(("issues".to_owned(), issues_to_json(&a.issues)));
    let r = JsonValue::Obj(kvs);
    proof {
        assert(pairs_view(r->Obj_0@) =~= spec_edge_analysis_json(*a)->Obj_0);
    }
    r
}

/// One annotated node as a document.
fn annotated_node_to_json(n: &AnnotatedNode) -> (r: JsonValue)
    ensures
        r@ == spec_annotated_node_json(*n),
{
    let mut kvs: Vec<(String, JsonValue)> = Vec::new();
    kvs.push(("id".to_owned(), JsonValue::Text(n.id.clone())));
    kvs.push(("nodeType".to_owned(), JsonValue::Text(n.node_type.clone())));
    match &n.semantic_tags {
        Some(ts) => {
            kvs.push(("semanticTags".to_owned(), texts_to_json(ts)));
        },
        None => {},
    }
    kvs.push(("shortLabel".to_owned(), JsonValue::Text(n.short_label.clone())));
    match &n.full_label {
        Some(s) => {
            kvs.push(("fullLabel".to_owned(), JsonValue::Text(s.clone())));
        },
        None => {},
    }
    match &n.label {
        Some(s) => {
            kvs.push(("label".to_owned(), JsonValue::Text(s.clone())));
        },
        None => {},
    }
    match &n.data {
        Some(d) => {
            kvs.push(("data".to_owned(), data_to_json(d)));
        },
        None => {},
    }
    match &n.analysis {
        Some(a) => {
            kvs.push(("analysis".to_owned(), node_analysis_to_json(a)));
        },
        None => {},
    }
    let r = JsonValue::Obj(kvs);
    proof {
        assert(pairs_view(r->Obj_0@) =~= spec_annotated_node_json(*n)->Obj_0);
    }
    r
}

/// One annotated edge as a document.
fn annotated_edge_to_json(e: &AnnotatedEdge) -> (r: JsonValue)
    ensures
        r@ == spec_annotated_edge_json(*e),
{
    let mut kvs: Vec<(String, JsonValue)> = Vec::new();
    kvs.push(("id".to_owned(), JsonValue::Text(e.id.clone())));
    kvs.push(("source".to_owned(), JsonValue::Text(e.source.clone())));
    kvs.push(("target".to_owned(), JsonValue::Text(e.target.clone())));
    match &e.edge_properties {
        Some(ts) => {
            kvs.push(("edgeProperties".to_owned(), texts_to_json(ts)));
        },
        None => {},
    }
    match &e.semantic_tags {
        Some(ts) => {
            kvs.push(("semanticTags".to_owned(), texts_to_json(ts)));
        },
        None => {},
    }
    match &e.label {
        Some(s) => {
            kvs.push(("label".to_owned(), JsonValue::Text(s.clone())));
        },
        None => {},
    }
    match &e.analysis {
        Some(a) => {
            kvs.push(("analysis".to_owned(), edge_analysis_to_json(a)));
        },
        None => {},
    }
    let r = JsonValue::Obj(kvs);
    proof {
        assert(pairs_view(r->Obj_0@) =~= spec_annotated_edge_json(*e)->Obj_0);
    }
    r
}

/// The whole annotated output as a document, ready for serialization.
#[verifier::rlimit(100)]
pub fn annotated_to_json(x: &AnnotatedHydroIr) -> (r: JsonValue)
    ensures
        r@ == spec_annotated_ir_json(*x),
{
    let mut kvs: Vec<(String, JsonValue)> = Vec::new();

    let n = x.nodes.len();
    let mut nodes_out: Vec<JsonValue> = Vec::new();
    let mut i: usize = 0;
    while i < n
        invariant
            i <= n,
            n == x.nodes@.len(),
            nodes_out@.len() == i,
            forall|k: int|
                0 <= k < i ==> (#[trigger] nodes_out@[k])@ == spec_annotated_node_json(
                    x.nodes@[k],
                ),
        decreases n - i,
    {
        nodes_out.push(annotated_node_to_json(&x.nodes[i]));
        i = i + 1;
    }
    let nodes_j = JsonValue::Arr(nodes_out);
    proof {
        assert(arr_view(nodes_j->Arr_0@) =~= Seq::new(
            x.nodes@.len(),
            |i: int| spec_annotated_node_json(x.nodes@[i]),
        ));
    }

    let m = x.edges.len();
    let mut edges_out: Vec<JsonValue> = Vec::new();
    let mut i: usize = 0;
    while i < m
        invariant
            i <= m,
            m == x.edges@.len(),
            edges_out@.len() == i,
            forall|k: int|
                0 <= k < i ==> (#[trigger] edges_out@[k])@ == spec_annotated_edge_json(
                    x.edges@[k],
                ),
        decreases m - i,
    {
        edges_out.push(annotated_edge_to_json(&x.edges[i]));
        i = i + 1;
    }
    let edges_j = JsonValue::Arr(edges_out);
    proof {
        assert(arr_view(edges_j->Arr_0@) =~= Seq::new(
            x.edges@.len(),
            |i: int| spec_annotated_edge_json(x.edges@[i]),
        ));
    }

    kvs.push(("nodes".to_owned(), nodes_j));
    kvs.push(("edges".to_owned(), edges_j));
    match &x.overall {
        Some(o) => {
            let mut okvs: Vec<(String, JsonValue)> = Vec::new();
            okvs.push(("deterministic".to_owned(), JsonValue::Bool(o.deterministic)));
            okvs.push(("calm_safe".to_owned(), JsonValue::Bool(o.calm_safe)));
            let oj = JsonValue::Obj(okvs);
            proof {
                assert(pairs_view(oj->Obj_0@) =~= spec_overall_json(*o)->Obj_0);
            }
            kvs.push(("overall".to_owned(), oj));
        },
        None => {},
    }
    match &x.hierarchy_choices {
        Some(v) => {
            kvs.push(("hierarchyChoices".to_owned(), v.dup()));
        },
        None => {},
    }
    match &x.node_assignments {
        Some(v) => {
            kvs.push(("nodeAssignments".to_owned(), v.dup()));
        },
        None => {},
    }
    match &x.selected_hierarchy {
        Some(s) => {
            kvs.push(("selectedHierarchy".to_owned(), JsonValue::Text(s.clone())));
        },
        None => {},
    }
    match &x.edge_style_config {
        Some(v) => {
            kvs.push(("edgeStyleConfig".to_owned(), v.dup()));
        },
        None => {},
    }
    match &x.node_type_config {
        Some(v) => {
            kvs.push(("nodeTypeConfig".to_owned(), v.dup()));
        },
        None => {},
    }
    match &x.legend {
        Some(v) => {
            kvs.push(("legend".to_owned(), v.dup()));
        },
        None => {},
    }
    let r = JsonValue::Obj(kvs);
    proof {
        assert(pairs_view(r->Obj_0@) =~= spec_annotated_ir_json(*x)->Obj_0);
    }
    r
}

// ---------------------------------------------------------------------
// Round trip: parsing the emitted document gives the IR back.
// ---------------------------------------------------------------------

/// Round trip of a context payload.
proof fn lemma_data_round_trip(d: NodeDataView)
    ensures
        spec_data_from_json(spec_data_to_json(d)) == Some(d),
{
    reveal_strlit("locationId");
    reveal_strlit("locationType");
    reveal_strlit("backtrace");
    assert("locationId"@.len() == 10 && "locationType"@.len() == 12 && "backtrace"@.len() == 9);
    let j = spec_data_to_json(d);
    let kvs = j->Obj_0;
    assert(obj_lookup(kvs, "locationId"@) == Some(kvs[0].1)) by {
        lemma_obj_lookup_first(kvs, "locationId"@, 0);
    }
    assert(obj_lookup(kvs, "locationType"@) == Some(kvs[1].1)) by {
        lemma_obj_lookup_first(kvs, "locationType"@, 1);
    }
    assert(obj_lookup(kvs, "backtrace"@) == Some(kvs[2].1)) by {
        lemma_obj_lookup_first(kvs, "backtrace"@, 2);
    }
    match d.location_id {
        Some(n) => {
            lemma_dec_seq_val(n as nat);
            assert(json_as_u64(kvs[0].1) == Some(n as u64));
            assert(spec_opt_location_id(j, "locationId"@) == Some(Some(n)));
        },
        None => {
            assert(spec_opt_location_id(j, "locationId"@) == Some(None::<usize>));
        },
    }
    assert(spec_data_from_json(j)->Some_0 =~~= d);
}

/// Round trip of one node.
proof fn lemma_node_round_trip(n: NodeView)
    ensures
        spec_node_from_json(spec_node_to_json(n)) == Some(n),
{
    reveal_strlit("id");
    reveal_strlit("nodeType");
    reveal_strlit("shortLabel");
    reveal_strlit("fullLabel");
    reveal_strlit("label");
    reveal_strlit("data");
    assert("id"@.len() == 2 && "nodeType"@.len() == 8 && "shortLabel"@.len() == 10
        && "fullLabel"@.len() == 9 && "label"@.len() == 5 && "data"@.len() == 4);
    let j = spec_node_to_json(n);
    let base = seq![
        ("id"@, JsonVal::Text(n.id)),
        ("nodeType"@, JsonVal::Text(n.node_type)),
        ("shortLabel"@, JsonVal::Text(n.short_label)),
    ];
    let o1 = opt_text_entry("fullLabel"@, n.full_label);
    let o2 = opt_text_entry("label"@, n.label);
    let o3 = (match n.data {
        Some(d) => seq![("data"@, spec_data_to_json(d))],
        None => Seq::<(Seq<char>, JsonVal)>::empty(),
    });
    lemma_obj_lookup_concat(base, o1);
    lemma_obj_lookup_concat(base + o1, o2);
    lemma_obj_lookup_concat(base + o1 + o2, o3);
    lemma_obj_lookup_first(base, "id"@, 0);
    lemma_obj_lookup_first(base, "nodeType"@, 1);
    lemma_obj_lookup_first(base, "shortLabel"@, 2);
    lemma_obj_lookup_none(base, "fullLabel"@);
    lemma_obj_lookup_none(base, "label"@);
    lemma_obj_lookup_none(base, "data"@);
    assert(spec_req_text(j, "id"@) == Some(n.id));
    assert(spec_req_text(j, "nodeType"@) == Some(n.node_type));
    assert(spec_req_text(j, "shortLabel"@) == Some(n.short_label));
    assert(spec_opt_text(j, "fullLabel"@) == Some(n.full_label)) by {
        match n.full_label {
            Some(s) => {
                assert(o1[0].0 == "fullLabel"@);
            },
            None => {
                assert(obj_lookup(o1, "fullLabel"@) is None);
                match n.label {
                    Some(s2) => {
                        assert(o2 == seq![("label"@, JsonVal::Text(s2))]);
                        assert(o2[0].0 != "fullLabel"@);
                        lemma_obj_lookup_none(o2, "fullLabel"@);
                    },
                    None => {},
                }
                match n.data {
                    Some(d) => {
                        assert(o3[0].0 != "fullLabel"@);
                        lemma_obj_lookup_none(o3, "fullLabel"@);
                    },
                    None => {},
                }
            },
        }
    }
    assert(spec_opt_text(j, "label"@) == Some(n.label)) by {
        match n.label {
            Some(s) => {
                assert(o1.len() <= 1);
                if n.full_label is Some {
                    assert(o1[0].0 != "label"@);
                }
                lemma_obj_lookup_none(o1, "label"@);
                assert(o2[0].0 == "label"@);
            },
            None => {
                if n.full_label is Some {
                    assert(o1[0].0 != "label"@);
                }
                lemma_obj_lookup_none(o1, "label"@);
                match n.data {
                    Some(d) => {
                        assert(o3[0].0 != "label"@);
                        lemma_obj_lookup_none(o3, "label"@);
                    },
                    None => {},
                }
            },
        }
    }
    assert(spec_opt_data(j) == Some(n.data)) by {
        if n.full_label is Some {
            assert(o1[0].0 != "data"@);
        }
        lemma_obj_lookup_none(o1, "data"@);
        if n.label is Some {
            assert(o2[0].0 != "data"@);
        }
        lemma_obj_lookup_none(o2, "data"@);
        match n.data {
            Some(d) => {
                assert(o3[0].0 == "data"@);
                assert(json_get(j, "data"@) == Some(spec_data_to_json(d)));
                lemma_data_round_trip(d);
                assert(!(spec_data_to_json(d) is Null));
            },
            None => {},
        }
    }
    assert(spec_node_from_json(j)->Some_0 =~~= n);
}

/// Round trip of a string array.
proof fn lemma_texts_round_trip(ts: Seq<Seq<char>>)
    ensures
        spec_texts(texts_json(ts)) == Some(ts),
    decreases ts.len(),
{
    if ts.len() == 0 {
        assert(texts_json(ts) =~= Seq::<JsonVal>::empty());
    } else {
        lemma_texts_round_trip(ts.drop_last());
        assert(texts_json(ts).drop_last() =~= texts_json(ts.drop_last()));
        assert(texts_json(ts).last() == JsonVal::Text(ts.last()));
        assert(spec_texts(texts_json(ts))->Some_0 =~= ts);
    }
}

/// Round trip of one edge.
proof fn lemma_edge_round_trip(e: EdgeView)
    ensures
        spec_edge_from_json(spec_edge_to_json(e)) == Some(e),
{
    reveal_strlit("id");
    reveal_strlit("source");
    reveal_strlit("target");
    reveal_strlit("edgeProperties");
    reveal_strlit("semanticTags");
    reveal_strlit("label");
    assert("id"@.len() == 2 && "source"@.len() == 6 && "target"@.len() == 6
        && "edgeProperties"@.len() == 14 && "semanticTags"@.len() == 12 && "label"@.len() == 5);
    assert("source"@[0] == 's' && "target"@[0] == 't');
    let j = spec_edge_to_json(e);
    let base = seq![
        ("id"@, JsonVal::Text(e.id)),
        ("source"@, JsonVal::Text(e.source)),
        ("target"@, JsonVal::Text(e.target)),
    ];
    let o1 = opt_texts_entry("edgeProperties"@, e.edge_properties);
    let o2 = opt_texts_entry("semanticTags"@, e.semantic_tags);
    let o3 = opt_text_entry("label"@, e.label);
    lemma_obj_lookup_concat(base, o1);
    lemma_obj_lookup_concat(base + o1, o2);
    lemma_obj_lookup_concat(base + o1 + o2, o3);
    lemma_obj_lookup_first(base, "id"@, 0);
    lemma_obj_lookup_first(base, "source"@, 1);
    lemma_obj_lookup_first(base, "target"@, 2);
    lemma_obj_lookup_none(base, "edgeProperties"@);
    lemma_obj_lookup_none(base, "semanticTags"@);
    lemma_obj_lookup_none(base, "label"@);
    if e.edge_properties is Some {
        assert(o1[0].0 == "edgeProperties"@ && o1[0].0 != "semanticTags"@ && o1[0].0 != "label"@);
    }
    if e.semantic_tags is Some {
        assert(o2[0].0 == "semanticTags"@ && o2[0].0 != "edgeProperties"@ && o2[0].0 != "label"@);
    }
    if e.label is Some {
        assert(o3[0].0 == "label"@ && o3[0].0 != "edgeProperties"@ && o3[0].0 != "semanticTags"@);
    }
    assert(spec_opt_texts(j, "edgeProperties"@) == Some(e.edge_properties)) by {
        match e.edge_properties {
            Some(ts) => {
                lemma_texts_round_trip(ts);
            },
            None => {
                lemma_obj_lookup_none(o1, "edgeProperties"@);
                lemma_obj_lookup_none(o2, "edgeProperties"@);
                lemma_obj_lookup_none(o3, "edgeProperties"@);
            },
        }
    }
    assert(spec_opt_texts(j, "semanticTags"@) == Some(e.semantic_tags)) by {
        lemma_obj_lookup_none(o1, "semanticTags"@);
        match e.semantic_tags {
            Some(ts) => {
                lemma_texts_round_trip(ts);
            },
            None => {
                lemma_obj_lookup_none(o2, "semanticTags"@);
                lemma_obj_lookup_none(o3, "semanticTags"@);
            },
        }
    }
    assert(spec_opt_text(j, "label"@) == Some(e.label)) by {
        lemma_obj_lookup_none(o1, "label"@);
        lemma_obj_lookup_none(o2, "label"@);
        match e.label {
            Some(s) => {
                assert(o3[0].0 == "label"@);
            },
            None => {},
        }
    }
    assert(spec_edge_from_json(j)->Some_0 =~~= e);
}

/// Round trip of the node array.
proof fn lemma_nodes_round_trip(ns: Seq<NodeView>)
    ensures
        spec_nodes_from_json(spec_nodes_to_json(ns)) == Some(ns),
    decreases ns.len(),
{
    if ns.len() == 0 {
        assert(spec_nodes_to_json(ns) =~= Seq::<JsonVal>::empty());
    } else {
        lemma_nodes_round_trip(ns.drop_last());
        assert(spec_nodes_to_json(ns).drop_last() =~= spec_nodes_to_json(ns.drop_last()));
        assert(spec_nodes_to_json(ns).last() == spec_node_to_json(ns.last()));
        lemma_node_round_trip(ns.last());
        assert(spec_nodes_from_json(spec_nodes_to_json(ns))->Some_0 =~= ns);
    }
}

/// Round trip of the edge array.
proof fn lemma_edges_round_trip(es: Seq<EdgeView>)
    ensures
        spec_edges_from_json(spec_edges_to_json(es)) == Some(es),
    decreases es.len(),
{
    if es.len() == 0 {
        assert(spec_edges_to_json(es) =~= Seq::<JsonVal>::empty());
    } else {
        lemma_edges_round_trip(es.drop_last());
        assert(spec_edges_to_json(es).drop_last() =~= spec_edges_to_json(es.drop_last()));
        assert(spec_edges_to_json(es).last() == spec_edge_to_json(es.last()));
        lemma_edge_round_trip(es.last());
        assert(spec_edges_from_json(spec_edges_to_json(es))->Some_0 =~= es);
    }
}

/// Round trip of a whole IR whose pass-through members are not bare JSON
/// nulls (a parsed IR never holds one: a null member reads as absent).
pub proof fn lemma_ir_json_round_trip(ir: IrView)
    requires
        ir.hierarchy_choices != Some(JsonVal::Null),
        ir.node_assignments != Some(JsonVal::Null),
        ir.edge_style_config != Some(JsonVal::Null),
        ir.node_type_config != Some(JsonVal::Null),
        ir.legend != Some(JsonVal::Null),
    ensures
        spec_ir_from_json(spec_ir_to_json(ir)) == Some(ir),
{
    reveal_strlit("nodes");
    reveal_strlit("edges");
    reveal_strlit("hierarchyChoices");
    reveal_strlit("nodeAssignments");
    reveal_strlit("selectedHierarchy");
    reveal_strlit("edgeStyleConfig");
    reveal_strlit("nodeTypeConfig");
    reveal_strlit("legend");
    assert("nodes"@.len() == 5 && "edges"@.len() == 5 && "hierarchyChoices"@.len() == 16
        && "nodeAssignments"@.len() == 15 && "selectedHierarchy"@.len() == 17
        && "edgeStyleConfig"@.len() == 15 && "nodeTypeConfig"@.len() == 14 && "legend"@.len()
        == 6);
    assert("nodes"@[0] == 'n' && "edges"@[0] == 'e' && "nodeAssignments"@[0] == 'n'
        && "edgeStyleConfig"@[0] == 'e');
    let j = spec_ir_to_json(ir);
    let base = seq![
        ("nodes"@, JsonVal::Arr(spec_nodes_to_json(ir.nodes))),
        ("edges"@, JsonVal::Arr(spec_edges_to_json(ir.edges))),
    ];
    let o1 = opt_val_entry("hierarchyChoices"@, ir.hierarchy_choices);
    let o2 = opt_val_entry("nodeAssignments"@, ir.node_assignments);
    let o3 = opt_text_entry("selectedHierarchy"@, ir.selected_hierarchy);
    let o4 = opt_val_entry("edgeStyleConfig"@, ir.edge_style_config);
    let o5 = opt_val_entry("nodeTypeConfig"@, ir.node_type_config);
    let o6 = opt_val_entry("legend"@, ir.legend);
    lemma_obj_lookup_concat(base, o1);
    lemma_obj_lookup_concat(base + o1, o2);
    lemma_obj_lookup_concat(base + o1 + o2, o3);
    lemma_obj_lookup_concat(base + o1 + o2 + o3, o4);
    lemma_obj_lookup_concat(base + o1 + o2 + o3 + o4, o5);
    lemma_obj_lookup_concat(base + o1 + o2 + o3 + o4 + o5, o6);
    lemma_obj_lookup_first(base, "nodes"@, 0);
    lemma_obj_lookup_first(base, "edges"@, 1);
    let keys = seq![
        "hierarchyChoices"@,
        "nodeAssignments"@,
        "selectedHierarchy"@,
        "edgeStyleConfig"@,
        "nodeTypeConfig"@,
        "legend"@,
    ];
    assert forall|ki: int| 0 <= ki < 6 implies {
        &&& obj_lookup(base, #[trigger] keys[ki]) is None
        &&& (ir.hierarchy_choices is Some && ki != 0 ==> obj_lookup(o1, keys[ki]) is None)
        &&& (ir.node_assignments is Some && ki != 1 ==> obj_lookup(o2, keys[ki]) is None)
        &&& (ir.selected_hierarchy is Some && ki != 2 ==> obj_lookup(o3, keys[ki]) is None)
        &&& (ir.edge_style_config is Some && ki != 3 ==> obj_lookup(o4, keys[ki]) is None)
        &&& (ir.node_type_config is Some && ki != 4 ==> obj_lookup(o5, keys[ki]) is None)
        &&& (ir.legend is Some && ki != 5 ==> obj_lookup(o6, keys[ki]) is None)
    } by {
        lemma_obj_lookup_none(base, keys[ki]);
        if ir.hierarchy_choices is Some && ki != 0 {
            assert(o1[0].0 != keys[ki]);
            lemma_obj_lookup_none(o1, keys[ki]);
        }
        if ir.node_assignments is Some && ki != 1 {
            assert(o2[0].0 != keys[ki]);
            lemma_obj_lookup_none(o2, keys[ki]);
        }
        if ir.selected_hierarchy is Some && ki != 2 {
            assert(o3[0].0 != keys[ki]);
            lemma_obj_lookup_none(o3, keys[ki]);
        }
        if ir.edge_style_config is Some && ki != 3 {
            assert(o4[0].0 != keys[ki]);
            lemma_obj_lookup_none(o4, keys[ki]);
        }
        if ir.node_type_config is Some && ki != 4 {
            assert(o5[0].0 != keys[ki]);
            lemma_obj_lookup_none(o5, keys[ki]);
        }
        if ir.legend is Some && ki != 5 {
            assert(o6[0].0 != keys[ki]);
            lemma_obj_lookup_none(o6, keys[ki]);
        }
    }
    if ir.hierarchy_choices is None {
        lemma_obj_lookup_none(o1, keys[0]);
    }
    if ir.node_assignments is None {
        lemma_obj_lookup_none(o2, keys[1]);
    }
    if ir.selected_hierarchy is None {
        lemma_obj_lookup_none(o3, keys[2]);
    }
    if ir.edge_style_config is None {
        lemma_obj_lookup_none(o4, keys[3]);
    }
    if ir.node_type_config is None {
        lemma_obj_lookup_none(o5, keys[4]);
    }
    if ir.legend is None {
        lemma_obj_lookup_none(o6, keys[5]);
    }
    lemma_nodes_round_trip(ir.nodes);
    lemma_edges_round_trip(ir.edges);
    assert(json_get(j, "nodes"@) == Some(JsonVal::Arr(spec_nodes_to_json(ir.nodes))));
    assert(json_get(j, "edges"@) == Some(JsonVal::Arr(spec_edges_to_json(ir.edges))));
    assert(spec_opt_passthrough(j, "hierarchyChoices"@) == ir.hierarchy_choices);
    assert(spec_opt_passthrough(j, "nodeAssignments"@) == ir.node_assignments);
    assert(spec_opt_text(j, "selectedHierarchy"@) == Some(ir.selected_hierarchy));
    assert(spec_opt_passthrough(j, "edgeStyleConfig"@) == ir.edge_style_config);
    assert(spec_opt_passthrough(j, "nodeTypeConfig"@) == ir.node_type_config);
    assert(spec_opt_passthrough(j, "legend"@) == ir.legend);
    assert(spec_ir_from_json(j)->Some_0 =~~= ir);
}

/// Round trip as the codec law: a document that parses, re-emitted from
/// its parse, parses to the same IR.
pub proof fn lemma_parse_emit_parse(v: JsonVal)
    requires
        spec_ir_from_json(v) is Some,
    ensures
        spec_ir_from_json(spec_ir_to_json(spec_ir_from_json(v)->Some_0)) == spec_ir_from_json(v),
{
    let ir = spec_ir_from_json(v)->Some_0;
    assert(ir.hierarchy_choices != Some(JsonVal::Null));
    assert(ir.node_assignments != Some(JsonVal::Null));
    assert(ir.edge_style_config != Some(JsonVal::Null));
    assert(ir.node_type_config != Some(JsonVal::Null));
    assert(ir.legend != Some(JsonVal::Null));
    lemma_ir_json_round_trip(ir);
}

} // verus!
