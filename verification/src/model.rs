//! Data model: the input dataflow IR, the analysis products, and the
//! annotated output IR, together with their mathematical views.

use vstd::prelude::*;
use crate::json::{JsonVal, JsonValue, json_as_arr, json_as_text, json_as_u64, json_get};
use crate::strutil::{contains_seq, starts_with_seq, str_contains, str_starts_with};

verus! {

broadcast use vstd::seq::group_seq_axioms, vstd::std_specs::vec::group_vec_axioms;

/// A dataflow operator vertex.
pub struct Node {
    pub id: String,
    pub node_type: String,
    pub short_label: String,
    pub full_label: Option<String>,
    pub label: Option<String>,
    pub data: Option<NodeData>,
}

/// Context payload of a node: location descriptor and backtrace.
pub struct NodeData {
    pub location_id: Option<usize>,
    pub location_type: Option<String>,
    pub backtrace: JsonValue,
}

/// A directed, typed stream between two nodes.
pub struct Edge {
    pub id: String,
    pub source: String,
    pub target: String,
    pub edge_properties: Option<Vec<String>>,
    pub semantic_tags: Option<Vec<String>>,
    pub label: Option<String>,
}

/// The input IR: nodes, edges, and opaque pass-through documents.
pub struct HydroIr {
    pub nodes: Vec<Node>,
    pub edges: Vec<Edge>,
    pub hierarchy_choices: Option<JsonValue>,
    pub node_assignments: Option<JsonValue>,
    pub selected_hierarchy: Option<String>,
    pub edge_style_config: Option<JsonValue>,
    pub node_type_config: Option<JsonValue>,
    pub legend: Option<JsonValue>,
}

/// Mathematical view of a [`NodeData`].
#[verifier::ext_equal]
pub ghost struct NodeDataView {
    pub location_id: Option<usize>,
    pub location_type: Option<Seq<char>>,
    pub backtrace: JsonVal,
}

/// Mathematical view of a [`Node`].
#[verifier::ext_equal]
pub ghost struct NodeView {
    pub id: Seq<char>,
    pub node_type: Seq<char>,
    pub short_label: Seq<char>,
    pub full_label: Option<Seq<char>>,
    pub label: Option<Seq<char>>,
    pub data: Option<NodeDataView>,
}

/// Mathematical view of an [`Edge`].
#[verifier::ext_equal]
pub ghost struct EdgeView {
    pub id: Seq<char>,
    pub source: Seq<char>,
    pub target: Seq<char>,
    pub edge_properties: Option<Seq<Seq<char>>>,
    pub semantic_tags: Option<Seq<Seq<char>>>,
    pub label: Option<Seq<char>>,
}

/// Mathematical view of a [`HydroIr`].
#[verifier::ext_equal]
pub ghost struct IrView {
    pub nodes: Seq<NodeView>,
    pub edges: Seq<EdgeView>,
    pub hierarchy_choices: Option<JsonVal>,
    pub node_assignments: Option<JsonVal>,
    pub selected_hierarchy: Option<Seq<char>>,
    pub edge_style_config: Option<JsonVal>,
    pub node_type_config: Option<JsonVal>,
    pub legend: Option<JsonVal>,
}

impl View for NodeData {
    type V = NodeDataView;

    open spec fn view(&self) -> NodeDataView {
        NodeDataView {
            location_id: self.location_id,
            location_type: self.location_type.deep_view(),
            backtrace: self.backtrace@,
        }
    }
}

impl View for Node {
    type V = NodeView;

    open spec fn view(&self) -> NodeView {
        NodeView {
            id: self.id@,
            node_type: self.node_type@,
            short_label: self.short_label@,
            full_label: self.full_label.deep_view(),
            label: self.label.deep_view(),
            data: match self.data {
                Some(d) => Some(d@),
                None => None,
            },
        }
    }
}

impl View for Edge {
    type V = EdgeView;

    open spec fn view(&self) -> EdgeView {
        EdgeView {
            id: self.id@,
            source: self.source@,
            target: self.target@,
            edge_properties: self.edge_properties.deep_view(),
            semantic_tags: self.semantic_tags.deep_view(),
            label: self.label.deep_view(),
        }
    }
}

/// View of an optional opaque JSON pass-through field.
pub open spec fn opt_json_view(v: Option<JsonValue>) -> Option<JsonVal> {
    match v {
        Some(j) => Some(j@),
        None => None,
    }
}

/// Element-wise view of a node sequence.
pub open spec fn nodes_view(ns: Seq<Node>) -> Seq<NodeView> {
    Seq::new(ns.len(), |i: int| ns[i]@)
}

/// Element-wise view of an edge sequence.
pub open spec fn edges_view(es: Seq<Edge>) -> Seq<EdgeView> {
    Seq::new(es.len(), |i: int| es[i]@)
}

impl View for HydroIr {
    type V = IrView;

    open spec fn view(&self) -> IrView {
        IrView {
            nodes: nodes_view(self.nodes@),
            edges: edges_view(self.edges@),
            hierarchy_choices: opt_json_view(self.hierarchy_choices),
            node_assignments: opt_json_view(self.node_assignments),
            selected_hierarchy: self.selected_hierarchy.deep_view(),
            edge_style_config: opt_json_view(self.edge_style_config),
            node_type_config: opt_json_view(self.node_type_config),
            legend: opt_json_view(self.legend),
        }
    }
}

/// One analysis finding attached to a node or an edge.
pub struct Issue {
    pub kind: String,
    pub message: String,
}

/// The (kind, message) views of an issue list.
pub open spec fn issues_view(s: Seq<Issue>) -> Seq<(Seq<char>, Seq<char>)> {
    Seq::new(s.len(), |q: int| (s[q].kind@, s[q].message@))
}

/// A source position extracted from a node's backtrace.
pub struct SourceLocation {
    pub file: String,
    pub line: u32,
    pub function: Option<String>,
}

/// Mathematical view of a [`SourceLocation`].
#[verifier::ext_equal]
pub ghost struct SourceLocationView {
    pub file: Seq<char>,
    pub line: u32,
    pub function: Option<Seq<char>>,
}

impl View for SourceLocation {
    type V = SourceLocationView;

    open spec fn view(&self) -> SourceLocationView {
        SourceLocationView {
            file: self.file@,
            line: self.line,
            function: self.function.deep_view(),
        }
    }
}

/// View of an optional source location.
pub open spec fn opt_loc_view(o: Option<SourceLocation>) -> Option<SourceLocationView> {
    match o {
        Some(l) => Some(l@),
        None => None,
    }
}

/// Per-node analysis product.
pub struct NodeAnalysis {
    pub nd_effect: String,
    pub monotone: bool,
    pub issues: Vec<Issue>,
    pub source_location: Option<SourceLocation>,
}

/// Per-edge analysis product.
pub struct EdgeAnalysis {
    pub is_lattice: bool,
    pub calm: String,
    pub issues: Vec<Issue>,
}

/// Whole-graph verdicts.
#[derive(Clone, Copy, PartialEq, Eq, Structural, Debug)]
pub struct OverallAnalysis {
    pub deterministic: bool,
    pub calm_safe: bool,
}

/// A node of the annotated output: the input node plus semantic tags
/// and its analysis.
pub struct AnnotatedNode {
    pub id: String,
    pub node_type: String,
    pub semantic_tags: Option<Vec<String>>,
    pub short_label: String,
    pub full_label: Option<String>,
    pub label: Option<String>,
    pub data: Option<NodeData>,
    pub analysis: Option<NodeAnalysis>,
}

/// An edge of the annotated output.
pub struct AnnotatedEdge {
    pub id: String,
    pub source: String,
    pub target: String,
    pub edge_properties: Option<Vec<String>>,
    pub semantic_tags: Option<Vec<String>>,
    pub label: Option<String>,
    pub analysis: Option<EdgeAnalysis>,
}

/// The annotated output IR.
pub struct AnnotatedHydroIr {
    pub nodes: Vec<AnnotatedNode>,
    pub edges: Vec<AnnotatedEdge>,
    pub overall: Option<OverallAnalysis>,
    pub hierarchy_choices: Option<JsonValue>,
    pub node_assignments: Option<JsonValue>,
    pub selected_hierarchy: Option<String>,
    pub edge_style_config: Option<JsonValue>,
    pub node_type_config: Option<JsonValue>,
    pub legend: Option<JsonValue>,
}

/// The `file` string of a backtrace frame, if present.
pub open spec fn spec_frame_file(f: JsonVal) -> Option<Seq<char>> {
    match json_get(f, "file"@) {
        Some(v) => json_as_text(v),
        None => None,
    }
}

/// The line number of a backtrace frame: the `line` member if the frame
/// has one, otherwise `lineNumber`, read as an unsigned integer.
pub open spec fn spec_frame_line(f: JsonVal) -> Option<u64> {
    match json_get(f, "line"@) {
        Some(v) => json_as_u64(v),
        None => match json_get(f, "lineNumber"@) {
            Some(v) => json_as_u64(v),
            None => None,
        },
    }
}

/// The function name of a backtrace frame: `function`, or `fn`.
pub open spec fn spec_frame_fn(f: JsonVal) -> Option<Seq<char>> {
    match json_get(f, "function"@) {
        Some(v) => json_as_text(v),
        None => match json_get(f, "fn"@) {
            Some(v) => json_as_text(v),
            None => None,
        },
    }
}

/// Whether a file path belongs to the dataflow framework's internals.
pub open spec fn spec_file_internal(file: Seq<char>) -> bool {
    ||| contains_seq(file, "hydro_lang"@)
    ||| contains_seq(file, "dfir_"@)
    ||| contains_seq(file, "stageleft"@)
    ||| (starts_with_seq(file, "src/"@) && (contains_seq(file, "location/"@) || contains_seq(
        file,
        "compile/"@,
    ) || contains_seq(file, "live_collections/"@)))
}

/// A frame counts as user code when it names a file outside the framework.
pub open spec fn spec_frame_qualifies(f: JsonVal) -> bool {
    match spec_frame_file(f) {
        Some(file) => !spec_file_internal(file),
        None => false,
    }
}

/// The first user-code frame of a backtrace, if any.
pub open spec fn first_user_frame(frames: Seq<JsonVal>) -> Option<JsonVal>
    decreases frames.len(),
{
    if frames.len() == 0 {
        None
    } else if spec_frame_qualifies(frames.first()) {
        Some(frames.first())
    } else {
        first_user_frame(frames.drop_first())
    }
}

/// Source location taken from a user-code frame; the frame is known to
/// name a file, so only a missing line withholds the location.
pub open spec fn spec_loc_of_user_frame(f: JsonVal) -> Option<SourceLocationView> {
    match spec_frame_line(f) {
        Some(l) => Some(
            SourceLocationView {
                file: spec_frame_file(f)->Some_0,
                line: l as u32,
                function: spec_frame_fn(f),
            },
        ),
        None => None,
    }
}

/// Source location taken from the fallback frame: both a file and a line
/// are needed.
pub open spec fn spec_loc_of_first_frame(f: JsonVal) -> Option<SourceLocationView> {
    match spec_frame_file(f) {
        Some(file) => match spec_frame_line(f) {
            Some(l) => Some(
                SourceLocationView { file, line: l as u32, function: spec_frame_fn(f) },
            ),
            None => None,
        },
        None => None,
    }
}

/// The source location of a node: the first user-code frame of its
/// backtrace, or the first frame at all when none qualifies.
pub open spec fn spec_extract_source_location(nv: NodeView) -> Option<SourceLocationView> {
    match nv.data {
        None => None,
        Some(d) => match json_as_arr(d.backtrace) {
            None => None,
            Some(frames) => match first_user_frame(frames) {
                Some(f) => spec_loc_of_user_frame(f),
                None => if frames.len() == 0 {
                    None
                } else {
                    spec_loc_of_first_frame(frames.first())
                },
            },
        },
    }
}

/// The `file` member of a frame, as a borrowed string.
fn frame_file<'a>(f: &'a JsonValue) -> (r: Option<&'a str>)
    ensures
        match r {
            Some(s) => spec_frame_file(f@) == Some(s@),
            None => spec_frame_file(f@) is None,
        },
{
    match f.get("file") {
        Some(v) => v.as_str(),
        None => None,
    }
}

/// The line number of a frame, per [`spec_frame_line`].
fn frame_line(f: &JsonValue) -> (r: Option<u64>)
    ensures
        r == spec_frame_line(f@),
{
    match f.get("line") {
        Some(v) => v.as_u64(),
        None => match f.get("lineNumber") {
            Some(v) => v.as_u64(),
            None => None,
        },
    }
}

/// The function name of a frame, per [`spec_frame_fn`].
fn frame_function<'a>(f: &'a JsonValue) -> (r: Option<&'a str>)
    ensures
        match r {
            Some(s) => spec_frame_fn(f@) == Some(s@),
            None => spec_frame_fn(f@) is None,
        },
{
    match f.get("function") {
        Some(v) => v.as_str(),
        None => match f.get("fn") {
            Some(v) => v.as_str(),
            None => None,
        },
    }
}

/// Whether a file path names framework internals, per [`spec_file_internal`].
fn file_internal(file: &str) -> (r: bool)
    ensures
        r == spec_file_internal(file@),
{
    ||| str_contains(file, "hydro_lang")
    ||| str_contains(file, "dfir_")
    ||| str_contains(file, "stageleft")
    ||| (str_starts_with(file, "src/") && (str_contains(file, "location/") || str_contains(
        file,
        "compile/",
    ) || str_contains(file, "live_collections/")))
}

impl Node {
    /// Extract the most relevant source location from the backtrace,
    /// preferring user code over framework internals.
    pub fn extract_source_location(&self) -> (r: Option<SourceLocation>)
        ensures
            match r {
                Some(loc) => spec_extract_source_location(self@) == Some(loc@),
                None => spec_extract_source_location(self@) is None,
            },
    {
        let data = match &self.data {
            Some(d) => d,
            None => {
                return None;
            },
        };
        let frames = match data.backtrace.as_array() {
            Some(a) => a,
            None => {
                return None;
            },
        };
        let ghost fv = crate::json::arr_view(frames@);
        let n = frames.len();
        let mut i: usize = 0;
        proof {
            assert(fv.skip(0) =~= fv);
        }
        while i < n
            invariant
                n == frames@.len(),
                i <= n,
                fv == crate::json::arr_view(frames@),
                first_user_frame(fv) == first_user_frame(fv.skip(i as int)),
                spec_extract_source_location(self@) == (match first_user_frame(fv) {
                    Some(f) => spec_loc_of_user_frame(f),
                    None => if fv.len() == 0 {
                        None
                    } else {
                        spec_loc_of_first_frame(fv.first())
                    },
                }),
            decreases n - i,
        {
            let frame = &frames[i];
            let qualifies: bool = match frame_file(frame) {
                Some(file) => !file_internal(file),
                None => false,
            };
            if qualifies {
                assert(first_user_frame(fv.skip(i as int)) == Some(fv[i as int]));
                let file = match frame_file(frame) {
                    Some(f) => f,
                    None => {
                        return None;
                    },
                };
                let line64 = match frame_line(frame) {
                    Some(l) => l,
                    None => {
                        return None;
                    },
                };
                let line: u32 = #[verifier::truncate] (line64 as u32);
                let function: Option<String> = match frame_function(frame) {
                    Some(s) => Some(s.to_owned()),
                    None => None,
                };
                return Some(SourceLocation { file: file.to_owned(), line, function });
            }
            proof {
                assert(fv.skip(i as int).first() == fv[i as int]);
                assert(fv.skip(i as int).drop_first() =~= fv.skip(i + 1));
            }
            i = i + 1;
        }
        assert(first_user_frame(fv.skip(n as int)) is None);
        if frames.len() == 0 {
            return None;
        }
        let frame = &frames[0];
        let file = match frame_file(frame) {
            Some(f) => f,
            None => {
                return None;
            },
        };
        let line64 = match frame_line(frame) {
            Some(l) => l,
            None => {
                return None;
            },
        };
        let line: u32 = #[verifier::truncate] (line64 as u32);
        let function: Option<String> = match frame_function(frame) {
            Some(s) => Some(s.to_owned()),
            None => None,
        };
        assert(fv.first() == fv[0]);
        Some(SourceLocation { file: file.to_owned(), line, function })
    }
}

} // verus!
