//! Operator semantics classification.
//!
//! Three layers decide an operator's ⟨nd, monotonicity⟩ pair: a closed
//! table over the fine-grained operator label (case-insensitive), two
//! backtrace-driven context overrides, and a conservative fallback table
//! over the coarse node kind.

use vstd::prelude::*;
use crate::{Monotonicity, NdEffect, OpSemantics};
use crate::json::{JsonVal, JsonValue, json_as_arr, json_as_text, json_get};
use crate::model::{Node, NodeView, spec_frame_file};
use crate::strutil::{contains_seq, lower_seq, str_contains, str_eq, str_ieq};

verus! {

/// Kind-table lookup: the conservative default for any string outside the
/// closed kind set is locally nondeterministic and never monotone.
pub open spec fn spec_kind_semantics(kind: Seq<char>) -> OpSemantics {
    if kind == "Source"@ || kind == "Transform"@ || kind == "Join"@ || kind == "Network"@ || kind
        == "Sink"@ || kind == "Tee"@ {
        OpSemantics { nd: NdEffect::Deterministic, monotone: Monotonicity::Always }
    } else if kind == "Aggregation"@ {
        OpSemantics { nd: NdEffect::Deterministic, monotone: Monotonicity::Depends }
    } else {
        OpSemantics { nd: NdEffect::LocallyNonDet, monotone: Monotonicity::Never }
    }
}

/// Labels of monotone deterministic operators (folded to lower case).
pub open spec fn label_always(l: Seq<char>) -> bool {
    ||| l == "map"@
    ||| l == "flat_map"@
    ||| l == "flatmap"@
    ||| l == "filter"@
    ||| l == "filter_map"@
    ||| l == "filtermap"@
    ||| l == "inspect"@
    ||| l == "enumerate"@
    ||| l == "cloned"@
    ||| l == "cast"@
    ||| l == "chain"@
    ||| l == "chainfirst"@
    ||| l == "into_keyed"@
    ||| l == "keys"@
    ||| l == "resolve_futures"@
    ||| l == "resolve_futures_ordered"@
    ||| l == "all_ticks"@
    ||| l == "all_ticks_atomic"@
    ||| l == "defer_tick"@
    ||| l == "begin_atomic"@
    ||| l == "end_atomic"@
    ||| l == "atomic"@
    ||| l == "join"@
    ||| l == "cross_product"@
    ||| l == "crossproduct"@
    ||| l == "cross_singleton"@
    ||| l == "cross_product_nested_loop"@
    ||| l == "unique"@
    ||| l == "fold_commutative_idempotent"@
    ||| l == "fold_idempotent_commutative"@
    ||| l == "reduce_commutative_idempotent"@
    ||| l == "reduce_idempotent_commutative"@
    ||| l == "batch"@
    ||| l == "batch_atomic"@
    ||| l == "network"@
    ||| l == "persist"@
    ||| l == "tee"@
    ||| l == "source_stream"@
    ||| l == "source_iter"@
    ||| l == "external_input"@
    ||| l == "cycle_source"@
    ||| l == "singleton_source"@
    ||| l == "for_each"@
    ||| l == "send_external"@
    ||| l == "cycle_sink"@
    ||| l == "dest_sink"@
    ||| l == "filter_if_some"@
    ||| l == "filter_if_none"@
}

/// Labels of non-monotone deterministic operators.
pub open spec fn label_never(l: Seq<char>) -> bool {
    ||| l == "difference"@
    ||| l == "anti_join"@
    ||| l == "antijoin"@
    ||| l == "filter_not_in"@
    ||| l == "sort"@
}

/// Labels whose monotonicity depends on the aggregated function.
pub open spec fn label_depends(l: Seq<char>) -> bool {
    ||| l == "fold"@
    ||| l == "fold_keyed"@
    ||| l == "foldkeyed"@
    ||| l == "fold_commutative"@
    ||| l == "fold_idempotent"@
    ||| l == "reduce"@
    ||| l == "reduce_keyed"@
    ||| l == "reducekeyed"@
    ||| l == "reduce_commutative"@
    ||| l == "reduce_idempotent"@
    ||| l == "reduce_keyed_watermark"@
    ||| l == "scan"@
    ||| l == "min"@
    ||| l == "max"@
    ||| l == "count"@
    ||| l == "first"@
    ||| l == "last"@
    ||| l == "collect_vec"@
}

/// Labels of locally nondeterministic operators.
pub open spec fn label_nondet(l: Seq<char>) -> bool {
    ||| l == "observe_non_det"@
    ||| l == "observenondet"@
    ||| l == "nondet"@
    ||| l == "sample_every"@
    ||| l == "timeout"@
}

/// Label-table lookup over the case-folded label; `None` for a label
/// outside the closed table.
pub open spec fn spec_label_semantics(label: Seq<char>) -> Option<OpSemantics> {
    let l = lower_seq(label);
    if label_always(l) {
        Some(OpSemantics { nd: NdEffect::Deterministic, monotone: Monotonicity::Always })
    } else if label_never(l) {
        Some(OpSemantics { nd: NdEffect::Deterministic, monotone: Monotonicity::Never })
    } else if label_depends(l) {
        Some(OpSemantics { nd: NdEffect::Deterministic, monotone: Monotonicity::Depends })
    } else if label_nondet(l) {
        Some(OpSemantics { nd: NdEffect::LocallyNonDet, monotone: Monotonicity::Never })
    } else {
        None
    }
}

/// Lattice-type test on an optional type label: a closed set of substrings
/// from the canonical lattice library and known wrappers.
pub open spec fn spec_is_lattice(label: Option<Seq<char>>) -> bool {
    match label {
        Some(l) => {
            ||| contains_seq(l, "lattices::"@)
            ||| contains_seq(l, "Max<"@)
            ||| contains_seq(l, "Min<"@)
            ||| contains_seq(l, "DomPair<"@)
            ||| contains_seq(l, "SetUnion<"@)
            ||| contains_seq(l, "MapUnion<"@)
            ||| contains_seq(l, "VecUnion<"@)
            ||| contains_seq(l, "WithBot<"@)
            ||| contains_seq(l, "WithTop<"@)
            ||| contains_seq(l, "Conflict<"@)
            ||| contains_seq(l, "Point<"@)
            ||| contains_seq(l, "Pair<"@)
            ||| contains_seq(l, "CausalWrapper<"@)
            ||| contains_seq(l, "VCWrapper<"@)
            ||| contains_seq(l, "WithTombstones<"@)
        },
        None => false,
    }
}

/// A backtrace frame whose file path indicates framework network batching.
pub open spec fn spec_net_batch_frame(f: JsonVal) -> bool {
    match spec_frame_file(f) {
        Some(file) => contains_seq(file, "networking.rs"@) || contains_seq(
            file,
            "location/mod.rs"@,
        ),
        None => false,
    }
}

/// A backtrace indicating that a batch operator was inserted by the
/// framework's networking layer.
pub open spec fn spec_is_network_batch(bt: JsonVal) -> bool {
    match json_as_arr(bt) {
        Some(frames) => exists|i: int| 0 <= i < frames.len() && spec_net_batch_frame(#[trigger] frames[i]),
        None => false,
    }
}

/// A backtrace frame whose function name signals a commutative and
/// idempotent fold variant.
pub open spec fn spec_ci_frame(f: JsonVal) -> bool {
    match json_get(f, "function"@) {
        Some(v) => match json_as_text(v) {
            Some(func) => contains_seq(func, "commutative_idempotent"@) || contains_seq(
                func,
                "idempotent_commutative"@,
            ),
            None => false,
        },
        None => false,
    }
}

/// A backtrace indicating a commutative+idempotent fold context.
pub open spec fn spec_is_ci_fold(bt: JsonVal) -> bool {
    match json_as_arr(bt) {
        Some(frames) => exists|i: int| 0 <= i < frames.len() && spec_ci_frame(#[trigger] frames[i]),
        None => false,
    }
}

/// Network-batch probe lifted to a node's optional context payload.
pub open spec fn spec_node_network_batch(nv: NodeView) -> bool {
    match nv.data {
        Some(d) => spec_is_network_batch(d.backtrace),
        None => false,
    }
}

/// Commutative+idempotent probe lifted to a node's optional context payload.
pub open spec fn spec_node_ci_fold(nv: NodeView) -> bool {
    match nv.data {
        Some(d) => spec_is_ci_fold(d.backtrace),
        None => false,
    }
}

/// Labels that take the commutative+idempotent context override.
pub open spec fn label_generic_fold(l: Seq<char>) -> bool {
    ||| l == "fold"@
    ||| l == "foldkeyed"@
    ||| l == "fold_keyed"@
    ||| l == "reduce"@
    ||| l == "reducekeyed"@
    ||| l == "reduce_keyed"@
}

/// Layered node classification: label dispatch with two context-sensitive
/// overrides, falling back to the kind table.
pub open spec fn spec_node_semantics(nv: NodeView) -> OpSemantics {
    match nv.label {
        Some(l) => {
            if l == "batch"@ {
                if spec_node_network_batch(nv) {
                    OpSemantics { nd: NdEffect::Deterministic, monotone: Monotonicity::Always }
                } else {
                    OpSemantics { nd: NdEffect::LocallyNonDet, monotone: Monotonicity::Never }
                }
            } else if label_generic_fold(l) {
                if spec_node_ci_fold(nv) {
                    OpSemantics { nd: NdEffect::Deterministic, monotone: Monotonicity::Always }
                } else {
                    OpSemantics { nd: NdEffect::Deterministic, monotone: Monotonicity::Depends }
                }
            } else if l == "observenondet"@ {
                if spec_node_ci_fold(nv) {
                    OpSemantics { nd: NdEffect::Deterministic, monotone: Monotonicity::Always }
                } else {
                    OpSemantics { nd: NdEffect::LocallyNonDet, monotone: Monotonicity::Never }
                }
            } else {
                match spec_label_semantics(l) {
                    Some(s) => s,
                    None => spec_kind_semantics(nv.node_type),
                }
            }
        },
        None => spec_kind_semantics(nv.node_type),
    }
}

/// Kind-table lookup.
pub fn get_semantics(node_type: &str) -> (r: OpSemantics)
    ensures
        r == spec_kind_semantics(node_type@),
{
    if str_eq(node_type, "Source") || str_eq(node_type, "Transform") || str_eq(node_type, "Join")
        || str_eq(node_type, "Network") || str_eq(node_type, "Sink") || str_eq(node_type, "Tee") {
        OpSemantics { nd: NdEffect::Deterministic, monotone: Monotonicity::Always }
    } else if str_eq(node_type, "Aggregation") {
        OpSemantics { nd: NdEffect::Deterministic, monotone: Monotonicity::Depends }
    } else {
        OpSemantics { nd: NdEffect::LocallyNonDet, monotone: Monotonicity::Never }
    }
}

/// Case-folded membership in the monotone deterministic label group.
fn label_in_always(label: &str) -> (r: bool)
    ensures
        r == label_always(lower_seq(label@)),
{
    ||| str_ieq(label, "map")
    ||| str_ieq(label, "flat_map")
    ||| str_ieq(label, "flatmap")
    ||| str_ieq(label, "filter")
    ||| str_ieq(label, "filter_map")
    ||| str_ieq(label, "filtermap")
    ||| str_ieq(label, "inspect")
    ||| str_ieq(label, "enumerate")
    ||| str_ieq(label, "cloned")
    ||| str_ieq(label, "cast")
    ||| str_ieq(label, "chain")
    ||| str_ieq(label, "chainfirst")
    ||| str_ieq(label, "into_keyed")
    ||| str_ieq(label, "keys")
    ||| str_ieq(label, "resolve_futures")
    ||| str_ieq(label, "resolve_futures_ordered")
    ||| str_ieq(label, "all_ticks")
    ||| str_ieq(label, "all_ticks_atomic")
    ||| str_ieq(label, "defer_tick")
    ||| str_ieq(label, "begin_atomic")
    ||| str_ieq(label, "end_atomic")
    ||| str_ieq(label, "atomic")
    ||| str_ieq(label, "join")
    ||| str_ieq(label, "cross_product")
    ||| str_ieq(label, "crossproduct")
    ||| str_ieq(label, "cross_singleton")
    ||| str_ieq(label, "cross_product_nested_loop")
    ||| str_ieq(label, "unique")
    ||| str_ieq(label, "fold_commutative_idempotent")
    ||| str_ieq(label, "fold_idempotent_commutative")
    ||| str_ieq(label, "reduce_commutative_idempotent")
    ||| str_ieq(label, "reduce_idempotent_commutative")
    ||| str_ieq(label, "batch")
    ||| str_ieq(label, "batch_atomic")
    ||| str_ieq(label, "network")
    ||| str_ieq(label, "persist")
    ||| str_ieq(label, "tee")
    ||| str_ieq(label, "source_stream")
    ||| str_ieq(label, "source_iter")
    ||| str_ieq(label, "external_input")
    ||| str_ieq(label, "cycle_source")
    ||| str_ieq(label, "singleton_source")
    ||| str_ieq(label, "for_each")
    ||| str_ieq(label, "send_external")
    ||| str_ieq(label, "cycle_sink")
    ||| str_ieq(label, "dest_sink")
    ||| str_ieq(label, "filter_if_some")
    ||| str_ieq(label, "filter_if_none")
}

/// Case-folded membership in the non-monotone label group.
fn label_in_never(label: &str) -> (r: bool)
    ensures
        r == label_never(lower_seq(label@)),
{
    ||| str_ieq(label, "difference")
    ||| str_ieq(label, "anti_join")
    ||| str_ieq(label, "antijoin")
    ||| str_ieq(label, "filter_not_in")
    ||| str_ieq(label, "sort")
}

/// Case-folded membership in the function-dependent label group.
fn label_in_depends(label: &str) -> (r: bool)
    ensures
        r == label_depends(lower_seq(label@)),
{
    ||| str_ieq(label, "fold")
    ||| str_ieq(label, "fold_keyed")
    ||| str_ieq(label, "foldkeyed")
    ||| str_ieq(label, "fold_commutative")
    ||| str_ieq(label, "fold_idempotent")
    ||| str_ieq(label, "reduce")
    ||| str_ieq(label, "reduce_keyed")
    ||| str_ieq(label, "reducekeyed")
    ||| str_ieq(label, "reduce_commutative")
    ||| str_ieq(label, "reduce_idempotent")
    ||| str_ieq(label, "reduce_keyed_watermark")
    ||| str_ieq(label, "scan")
    ||| str_ieq(label, "min")
    ||| str_ieq(label, "max")
    ||| str_ieq(label, "count")
    ||| str_ieq(label, "first")
    ||| str_ieq(label, "last")
    ||| str_ieq(label, "collect_vec")
}

/// Case-folded membership in the locally nondeterministic label group.
fn label_in_nondet(label: &str) -> (r: bool)
    ensures
        r == label_nondet(lower_seq(label@)),
{
    ||| str_ieq(label, "observe_non_det")
    ||| str_ieq(label, "observenondet")
    ||| str_ieq(label, "nondet")
    ||| str_ieq(label, "sample_every")
    ||| str_ieq(label, "timeout")
}

/// Finer-grained semantics lookup by operator label; `None` only for a
/// label outside the closed table.
pub fn get_semantics_by_label(label: &str) -> (r: Option<OpSemantics>)
    ensures
        r == spec_label_semantics(label@),
{
    if label_in_always(label) {
        Some(OpSemantics { nd: NdEffect::Deterministic, monotone: Monotonicity::Always })
    } else if label_in_never(label) {
        Some(OpSemantics { nd: NdEffect::Deterministic, monotone: Monotonicity::Never })
    } else if label_in_depends(label) {
        Some(OpSemantics { nd: NdEffect::Deterministic, monotone: Monotonicity::Depends })
    } else if label_in_nondet(label) {
        Some(OpSemantics { nd: NdEffect::LocallyNonDet, monotone: Monotonicity::Never })
    } else {
        None
    }
}

/// Lattice-type test on an optional edge type label.
pub fn is_lattice_type(label: Option<&str>) -> (r: bool)
    ensures
        r == spec_is_lattice(match label {
            Some(l) => Some(l@),
            None => None,
        }),
{
    match label {
        Some(l) => {
            ||| str_contains(l, "lattices::")
            ||| str_contains(l, "Max<")
            ||| str_contains(l, "Min<")
            ||| str_contains(l, "DomPair<")
            ||| str_contains(l, "SetUnion<")
            ||| str_contains(l, "MapUnion<")
            ||| str_contains(l, "VecUnion<")
            ||| str_contains(l, "WithBot<")
            ||| str_contains(l, "WithTop<")
            ||| str_contains(l, "Conflict<")
            ||| str_contains(l, "Point<")
            ||| str_contains(l, "Pair<")
            ||| str_contains(l, "CausalWrapper<")
            ||| str_contains(l, "VCWrapper<")
            ||| str_contains(l, "WithTombstones<")
        },
        None => false,
    }
}

/// Whether a single frame indicates framework network batching.
fn net_batch_frame(f: &JsonValue) -> (r: bool)
    ensures
        r == spec_net_batch_frame(f@),
{
    match f.get("file") {
        Some(v) => match v.as_str() {
            Some(file) => str_contains(file, "networking.rs") || str_contains(
                file,
                "location/mod.rs",
            ),
            None => false,
        },
        None => false,
    }
}

/// Whether a batch operator stems from the framework's networking layer
/// (structural) rather than a manual use (semantic nondeterminism).
pub fn is_network_batch(backtrace: &JsonValue) -> (r: bool)
    ensures
        r == spec_is_network_batch(backtrace@),
{
    let frames = match backtrace.as_array() {
        Some(a) => a,
        None => {
            return false;
        },
    };
    let ghost fv = crate::json::arr_view(frames@);
    let n = frames.len();
    let mut i: usize = 0;
    while i < n
        invariant
            n == frames@.len(),
            i <= n,
            fv == crate::json::arr_view(frames@),
            json_as_arr(backtrace@) == Some(fv),
            forall|k: int| 0 <= k < i ==> !spec_net_batch_frame(#[trigger] fv[k]),
        decreases n - i,
    {
        if net_batch_frame(&frames[i]) {
            proof {
                let fs = json_as_arr(backtrace@)->Some_0;
                assert(fs == fv);
                assert(spec_net_batch_frame(fs[i as int]));
                assert(exists|k: int| 0 <= k < fs.len() && spec_net_batch_frame(#[trigger] fs[k]));
            }
            return true;
        }
        i = i + 1;
    }
    false
}

/// Whether a single frame signals a commutative+idempotent fold variant.
fn ci_frame(f: &JsonValue) -> (r: bool)
    ensures
        r == spec_ci_frame(f@),
{
    match f.get("function") {
        Some(v) => match v.as_str() {
            Some(func) => str_contains(func, "commutative_idempotent") || str_contains(
                func,
                "idempotent_commutative",
            ),
            None => false,
        },
        None => false,
    }
}

/// Whether a backtrace shows a commutative+idempotent fold context.
fn is_commutative_idempotent_fold(backtrace: &JsonValue) -> (r: bool)
    ensures
        r == spec_is_ci_fold(backtrace@),
{
    let frames = match backtrace.as_array() {
        Some(a) => a,
        None => {
            return false;
        },
    };
    let ghost fv = crate::json::arr_view(frames@);
    let n = frames.len();
    let mut i: usize = 0;
    while i < n
        invariant
            n == frames@.len(),
            i <= n,
            fv == crate::json::arr_view(frames@),
            json_as_arr(backtrace@) == Some(fv),
            forall|k: int| 0 <= k < i ==> !spec_ci_frame(#[trigger] fv[k]),
        decreases n - i,
    {
        if ci_frame(&frames[i]) {
            proof {
                let fs = json_as_arr(backtrace@)->Some_0;
                assert(fs == fv);
                assert(spec_ci_frame(fs[i as int]));
                assert(exists|k: int| 0 <= k < fs.len() && spec_ci_frame(#[trigger] fs[k]));
            }
            return true;
        }
        i = i + 1;
    }
    false
}

/// Network-batch probe on a node's optional context payload.
fn node_network_batch(node: &Node) -> (r: bool)
    ensures
        r == spec_node_network_batch(node@),
{
    match &node.data {
        Some(d) => is_network_batch(&d.backtrace),
        None => false,
    }
}

/// Commutative+idempotent probe on a node's optional context payload.
fn node_ci_fold(node: &Node) -> (r: bool)
    ensures
        r == spec_node_ci_fold(node@),
{
    match &node.data {
        Some(d) => is_commutative_idempotent_fold(&d.backtrace),
        None => false,
    }
}

/// Canonical node classification: label lookup, the network-batch and
/// commutative+idempotent overrides, then the kind fallback.
pub fn get_node_semantics(node: &Node) -> (r: OpSemantics)
    ensures
        r == spec_node_semantics(node@),
{
    match &node.label {
        Some(label) => {
            if str_eq(label.as_str(), "batch") {
                if node_network_batch(node) {
                    OpSemantics { nd: NdEffect::Deterministic, monotone: Monotonicity::Always }
                } else {
                    OpSemantics { nd: NdEffect::LocallyNonDet, monotone: Monotonicity::Never }
                }
            } else if str_eq(label.as_str(), "fold") || str_eq(label.as_str(), "foldkeyed")
                || str_eq(label.as_str(), "fold_keyed") || str_eq(label.as_str(), "reduce")
                || str_eq(label.as_str(), "reducekeyed") || str_eq(label.as_str(), "reduce_keyed") {
                if node_ci_fold(node) {
                    OpSemantics { nd: NdEffect::Deterministic, monotone: Monotonicity::Always }
                } else {
                    OpSemantics { nd: NdEffect::Deterministic, monotone: Monotonicity::Depends }
                }
            } else if str_eq(label.as_str(), "observenondet") {
                if node_ci_fold(node) {
                    OpSemantics { nd: NdEffect::Deterministic, monotone: Monotonicity::Always }
                } else {
                    OpSemantics { nd: NdEffect::LocallyNonDet, monotone: Monotonicity::Never }
                }
            } else {
                match get_semantics_by_label(label.as_str()) {
                    Some(s) => s,
                    None => get_semantics(node.node_type.as_str()),
                }
            }
        },
        None => get_semantics(node.node_type.as_str()),
    }
}

} // verus!
