//! The analysis passes: nondeterminism taint propagation, CALM
//! certification of critical edges, issue attribution, and their assembly
//! into one result.

use vstd::prelude::*;
use crate::{Monotonicity, NdEffect};
use crate::graph::{
    Graph, compute_backward_reachable, edge_src, edge_tgt, forward_closure, lemma_id_index_range,
    node_ids, spec_reach, spec_reach_from,
};
use crate::model::{
    Edge, EdgeAnalysis, EdgeView, HydroIr, Issue, Node, NodeAnalysis, NodeView, OverallAnalysis,
    edges_view, issues_view, nodes_view, opt_loc_view, spec_extract_source_location,
};
use crate::semantics::{get_node_semantics, is_lattice_type, spec_is_lattice, spec_node_semantics};
use crate::strutil::{concat5, str_eq};

verus! {

broadcast use vstd::seq::group_seq_axioms, vstd::std_specs::vec::group_vec_axioms;

/// A node whose own semantics is nondeterministic seeds the taint pass.
pub open spec fn spec_is_seed(nodes: Seq<NodeView>, i: int) -> bool {
    spec_node_semantics(nodes[i]).nd != NdEffect::Deterministic
}

/// The seed mark vector of the taint pass.
pub open spec fn seed_marks(nodes: Seq<NodeView>) -> Seq<bool> {
    Seq::new(nodes.len(), |i: int| spec_is_seed(nodes, i))
}

/// A node is tainted when some seed reaches it (seeds reach themselves).
pub open spec fn spec_tainted(nodes: Seq<NodeView>, edges: Seq<EdgeView>, t: int) -> bool {
    spec_reach_from(nodes, edges, seed_marks(nodes), t)
}

/// The nondeterminism effect the taint pass assigns to node `i`: untainted
/// nodes are deterministic; a tainted node keeps its own effect, except
/// that taint reaching a deterministic node is local by default.
pub open spec fn spec_nd_label(nodes: Seq<NodeView>, edges: Seq<EdgeView>, i: int) -> NdEffect {
    if spec_tainted(nodes, edges, i) {
        if spec_node_semantics(nodes[i]).nd == NdEffect::Deterministic {
            NdEffect::LocallyNonDet
        } else {
            spec_node_semantics(nodes[i]).nd
        }
    } else {
        NdEffect::Deterministic
    }
}

/// Forward taint propagation: seed from nondeterministic nodes, close
/// under forward edges, and label every node.
pub fn run_nd_pass(g: &Graph, nodes: &Vec<Node>, edges: &Vec<Edge>) -> (effects: Vec<NdEffect>)
    requires
        g.wf(nodes_view(nodes@), edges_view(edges@)),
    ensures
        effects@.len() == nodes@.len(),
        forall|i: int|
            0 <= i < nodes@.len() ==> #[trigger] effects@[i] == spec_nd_label(
                nodes_view(nodes@),
                edges_view(edges@),
                i,
            ),
{
    let ghost nv = nodes_view(nodes@);
    let ghost ev = edges_view(edges@);
    let n = nodes.len();

    let mut seeds: Vec<bool> = Vec::new();
    let mut i: usize = 0;
    while i < n
        invariant
            i <= n,
            n == nodes@.len(),
            nv == nodes_view(nodes@),
            seeds@.len() == i,
            forall|k: int| 0 <= k < i ==> #[trigger] seeds@[k] == spec_is_seed(nv, k),
        decreases n - i,
    {
        let s = get_node_semantics(&nodes[i]);
        seeds.push(s.nd != NdEffect::Deterministic);
        i = i + 1;
    }
    proof {
        assert(seeds@ =~= seed_marks(nv));
    }

    let marked = forward_closure(g, nodes, edges, seeds);

    let mut effects: Vec<NdEffect> = Vec::new();
    let mut i: usize = 0;
    while i < n
        invariant
            i <= n,
            n == nodes@.len(),
            nv == nodes_view(nodes@),
            ev == edges_view(edges@),
            marked@.len() == n,
            forall|t: int|
                0 <= t < n ==> (#[trigger] marked@[t] <==> spec_tainted(nv, ev, t)),
            effects@.len() == i,
            forall|k: int| 0 <= k < i ==> #[trigger] effects@[k] == spec_nd_label(nv, ev, k),
        decreases n - i,
    {
        if marked[i] {
            let s = get_node_semantics(&nodes[i]);
            if s.nd == NdEffect::Deterministic {
                effects.push(NdEffect::LocallyNonDet);
            } else {
                effects.push(s.nd);
            }
        } else {
            effects.push(NdEffect::Deterministic);
        }
        i = i + 1;
    }
    effects
}

/// An edge carries the `Network` semantic tag.
pub open spec fn spec_has_network_tag(e: EdgeView) -> bool {
    match e.semantic_tags {
        Some(tags) => exists|k: int| 0 <= k < tags.len() && #[trigger] tags[k] == "Network"@,
        None => false,
    }
}

/// An edge's target is a node of kind `Sink`.
pub open spec fn spec_targets_sink(nodes: Seq<NodeView>, e: EdgeView) -> bool {
    match edge_tgt(nodes, e) {
        Some(t) => nodes[t].node_type == "Sink"@,
        None => false,
    }
}

/// A coordination-critical edge: tagged `Network`, or feeding a `Sink`.
pub open spec fn spec_critical(nodes: Seq<NodeView>, e: EdgeView) -> bool {
    spec_has_network_tag(e) || spec_targets_sink(nodes, e)
}

/// The backward cone of node `t` is certified: every node in it is
/// monotone and every edge inside it is lattice-typed.
pub open spec fn spec_cone_ok(nodes: Seq<NodeView>, edges: Seq<EdgeView>, t: int) -> bool {
    &&& forall|i: int|
        0 <= i < nodes.len() && spec_reach(nodes, edges, i, t) ==> spec_node_semantics(
            #[trigger] nodes[i],
        ).monotone != Monotonicity::Never
    &&& forall|k: int|
        0 <= k < edges.len() ==> {
            let e = #[trigger] edges[k];
            (edge_src(nodes, e) is Some && edge_tgt(nodes, e) is Some && spec_reach(
                nodes,
                edges,
                edge_src(nodes, e)->Some_0,
                t,
            ) && spec_reach(nodes, edges, edge_tgt(nodes, e)->Some_0, t)) ==> spec_is_lattice(
                e.label,
            )
        }
}

/// CALM certification of one edge: its target's backward cone is
/// certified; an edge whose target is absent from the node set is safe.
pub open spec fn spec_edge_calm_safe(nodes: Seq<NodeView>, edges: Seq<EdgeView>, e: EdgeView) -> bool {
    match edge_tgt(nodes, e) {
        Some(t) => spec_cone_ok(nodes, edges, t),
        None => true,
    }
}

/// The CALM status assigned to an edge: unsafe exactly when the edge is
/// critical and its cone fails certification.
pub open spec fn spec_edge_calm(nodes: Seq<NodeView>, edges: Seq<EdgeView>, e: EdgeView) -> bool {
    !spec_critical(nodes, e) || spec_edge_calm_safe(nodes, edges, e)
}

/// Overall CALM safety: every critical edge certifies.
pub open spec fn spec_overall_calm(nodes: Seq<NodeView>, edges: Seq<EdgeView>) -> bool {
    forall|k: int|
        0 <= k < edges.len() && spec_critical(nodes, #[trigger] edges[k]) ==> spec_edge_calm_safe(
            nodes,
            edges,
            edges[k],
        )
}

/// Overall determinism: every node is labelled deterministic.
pub open spec fn spec_overall_det(nodes: Seq<NodeView>, edges: Seq<EdgeView>) -> bool {
    forall|i: int|
        0 <= i < nodes.len() ==> spec_nd_label(nodes, edges, i) == NdEffect::Deterministic
}

/// Whether a vector of tags holds the `Network` tag.
fn has_network_tag(tags: &Vec<String>) -> (r: bool)
    ensures
        r == exists|k: int| 0 <= k < tags@.len() && (#[trigger] tags@[k])@ == "Network"@,
{
    let n = tags.len();
    let mut i: usize = 0;
    while i < n
        invariant
            i <= n,
            n == tags@.len(),
            forall|k: int| 0 <= k < i ==> (#[trigger] tags@[k])@ != "Network"@,
        decreases n - i,
    {
        if str_eq(tags[i].as_str(), "Network") {
            assert((tags@[i as int])@ == "Network"@);
            return true;
        }
        i = i + 1;
    }
    false
}

/// Whether an edge is coordination-critical.
fn edge_is_critical(g: &Graph, nodes: &Vec<Node>, edges: &Vec<Edge>, edge: &Edge) -> (r: bool)
    requires
        g.wf(nodes_view(nodes@), edges_view(edges@)),
    ensures
        r == spec_critical(nodes_view(nodes@), edge@),
{
    let ghost nv = nodes_view(nodes@);
    match &edge.semantic_tags {
        Some(tags) => {
            if has_network_tag(tags) {
                proof {
                    let k = choose|k: int|
                        0 <= k < tags@.len() && (#[trigger] tags@[k])@ == "Network"@;
                    assert((edge@.semantic_tags->Some_0)[k] == tags@[k]@);
                    assert(spec_has_network_tag(edge@));
                }
                return true;
            }
        },
        None => {},
    }
    match g.get_idx(edge.target.as_str()) {
        Some(t) => {
            proof {
                lemma_id_index_range(node_ids(nv), edge@.target);
            }
            str_eq(nodes[t].node_type.as_str(), "Sink")
        },
        None => false,
    }
}

/// Certify one edge: compute the backward cone of its target and check
/// every node's monotonicity and every interior edge's type label.
pub fn check_edge_calm_safe(g: &Graph, nodes: &Vec<Node>, edges: &Vec<Edge>, edge: &Edge) -> (r:
    bool)
    requires
        g.wf(nodes_view(nodes@), edges_view(edges@)),
    ensures
        r == spec_edge_calm_safe(nodes_view(nodes@), edges_view(edges@), edge@),
{
    let ghost nv = nodes_view(nodes@);
    let ghost ev = edges_view(edges@);
    let t = match g.get_idx(edge.target.as_str()) {
        Some(t) => t,
        None => {
            return true;
        },
    };
    proof {
        lemma_id_index_range(node_ids(nv), edge@.target);
        assert(edge_tgt(nv, edge@) == Some(t as int));
    }
    let n = nodes.len();
    let m = edges.len();
    let cone = compute_backward_reachable(g, nodes, edges, t);

    let mut i: usize = 0;
    while i < n
        invariant
            i <= n,
            n == nodes@.len(),
            nv == nodes_view(nodes@),
            ev == edges_view(edges@),
            t < n,
            edge_tgt(nv, edge@) == Some(t as int),
            cone@.len() == n,
            forall|x: int| 0 <= x < n ==> (#[trigger] cone@[x] <==> spec_reach(nv, ev, x, t as int)),
            forall|x: int|
                0 <= x < i && spec_reach(nv, ev, x, t as int) ==> spec_node_semantics(
                    #[trigger] nv[x],
                ).monotone != Monotonicity::Never,
        decreases n - i,
    {
        if cone[i] {
            let s = get_node_semantics(&nodes[i]);
            if s.monotone == Monotonicity::Never {
                proof {
                    assert(spec_reach(nv, ev, i as int, t as int));
                    assert(nv[i as int] == nodes@[i as int]@);
                    assert(spec_node_semantics(nv[i as int]).monotone == Monotonicity::Never);
                    assert(!spec_cone_ok(nv, ev, t as int));
                }
                return false;
            }
        }
        i = i + 1;
    }

    let mut k: usize = 0;
    while k < m
        invariant
            k <= m,
            n == nodes@.len(),
            m == edges@.len(),
            nv == nodes_view(nodes@),
            ev == edges_view(edges@),
            t < n,
            edge_tgt(nv, edge@) == Some(t as int),
            cone@.len() == n,
            g.wf(nv, ev),
            forall|x: int| 0 <= x < n ==> (#[trigger] cone@[x] <==> spec_reach(nv, ev, x, t as int)),
            forall|j: int|
                0 <= j < k ==> {
                    let e = #[trigger] ev[j];
                    (edge_src(nv, e) is Some && edge_tgt(nv, e) is Some && spec_reach(
                        nv,
                        ev,
                        edge_src(nv, e)->Some_0,
                        t as int,
                    ) && spec_reach(nv, ev, edge_tgt(nv, e)->Some_0, t as int))
                        ==> spec_is_lattice(e.label)
                },
        decreases m - k,
    {
        let si = g.get_idx(edges[k].source.as_str());
        let ti = g.get_idx(edges[k].target.as_str());
        proof {
            assert(ev[k as int].source == edges@[k as int].source@);
            assert(ev[k as int].target == edges@[k as int].target@);
            lemma_id_index_range(node_ids(nv), ev[k as int].source);
            lemma_id_index_range(node_ids(nv), ev[k as int].target);
        }
        match (si, ti) {
            (Some(s), Some(tt)) => {
                if cone[s] && cone[tt] {
                    let lat = is_lattice_type(match &edges[k].label {
                        Some(l) => Some(l.as_str()),
                        None => None,
                    });
                    if !lat {
                        proof {
                            assert(edge_src(nv, ev[k as int]) == Some(s as int));
                            assert(edge_tgt(nv, ev[k as int]) == Some(tt as int));
                            assert(spec_reach(nv, ev, s as int, t as int));
                            assert(spec_reach(nv, ev, tt as int, t as int));
                            assert(ev[k as int].label == edges@[k as int].label.deep_view());
                            assert(!spec_is_lattice(ev[k as int].label));
                            assert(!spec_cone_ok(nv, ev, t as int));
                        }
                        return false;
                    }
                }
            },
            _ => {},
        }
        k = k + 1;
    }
    assert(spec_cone_ok(nv, ev, t as int));
    true
}

/// CALM pass over all edges: the per-edge status vector (`true` is safe)
/// and the overall verdict.
pub fn run_calm_pass(g: &Graph, nodes: &Vec<Node>, edges: &Vec<Edge>) -> (r: (Vec<bool>, bool))
    requires
        g.wf(nodes_view(nodes@), edges_view(edges@)),
    ensures
        r.0@.len() == edges@.len(),
        forall|k: int|
            0 <= k < edges@.len() ==> #[trigger] r.0@[k] == spec_edge_calm(
                nodes_view(nodes@),
                edges_view(edges@),
                edges_view(edges@)[k],
            ),
        r.1 == spec_overall_calm(nodes_view(nodes@), edges_view(edges@)),
{
    let ghost nv = nodes_view(nodes@);
    let ghost ev = edges_view(edges@);
    let m = edges.len();
    let mut statuses: Vec<bool> = Vec::new();
    let mut all_safe = true;
    let mut k: usize = 0;
    while k < m
        invariant
            k <= m,
            m == edges@.len(),
            nv == nodes_view(nodes@),
            ev == edges_view(edges@),
            g.wf(nv, ev),
            statuses@.len() == k,
            forall|j: int|
                0 <= j < k ==> #[trigger] statuses@[j] == spec_edge_calm(nv, ev, ev[j]),
            all_safe == forall|j: int|
                0 <= j < k && spec_critical(nv, #[trigger] ev[j]) ==> spec_edge_calm_safe(
                    nv,
                    ev,
                    ev[j],
                ),
        decreases m - k,
    {
        let ghost all_before = all_safe;
        let crit = edge_is_critical(g, nodes, edges, &edges[k]);
        if crit {
            let safe = check_edge_calm_safe(g, nodes, edges, &edges[k]);
            statuses.push(safe);
            if !safe {
                all_safe = false;
            }
        } else {
            statuses.push(true);
        }
        proof {
            assert(statuses@[k as int] == spec_edge_calm(nv, ev, ev[k as int]));
            if all_safe {
                assert forall|j: int|
                    0 <= j < k + 1 && spec_critical(nv, #[trigger] ev[j])
                implies spec_edge_calm_safe(nv, ev, ev[j]) by {
                    if j < k {
                    }
                }
            } else {
                if !all_before {
                    assert(!(forall|j: int|
                        0 <= j < k && spec_critical(nv, #[trigger] ev[j])
                            ==> spec_edge_calm_safe(nv, ev, ev[j])));
                    let j = choose|j: int|
                        0 <= j < k && spec_critical(nv, #[trigger] ev[j]) && !spec_edge_calm_safe(
                            nv,
                            ev,
                            ev[j],
                        );
                    assert(spec_critical(nv, ev[j]) && !spec_edge_calm_safe(nv, ev, ev[j]));
                } else {
                    assert(spec_critical(nv, ev[k as int]) && !spec_edge_calm_safe(
                        nv,
                        ev,
                        ev[k as int],
                    ));
                }
            }
        }
        k = k + 1;
    }
    (statuses, all_safe)
}

/// A critical edge whose cone fails certification.
pub open spec fn spec_calm_unsafe(nodes: Seq<NodeView>, edges: Seq<EdgeView>, e: EdgeView) -> bool {
    spec_critical(nodes, e) && !spec_edge_calm_safe(nodes, edges, e)
}

/// The serialized name of a nondeterminism effect.
pub open spec fn spec_nd_name(e: NdEffect) -> Seq<char> {
    match e {
        NdEffect::Deterministic => "Deterministic"@,
        NdEffect::LocallyNonDet => "LocallyNonDet"@,
        NdEffect::ExternalNonDet => "ExternalNonDet"@,
    }
}

/// Message of a nondeterminism finding on a node.
pub open spec fn spec_nondet_message(id: Seq<char>, eff: NdEffect) -> Seq<char> {
    "Node '"@ + id + "' is nondeterministic ("@ + spec_nd_name(eff) + ")"@
}

/// Message of a non-monotonicity finding on a node, naming the critical
/// edge whose cone it blocks.
pub open spec fn spec_nonmono_message(id: Seq<char>, eid: Seq<char>) -> Seq<char> {
    "Node '"@ + id + "' is non-monotone on CALM-critical path to edge '"@ + eid + "'"@
}

/// Message of a non-lattice finding on an edge, naming the critical edge
/// whose cone it blocks.
pub open spec fn spec_nonlattice_message(fid: Seq<char>, eid: Seq<char>) -> Seq<char> {
    "Edge '"@ + fid + "' is non-lattice on CALM-critical path to edge '"@ + eid + "'"@
}

/// The nondeterminism finding of node `i`: one entry when tainted.
pub open spec fn spec_nondet_part(nodes: Seq<NodeView>, edges: Seq<EdgeView>, i: int) -> Seq<
    (Seq<char>, Seq<char>),
> {
    if spec_nd_label(nodes, edges, i) != NdEffect::Deterministic {
        seq![("NonDet"@, spec_nondet_message(nodes[i].id, spec_nd_label(nodes, edges, i)))]
    } else {
        Seq::empty()
    }
}

/// The non-monotonicity findings of node `i` over the first `m` edges:
/// one entry per unsafe critical edge whose cone holds `i`, when `i`'s own
/// semantics is non-monotone.
pub open spec fn spec_nonmono_part(
    nodes: Seq<NodeView>,
    edges: Seq<EdgeView>,
    i: int,
    m: int,
) -> Seq<(Seq<char>, Seq<char>)>
    decreases m,
{
    if m <= 0 {
        Seq::empty()
    } else {
        let pre = spec_nonmono_part(nodes, edges, i, m - 1);
        let e = edges[m - 1];
        if spec_calm_unsafe(nodes, edges, e) && spec_reach(
            nodes,
            edges,
            i,
            edge_tgt(nodes, e)->Some_0,
        ) && spec_node_semantics(nodes[i]).monotone == Monotonicity::Never {
            pre.push(("NonMonotone"@, spec_nonmono_message(nodes[i].id, e.id)))
        } else {
            pre
        }
    }
}

/// All findings attached to node `i`.
pub open spec fn spec_node_issues(nodes: Seq<NodeView>, edges: Seq<EdgeView>, i: int) -> Seq<
    (Seq<char>, Seq<char>),
> {
    spec_nondet_part(nodes, edges, i) + spec_nonmono_part(nodes, edges, i, edges.len() as int)
}

/// The non-lattice findings of edge `f` over the first `m` edges: one
/// entry per unsafe critical edge whose cone holds both of `f`'s
/// endpoints, when `f` is not lattice-typed.
pub open spec fn spec_nonlattice_part(
    nodes: Seq<NodeView>,
    edges: Seq<EdgeView>,
    f: int,
    m: int,
) -> Seq<(Seq<char>, Seq<char>)>
    decreases m,
{
    if m <= 0 {
        Seq::empty()
    } else {
        let pre = spec_nonlattice_part(nodes, edges, f, m - 1);
        let e = edges[m - 1];
        let fe = edges[f];
        if spec_calm_unsafe(nodes, edges, e) && edge_src(nodes, fe) is Some && edge_tgt(
            nodes,
            fe,
        ) is Some && spec_reach(
            nodes,
            edges,
            edge_src(nodes, fe)->Some_0,
            edge_tgt(nodes, e)->Some_0,
        ) && spec_reach(nodes, edges, edge_tgt(nodes, fe)->Some_0, edge_tgt(nodes, e)->Some_0)
            && !spec_is_lattice(fe.label) {
            pre.push(("NonLattice"@, spec_nonlattice_message(fe.id, e.id)))
        } else {
            pre
        }
    }
}

/// All findings attached to edge `f`.
pub open spec fn spec_edge_issues(nodes: Seq<NodeView>, edges: Seq<EdgeView>, f: int) -> Seq<
    (Seq<char>, Seq<char>),
> {
    spec_nonlattice_part(nodes, edges, f, edges.len() as int)
}

/// The serialized name of a nondeterminism effect.
fn nd_effect_name(e: NdEffect) -> (r: String)
    ensures
        r@ == spec_nd_name(e),
{
    match e {
        NdEffect::Deterministic => "Deterministic".to_owned(),
        NdEffect::LocallyNonDet => "LocallyNonDet".to_owned(),
        NdEffect::ExternalNonDet => "ExternalNonDet".to_owned(),
    }
}

/// Attribute findings: a `NonDet` entry on every tainted node, and for
/// each unsafe critical edge a `NonMonotone` entry on every non-monotone
/// node of its cone and a `NonLattice` entry on every non-lattice edge
/// inside it.
fn extract_issues(
    g: &Graph,
    nodes: &Vec<Node>,
    edges: &Vec<Edge>,
    effects: &Vec<NdEffect>,
    calm: &Vec<bool>,
) -> (r: (Vec<Vec<Issue>>, Vec<Vec<Issue>>))
    requires
        g.wf(nodes_view(nodes@), edges_view(edges@)),
        effects@.len() == nodes@.len(),
        forall|i: int|
            0 <= i < nodes@.len() ==> #[trigger] effects@[i] == spec_nd_label(
                nodes_view(nodes@),
                edges_view(edges@),
                i,
            ),
        calm@.len() == edges@.len(),
        forall|k: int|
            0 <= k < edges@.len() ==> #[trigger] calm@[k] == spec_edge_calm(
                nodes_view(nodes@),
                edges_view(edges@),
                edges_view(edges@)[k],
            ),
    ensures
        r.0@.len() == nodes@.len(),
        forall|i: int|
            0 <= i < nodes@.len() ==> issues_view((#[trigger] r.0@[i])@) == spec_node_issues(
                nodes_view(nodes@),
                edges_view(edges@),
                i,
            ),
        r.1@.len() == edges@.len(),
        forall|f: int|
            0 <= f < edges@.len() ==> issues_view((#[trigger] r.1@[f])@) == spec_edge_issues(
                nodes_view(nodes@),
                edges_view(edges@),
                f,
            ),
{
    let ghost nv = nodes_view(nodes@);
    let ghost ev = edges_view(edges@);
    let n = nodes.len();
    let m = edges.len();

    let mut cones: Vec<Option<Vec<bool>>> = Vec::new();
    let mut k: usize = 0;
    while k < m
        invariant
            k <= m,
            n == nodes@.len(),
            m == edges@.len(),
            nv == nodes_view(nodes@),
            ev == edges_view(edges@),
            g.wf(nv, ev),
            calm@.len() == m,
            forall|j: int|
                0 <= j < m ==> #[trigger] calm@[j] == spec_edge_calm(nv, ev, ev[j]),
            cones@.len() == k,
            forall|j: int|
                0 <= j < k ==> match #[trigger] cones@[j] {
                    Some(c) => spec_calm_unsafe(nv, ev, ev[j]) && c@.len() == n && (forall|x: int|
                        0 <= x < n ==> (#[trigger] c@[x] <==> spec_reach(
                            nv,
                            ev,
                            x,
                            edge_tgt(nv, ev[j])->Some_0,
                        ))),
                    None => !spec_calm_unsafe(nv, ev, ev[j]),
                },
        decreases m - k,
    {
        if !calm[k] {
            let t = match g.get_idx(edges[k].target.as_str()) {
                Some(t) => t,
                None => {
                    proof {
                        assert(ev[k as int].target == edges@[k as int].target@);
                        assert(edge_tgt(nv, ev[k as int]) is None);
                        assert(spec_edge_calm_safe(nv, ev, ev[k as int]));
                        assert(false);
                    }
                    0
                },
            };
            proof {
                assert(ev[k as int].target == edges@[k as int].target@);
                lemma_id_index_range(node_ids(nv), ev[k as int].target);
                assert(edge_tgt(nv, ev[k as int]) == Some(t as int));
            }
            let c = compute_backward_reachable(g, nodes, edges, t);
            cones.push(Some(c));
        } else {
            cones.push(None);
        }
        k = k + 1;
    }

    let mut nires: Vec<Vec<Issue>> = Vec::new();
    let mut i: usize = 0;
    while i < n
        invariant
            i <= n,
            n == nodes@.len(),
            m == edges@.len(),
            nv == nodes_view(nodes@),
            ev == edges_view(edges@),
            effects@.len() == n,
            forall|x: int| 0 <= x < n ==> #[trigger] effects@[x] == spec_nd_label(nv, ev, x),
            cones@.len() == m,
            forall|j: int|
                0 <= j < m ==> match #[trigger] cones@[j] {
                    Some(c) => spec_calm_unsafe(nv, ev, ev[j]) && c@.len() == n && (forall|x: int|
                        0 <= x < n ==> (#[trigger] c@[x] <==> spec_reach(
                            nv,
                            ev,
                            x,
                            edge_tgt(nv, ev[j])->Some_0,
                        ))),
                    None => !spec_calm_unsafe(nv, ev, ev[j]),
                },
            nires@.len() == i,
            forall|x: int|
                0 <= x < i ==> issues_view((#[trigger] nires@[x])@) == spec_node_issues(nv, ev, x),
        decreases n - i,
    {
        let mut v: Vec<Issue> = Vec::new();
        let eff = effects[i];
        if !(eff == NdEffect::Deterministic) {
            let effname = nd_effect_name(eff);
            let msg = concat5(
                "Node '",
                nodes[i].id.as_str(),
                "' is nondeterministic (",
                effname.as_str(),
                ")",
            );
            v.push(Issue { kind: "NonDet".to_owned(), message: msg });
        }
        proof {
            assert(nv[i as int].id == nodes@[i as int].id@);
            assert(issues_view(v@) =~= spec_nondet_part(nv, ev, i as int));
        }
        let s = get_node_semantics(&nodes[i]);
        let mut k: usize = 0;
        while k < m
            invariant
                k <= m,
                i < n,
                n == nodes@.len(),
                m == edges@.len(),
                nv == nodes_view(nodes@),
                ev == edges_view(edges@),
                s == spec_node_semantics(nv[i as int]),
                cones@.len() == m,
                forall|j: int|
                    0 <= j < m ==> match #[trigger] cones@[j] {
                        Some(c) => spec_calm_unsafe(nv, ev, ev[j]) && c@.len() == n && (forall|
                            x: int,
                        |
                            0 <= x < n ==> (#[trigger] c@[x] <==> spec_reach(
                                nv,
                                ev,
                                x,
                                edge_tgt(nv, ev[j])->Some_0,
                            ))),
                        None => !spec_calm_unsafe(nv, ev, ev[j]),
                    },
                issues_view(v@) == spec_nondet_part(nv, ev, i as int) + spec_nonmono_part(
                    nv,
                    ev,
                    i as int,
                    k as int,
                ),
            decreases m - k,
        {
            let ghost vpre = v@;
            let ghost cond = spec_calm_unsafe(nv, ev, ev[k as int]) && spec_reach(
                nv,
                ev,
                i as int,
                edge_tgt(nv, ev[k as int])->Some_0,
            ) && spec_node_semantics(nv[i as int]).monotone == Monotonicity::Never;
            let hit = match &cones[k] {
                Some(c) => c[i] && s.monotone == Monotonicity::Never,
                None => false,
            };
            assert(hit == cond);
            if hit {
                let msg = concat5(
                    "Node '",
                    nodes[i].id.as_str(),
                    "' is non-monotone on CALM-critical path to edge '",
                    edges[k].id.as_str(),
                    "'",
                );
                v.push(Issue { kind: "NonMonotone".to_owned(), message: msg });
            }
            proof {
                assert(nv[i as int].id == nodes@[i as int].id@);
                assert(ev[k as int].id == edges@[k as int].id@);
                let pre = spec_nondet_part(nv, ev, i as int) + spec_nonmono_part(
                    nv,
                    ev,
                    i as int,
                    k as int,
                );
                let entry = ("NonMonotone"@, spec_nonmono_message(nv[i as int].id, ev[k as int].id));
                if hit {
                    assert(v@ == vpre.push(v@[vpre.len() as int]));
                    assert(v@[vpre.len() as int].kind@ == "NonMonotone"@);
                    assert(v@[vpre.len() as int].message@ == spec_nonmono_message(
                        nv[i as int].id,
                        ev[k as int].id,
                    ));
                    assert forall|q: int| 0 <= q < v@.len() implies issues_view(v@)[q]
                        == pre.push(entry)[q] by {
                        if q < vpre.len() {
                            assert(v@[q] == vpre[q]);
                            assert(issues_view(vpre)[q] == pre[q]);
                        }
                    }
                    assert(issues_view(v@) =~= pre.push(entry));
                    assert(spec_nonmono_part(nv, ev, i as int, k + 1) == spec_nonmono_part(
                        nv,
                        ev,
                        i as int,
                        k as int,
                    ).push(entry));
                    assert(issues_view(v@) =~= spec_nondet_part(nv, ev, i as int)
                        + spec_nonmono_part(nv, ev, i as int, k + 1));
                } else {
                    assert(spec_nonmono_part(nv, ev, i as int, k + 1) == spec_nonmono_part(
                        nv,
                        ev,
                        i as int,
                        k as int,
                    ));
                }
            }
            k = k + 1;
        }
        nires.push(v);
        i = i + 1;
    }

    let mut eires: Vec<Vec<Issue>> = Vec::new();
    let mut f: usize = 0;
    while f < m
        invariant
            f <= m,
            n == nodes@.len(),
            m == edges@.len(),
            nv == nodes_view(nodes@),
            ev == edges_view(edges@),
            g.wf(nv, ev),
            cones@.len() == m,
            forall|j: int|
                0 <= j < m ==> match #[trigger] cones@[j] {
                    Some(c) => spec_calm_unsafe(nv, ev, ev[j]) && c@.len() == n && (forall|x: int|
                        0 <= x < n ==> (#[trigger] c@[x] <==> spec_reach(
                            nv,
                            ev,
                            x,
                            edge_tgt(nv, ev[j])->Some_0,
                        ))),
                    None => !spec_calm_unsafe(nv, ev, ev[j]),
                },
            eires@.len() == f,
            forall|x: int|
                0 <= x < f ==> issues_view((#[trigger] eires@[x])@) == spec_edge_issues(nv, ev, x),
        decreases m - f,
    {
        let mut v: Vec<Issue> = Vec::new();
        let sif = g.get_idx(edges[f].source.as_str());
        let tif = g.get_idx(edges[f].target.as_str());
        let lat = is_lattice_type(match &edges[f].label {
            Some(l) => Some(l.as_str()),
            None => None,
        });
        proof {
            assert(ev[f as int].source == edges@[f as int].source@);
            assert(ev[f as int].target == edges@[f as int].target@);
            assert(ev[f as int].label == edges@[f as int].label.deep_view());
            lemma_id_index_range(node_ids(nv), ev[f as int].source);
            lemma_id_index_range(node_ids(nv), ev[f as int].target);
        }
        let mut k: usize = 0;
        while k < m
            invariant
                k <= m,
                f < m,
                n == nodes@.len(),
                m == edges@.len(),
                nv == nodes_view(nodes@),
                ev == edges_view(edges@),
                lat == spec_is_lattice(ev[f as int].label),
                match sif {
                    Some(s) => edge_src(nv, ev[f as int]) == Some(s as int) && s < n,
                    None => edge_src(nv, ev[f as int]) is None,
                },
                match tif {
                    Some(t) => edge_tgt(nv, ev[f as int]) == Some(t as int) && t < n,
                    None => edge_tgt(nv, ev[f as int]) is None,
                },
                cones@.len() == m,
                forall|j: int|
                    0 <= j < m ==> match #[trigger] cones@[j] {
                        Some(c) => spec_calm_unsafe(nv, ev, ev[j]) && c@.len() == n && (forall|
                            x: int,
                        |
                            0 <= x < n ==> (#[trigger] c@[x] <==> spec_reach(
                                nv,
                                ev,
                                x,
                                edge_tgt(nv, ev[j])->Some_0,
                            ))),
                        None => !spec_calm_unsafe(nv, ev, ev[j]),
                    },
                issues_view(v@) == spec_nonlattice_part(nv, ev, f as int, k as int),
            decreases m - k,
        {
            let hit = match &cones[k] {
                Some(c) => match (sif, tif) {
                    (Some(s), Some(t)) => c[s] && c[t] && !lat,
                    _ => false,
                },
                None => false,
            };
            if hit {
                let msg = concat5(
                    "Edge '",
                    edges[f].id.as_str(),
                    "' is non-lattice on CALM-critical path to edge '",
                    edges[k].id.as_str(),
                    "'",
                );
                v.push(Issue { kind: "NonLattice".to_owned(), message: msg });
            }
            proof {
                assert(ev[f as int].id == edges@[f as int].id@);
                assert(ev[k as int].id == edges@[k as int].id@);
                assert(issues_view(v@) =~= spec_nonlattice_part(nv, ev, f as int, k + 1));
            }
            k = k + 1;
        }
        eires.push(v);
        f = f + 1;
    }

    (nires, eires)
}

/// Combined analysis results, indexed like the input node and edge lists.
pub struct AnalysisResult {
    pub node_analyses: Vec<NodeAnalysis>,
    pub edge_analyses: Vec<EdgeAnalysis>,
    pub overall: OverallAnalysis,
}

/// Run all passes on the input IR: build the graph index, propagate
/// nondeterminism taint, certify the critical edges, attribute findings,
/// and compute the overall verdicts.
pub fn run_analysis(ir: &HydroIr) -> (r: AnalysisResult)
    ensures
        r.node_analyses@.len() == ir.nodes@.len(),
        r.edge_analyses@.len() == ir.edges@.len(),
        forall|i: int|
            0 <= i < ir.nodes@.len() ==> {
                let a = #[trigger] r.node_analyses@[i];
                let nv = nodes_view(ir.nodes@);
                let ev = edges_view(ir.edges@);
                &&& a.nd_effect@ == spec_nd_name(spec_nd_label(nv, ev, i))
                &&& a.monotone == (spec_node_semantics(nv[i]).monotone != Monotonicity::Never)
                &&& issues_view(a.issues@) == spec_node_issues(nv, ev, i)
                &&& opt_loc_view(a.source_location) == spec_extract_source_location(nv[i])
            },
        forall|k: int|
            0 <= k < ir.edges@.len() ==> {
                let a = #[trigger] r.edge_analyses@[k];
                let nv = nodes_view(ir.nodes@);
                let ev = edges_view(ir.edges@);
                &&& a.is_lattice == spec_is_lattice(ev[k].label)
                &&& a.calm@ == (if spec_edge_calm(nv, ev, ev[k]) {
                    "CalmSafe"@
                } else {
                    "CalmUnsafe"@
                })
                &&& issues_view(a.issues@) == spec_edge_issues(nv, ev, k)
            },
        r.overall.deterministic == spec_overall_det(nodes_view(ir.nodes@), edges_view(ir.edges@)),
        r.overall.calm_safe == spec_overall_calm(nodes_view(ir.nodes@), edges_view(ir.edges@)),
{
    let ghost nv = nodes_view(ir.nodes@);
    let ghost ev = edges_view(ir.edges@);
    let n = ir.nodes.len();
    let m = ir.edges.len();

    let g = Graph::build(&ir.nodes, &ir.edges);
    let effects = run_nd_pass(&g, &ir.nodes, &ir.edges);
    let (calm, overall_calm) = run_calm_pass(&g, &ir.nodes, &ir.edges);

    let mut deterministic = true;
    let mut i: usize = 0;
    while i < n
        invariant
            i <= n,
            n == ir.nodes@.len(),
            nv == nodes_view(ir.nodes@),
            ev == edges_view(ir.edges@),
            effects@.len() == n,
            forall|x: int| 0 <= x < n ==> #[trigger] effects@[x] == spec_nd_label(nv, ev, x),
            deterministic == forall|x: int|
                0 <= x < i ==> spec_nd_label(nv, ev, x) == NdEffect::Deterministic,
        decreases n - i,
    {
        let ghost det_before = deterministic;
        if !(effects[i] == NdEffect::Deterministic) {
            deterministic = false;
        }
        proof {
            if deterministic {
                assert forall|x: int| 0 <= x < i + 1 implies spec_nd_label(nv, ev, x)
                    == NdEffect::Deterministic by {
                    if x < i {
                    }
                }
            } else {
                if !det_before {
                    assert(!(forall|x: int|
                        0 <= x < i ==> spec_nd_label(nv, ev, x) == NdEffect::Deterministic));
                } else {
                    assert(spec_nd_label(nv, ev, i as int) != NdEffect::Deterministic);
                }
            }
        }
        i = i + 1;
    }

    let (mut nires, mut eires) = extract_issues(&g, &ir.nodes, &ir.edges, &effects, &calm);
    let ghost nires0 = nires@;
    let ghost eires0 = eires@;

    let mut node_analyses: Vec<NodeAnalysis> = Vec::new();
    let mut i: usize = 0;
    while i < n
        invariant
            i <= n,
            n == ir.nodes@.len(),
            nv == nodes_view(ir.nodes@),
            ev == edges_view(ir.edges@),
            effects@.len() == n,
            forall|x: int| 0 <= x < n ==> #[trigger] effects@[x] == spec_nd_label(nv, ev, x),
            nires0.len() == n,
            forall|x: int|
                0 <= x < n ==> issues_view((#[trigger] nires0[x])@) == spec_node_issues(nv, ev, x),
            nires@ == nires0.subrange(i as int, n as int),
            node_analyses@.len() == i,
            forall|x: int|
                0 <= x < i ==> {
                    let a = #[trigger] node_analyses@[x];
                    &&& a.nd_effect@ == spec_nd_name(spec_nd_label(nv, ev, x))
                    &&& a.monotone == (spec_node_semantics(nv[x]).monotone != Monotonicity::Never)
                    &&& issues_view(a.issues@) == spec_node_issues(nv, ev, x)
                    &&& opt_loc_view(a.source_location) == spec_extract_source_location(nv[x])
                },
        decreases n - i,
    {
        let issues = nires.remove(0);
        proof {
            assert(issues == nires0[i as int]);
            assert(nires@ =~= nires0.subrange(i + 1, n as int));
        }
        let eff = effects[i];
        let nd_effect = nd_effect_name(eff);
        let s = get_node_semantics(&ir.nodes[i]);
        let monotone = s.monotone != Monotonicity::Never;
        let source_location = ir.nodes[i].extract_source_location();
        proof {
            assert(nv[i as int] == ir.nodes@[i as int]@);
        }
        node_analyses.push(NodeAnalysis { nd_effect, monotone, issues, source_location });
        i = i + 1;
    }

    let mut edge_analyses: Vec<EdgeAnalysis> = Vec::new();
    let mut k: usize = 0;
    while k < m
        invariant
            k <= m,
            m == ir.edges@.len(),
            nv == nodes_view(ir.nodes@),
            ev == edges_view(ir.edges@),
            calm@.len() == m,
            forall|x: int| 0 <= x < m ==> #[trigger] calm@[x] == spec_edge_calm(nv, ev, ev[x]),
            eires0.len() == m,
            forall|x: int|
                0 <= x < m ==> issues_view((#[trigger] eires0[x])@) == spec_edge_issues(nv, ev, x),
            eires@ == eires0.subrange(k as int, m as int),
            edge_analyses@.len() == k,
            forall|x: int|
                0 <= x < k ==> {
                    let a = #[trigger] edge_analyses@[x];
                    &&& a.is_lattice == spec_is_lattice(ev[x].label)
                    &&& a.calm@ == (if spec_edge_calm(nv, ev, ev[x]) {
                        "CalmSafe"@
                    } else {
                        "CalmUnsafe"@
                    })
                    &&& issues_view(a.issues@) == spec_edge_issues(nv, ev, x)
                },
        decreases m - k,
    {
        let issues = eires.remove(0);
        proof {
            assert(issues == eires0[k as int]);
            assert(eires@ =~= eires0.subrange(k + 1, m as int));
        }
        let is_lattice = is_lattice_type(match &ir.edges[k].label {
            Some(l) => Some(l.as_str()),
            None => None,
        });
        proof {
            assert(ev[k as int].label == ir.edges@[k as int].label.deep_view());
        }
        let calm_str: String = if calm[k] {
            "CalmSafe".to_owned()
        } else {
            "CalmUnsafe".to_owned()
        };
        edge_analyses.push(EdgeAnalysis { is_lattice, calm: calm_str, issues });
        k = k + 1;
    }

    AnalysisResult {
        node_analyses,
        edge_analyses,
        overall: OverallAnalysis { deterministic, calm_safe: overall_calm },
    }
}

/// Taint transitivity: every node forward-reachable from a node labelled
/// nondeterministic is labelled nondeterministic, and a node no seed
/// reaches is labelled deterministic.
pub proof fn lemma_nd_transitivity(nodes: Seq<NodeView>, edges: Seq<EdgeView>, s: int, t: int)
    ensures
        (0 <= s < nodes.len() && spec_nd_label(nodes, edges, s) != NdEffect::Deterministic
            && spec_reach(nodes, edges, s, t)) ==> spec_nd_label(nodes, edges, t)
            != NdEffect::Deterministic,
        !spec_tainted(nodes, edges, t) ==> spec_nd_label(nodes, edges, t)
            == NdEffect::Deterministic,
{
    let n = nodes.len() as int;
    let rel = crate::graph::step_rel(nodes, edges);
    if 0 <= s < nodes.len() && spec_nd_label(nodes, edges, s) != NdEffect::Deterministic
        && spec_reach(nodes, edges, s, t) {
        assert(spec_tainted(nodes, edges, s));
        let s0 = choose|s0: int|
            0 <= s0 < n && seed_marks(nodes)[s0] && crate::graph::rel_reach(rel, n, s0, s);
        crate::graph::lemma_reach_trans(rel, n, s0, s, t);
        assert(spec_tainted(nodes, edges, t));
    }
}

/// CALM-safe necessity: when a critical edge certifies, every node in its
/// backward cone is monotone and every edge inside the cone carries a
/// lattice type label.
pub proof fn lemma_calm_safe_necessity(
    nodes: Seq<NodeView>,
    edges: Seq<EdgeView>,
    k: int,
    i: int,
    f: int,
)
    requires
        0 <= k < edges.len(),
        spec_critical(nodes, edges[k]),
        spec_edge_calm(nodes, edges, edges[k]),
        edge_tgt(nodes, edges[k]) is Some,
    ensures
        (0 <= i < nodes.len() && spec_reach(nodes, edges, i, edge_tgt(nodes, edges[k])->Some_0))
            ==> spec_node_semantics(nodes[i]).monotone != Monotonicity::Never,
        (0 <= f < edges.len() && edge_src(nodes, edges[f]) is Some && edge_tgt(
            nodes,
            edges[f],
        ) is Some && spec_reach(
            nodes,
            edges,
            edge_src(nodes, edges[f])->Some_0,
            edge_tgt(nodes, edges[k])->Some_0,
        ) && spec_reach(
            nodes,
            edges,
            edge_tgt(nodes, edges[f])->Some_0,
            edge_tgt(nodes, edges[k])->Some_0,
        )) ==> spec_is_lattice(edges[f].label),
{
    assert(spec_edge_calm_safe(nodes, edges, edges[k]));
    assert(spec_cone_ok(nodes, edges, edge_tgt(nodes, edges[k])->Some_0));
}

/// CALM-unsafe witness: a critical edge that fails certification has a
/// non-monotone node or a non-lattice edge in its backward cone.
pub proof fn lemma_calm_unsafe_witness(nodes: Seq<NodeView>, edges: Seq<EdgeView>, k: int)
    requires
        0 <= k < edges.len(),
        spec_critical(nodes, edges[k]),
        !spec_edge_calm(nodes, edges, edges[k]),
    ensures
        edge_tgt(nodes, edges[k]) is Some,
        (exists|i: int|
            0 <= i < nodes.len() && spec_reach(
                nodes,
                edges,
                i,
                edge_tgt(nodes, edges[k])->Some_0,
            ) && spec_node_semantics(#[trigger] nodes[i]).monotone == Monotonicity::Never) || (
        exists|f: int|
            0 <= f < edges.len() && edge_src(nodes, #[trigger] edges[f]) is Some && edge_tgt(
                nodes,
                edges[f],
            ) is Some && spec_reach(
                nodes,
                edges,
                edge_src(nodes, edges[f])->Some_0,
                edge_tgt(nodes, edges[k])->Some_0,
            ) && spec_reach(
                nodes,
                edges,
                edge_tgt(nodes, edges[f])->Some_0,
                edge_tgt(nodes, edges[k])->Some_0,
            ) && !spec_is_lattice(edges[f].label)),
{
    assert(!spec_edge_calm_safe(nodes, edges, edges[k]));
    let t = edge_tgt(nodes, edges[k])->Some_0;
    assert(!spec_cone_ok(nodes, edges, t));
}

/// A `NonMonotone` entry for critical edge `k` stands in the
/// non-monotonicity findings of node `i`, once the conditions hold.
proof fn lemma_nonmono_contains(nodes: Seq<NodeView>, edges: Seq<EdgeView>, i: int, k: int, m: int)
    requires
        0 <= k < m <= edges.len(),
        spec_calm_unsafe(nodes, edges, edges[k]),
        spec_reach(nodes, edges, i, edge_tgt(nodes, edges[k])->Some_0),
        spec_node_semantics(nodes[i]).monotone == Monotonicity::Never,
    ensures
        exists|q: int|
            0 <= q < spec_nonmono_part(nodes, edges, i, m).len() && #[trigger] spec_nonmono_part(
                nodes,
                edges,
                i,
                m,
            )[q] == ("NonMonotone"@, spec_nonmono_message(nodes[i].id, edges[k].id)),
    decreases m,
{
    let entry = ("NonMonotone"@, spec_nonmono_message(nodes[i].id, edges[k].id));
    let pre = spec_nonmono_part(nodes, edges, i, m - 1);
    if k == m - 1 {
        assert(spec_nonmono_part(nodes, edges, i, m)[pre.len() as int] == entry);
    } else {
        lemma_nonmono_contains(nodes, edges, i, k, m - 1);
        let q = choose|q: int| 0 <= q < pre.len() && #[trigger] pre[q] == entry;
        assert(spec_nonmono_part(nodes, edges, i, m)[q] == entry);
    }
}

/// A `NonLattice` entry for critical edge `k` stands in the findings of
/// edge `f`, once the conditions hold.
proof fn lemma_nonlattice_contains(
    nodes: Seq<NodeView>,
    edges: Seq<EdgeView>,
    f: int,
    k: int,
    m: int,
)
    requires
        0 <= k < m <= edges.len(),
        0 <= f < edges.len(),
        spec_calm_unsafe(nodes, edges, edges[k]),
        edge_src(nodes, edges[f]) is Some,
        edge_tgt(nodes, edges[f]) is Some,
        spec_reach(nodes, edges, edge_src(nodes, edges[f])->Some_0, edge_tgt(nodes, edges[k])->Some_0),
        spec_reach(nodes, edges, edge_tgt(nodes, edges[f])->Some_0, edge_tgt(nodes, edges[k])->Some_0),
        !spec_is_lattice(edges[f].label),
    ensures
        exists|q: int|
            0 <= q < spec_nonlattice_part(nodes, edges, f, m).len()
                && #[trigger] spec_nonlattice_part(nodes, edges, f, m)[q] == (
            "NonLattice"@,
            spec_nonlattice_message(edges[f].id, edges[k].id),
            ),
    decreases m,
{
    let entry = ("NonLattice"@, spec_nonlattice_message(edges[f].id, edges[k].id));
    let pre = spec_nonlattice_part(nodes, edges, f, m - 1);
    if k == m - 1 {
        assert(spec_nonlattice_part(nodes, edges, f, m)[pre.len() as int] == entry);
    } else {
        lemma_nonlattice_contains(nodes, edges, f, k, m - 1);
        let q = choose|q: int| 0 <= q < pre.len() && #[trigger] pre[q] == entry;
        assert(spec_nonlattice_part(nodes, edges, f, m)[q] == entry);
    }
}

/// Issue completeness for nondeterminism: a node labelled nondeterministic
/// carries a `NonDet` finding, and it is the first one.
pub proof fn lemma_issue_completeness_nondet(nodes: Seq<NodeView>, edges: Seq<EdgeView>, i: int)
    requires
        spec_nd_label(nodes, edges, i) != NdEffect::Deterministic,
    ensures
        spec_node_issues(nodes, edges, i).len() > 0,
        spec_node_issues(nodes, edges, i)[0].0 == "NonDet"@,
{
    assert(spec_node_issues(nodes, edges, i)[0] == spec_nondet_part(nodes, edges, i)[0]);
}

/// Issue completeness for monotonicity: a non-monotone node in the cone of
/// an unsafe critical edge carries a `NonMonotone` finding naming it.
pub proof fn lemma_issue_completeness_nonmono(
    nodes: Seq<NodeView>,
    edges: Seq<EdgeView>,
    i: int,
    k: int,
)
    requires
        0 <= k < edges.len(),
        spec_calm_unsafe(nodes, edges, edges[k]),
        spec_reach(nodes, edges, i, edge_tgt(nodes, edges[k])->Some_0),
        spec_node_semantics(nodes[i]).monotone == Monotonicity::Never,
    ensures
        exists|q: int|
            0 <= q < spec_node_issues(nodes, edges, i).len() && #[trigger] spec_node_issues(
                nodes,
                edges,
                i,
            )[q] == ("NonMonotone"@, spec_nonmono_message(nodes[i].id, edges[k].id)),
{
    lemma_nonmono_contains(nodes, edges, i, k, edges.len() as int);
    let entry = ("NonMonotone"@, spec_nonmono_message(nodes[i].id, edges[k].id));
    let part = spec_nonmono_part(nodes, edges, i, edges.len() as int);
    let q = choose|q: int| 0 <= q < part.len() && #[trigger] part[q] == entry;
    let off = spec_nondet_part(nodes, edges, i).len() as int;
    assert(spec_node_issues(nodes, edges, i)[q + off] == entry);
}

/// Issue completeness for lattice types: a non-lattice edge inside the
/// cone of an unsafe critical edge carries a `NonLattice` finding naming it.
pub proof fn lemma_issue_completeness_nonlattice(
    nodes: Seq<NodeView>,
    edges: Seq<EdgeView>,
    f: int,
    k: int,
)
    requires
        0 <= k < edges.len(),
        0 <= f < edges.len(),
        spec_calm_unsafe(nodes, edges, edges[k]),
        edge_src(nodes, edges[f]) is Some,
        edge_tgt(nodes, edges[f]) is Some,
        spec_reach(nodes, edges, edge_src(nodes, edges[f])->Some_0, edge_tgt(nodes, edges[k])->Some_0),
        spec_reach(nodes, edges, edge_tgt(nodes, edges[f])->Some_0, edge_tgt(nodes, edges[k])->Some_0),
        !spec_is_lattice(edges[f].label),
    ensures
        exists|q: int|
            0 <= q < spec_edge_issues(nodes, edges, f).len() && #[trigger] spec_edge_issues(
                nodes,
                edges,
                f,
            )[q] == ("NonLattice"@, spec_nonlattice_message(edges[f].id, edges[k].id)),
{
    lemma_nonlattice_contains(nodes, edges, f, k, edges.len() as int);
    let entry = ("NonLattice"@, spec_nonlattice_message(edges[f].id, edges[k].id));
    let part = spec_nonlattice_part(nodes, edges, f, edges.len() as int);
    let q = choose|q: int| 0 <= q < part.len() && #[trigger] part[q] == entry;
    assert(spec_edge_issues(nodes, edges, f)[q] == entry);
}

/// Every entry of node `i`'s non-monotonicity findings belongs to some
/// unsafe critical edge whose cone holds `i`, with `i` non-monotone.
proof fn lemma_nonmono_part_elem(nodes: Seq<NodeView>, edges: Seq<EdgeView>, i: int, m: int, q: int)
    requires
        0 <= m <= edges.len(),
        0 <= q < spec_nonmono_part(nodes, edges, i, m).len(),
    ensures
        spec_node_semantics(nodes[i]).monotone == Monotonicity::Never,
        exists|k: int|
            0 <= k < m && #[trigger] spec_calm_unsafe(nodes, edges, edges[k]) && spec_reach(
                nodes,
                edges,
                i,
                edge_tgt(nodes, edges[k])->Some_0,
            ) && spec_nonmono_part(nodes, edges, i, m)[q] == (
            "NonMonotone"@,
            spec_nonmono_message(nodes[i].id, edges[k].id),
            ),
    decreases m,
{
    let pre = spec_nonmono_part(nodes, edges, i, m - 1);
    let e = edges[m - 1];
    if spec_calm_unsafe(nodes, edges, e) && spec_reach(nodes, edges, i, edge_tgt(nodes, e)->Some_0)
        && spec_node_semantics(nodes[i]).monotone == Monotonicity::Never && q == pre.len() {
        assert(spec_nonmono_part(nodes, edges, i, m)[q] == (
            "NonMonotone"@,
            spec_nonmono_message(nodes[i].id, e.id),
        ));
    } else {
        lemma_nonmono_part_elem(nodes, edges, i, m - 1, q);
        let k = choose|k: int|
            0 <= k < m - 1 && #[trigger] spec_calm_unsafe(nodes, edges, edges[k]) && spec_reach(
                nodes,
                edges,
                i,
                edge_tgt(nodes, edges[k])->Some_0,
            ) && pre[q] == ("NonMonotone"@, spec_nonmono_message(nodes[i].id, edges[k].id));
        assert(spec_nonmono_part(nodes, edges, i, m)[q] == pre[q]);
    }
}

/// Every entry of edge `f`'s findings belongs to some unsafe critical edge
/// whose cone holds both of `f`'s endpoints, with `f` non-lattice.
proof fn lemma_nonlattice_part_elem(
    nodes: Seq<NodeView>,
    edges: Seq<EdgeView>,
    f: int,
    m: int,
    q: int,
)
    requires
        0 <= m <= edges.len(),
        0 <= q < spec_nonlattice_part(nodes, edges, f, m).len(),
    ensures
        !spec_is_lattice(edges[f].label),
        edge_src(nodes, edges[f]) is Some,
        edge_tgt(nodes, edges[f]) is Some,
        exists|k: int|
            0 <= k < m && #[trigger] spec_calm_unsafe(nodes, edges, edges[k]) && spec_reach(
                nodes,
                edges,
                edge_src(nodes, edges[f])->Some_0,
                edge_tgt(nodes, edges[k])->Some_0,
            ) && spec_reach(
                nodes,
                edges,
                edge_tgt(nodes, edges[f])->Some_0,
                edge_tgt(nodes, edges[k])->Some_0,
            ) && spec_nonlattice_part(nodes, edges, f, m)[q] == (
            "NonLattice"@,
            spec_nonlattice_message(edges[f].id, edges[k].id),
            ),
    decreases m,
{
    let pre = spec_nonlattice_part(nodes, edges, f, m - 1);
    let e = edges[m - 1];
    let fe = edges[f];
    if spec_calm_unsafe(nodes, edges, e) && edge_src(nodes, fe) is Some && edge_tgt(
        nodes,
        fe,
    ) is Some && spec_reach(nodes, edges, edge_src(nodes, fe)->Some_0, edge_tgt(nodes, e)->Some_0)
        && spec_reach(nodes, edges, edge_tgt(nodes, fe)->Some_0, edge_tgt(nodes, e)->Some_0)
        && !spec_is_lattice(fe.label) && q == pre.len() {
        assert(spec_nonlattice_part(nodes, edges, f, m)[q] == (
            "NonLattice"@,
            spec_nonlattice_message(fe.id, e.id),
        ));
    } else {
        lemma_nonlattice_part_elem(nodes, edges, f, m - 1, q);
        let k = choose|k: int|
            0 <= k < m - 1 && #[trigger] spec_calm_unsafe(nodes, edges, edges[k]) && spec_reach(
                nodes,
                edges,
                edge_src(nodes, edges[f])->Some_0,
                edge_tgt(nodes, edges[k])->Some_0,
            ) && spec_reach(
                nodes,
                edges,
                edge_tgt(nodes, edges[f])->Some_0,
                edge_tgt(nodes, edges[k])->Some_0,
            ) && pre[q] == ("NonLattice"@, spec_nonlattice_message(edges[f].id, edges[k].id));
        assert(spec_nonlattice_part(nodes, edges, f, m)[q] == pre[q]);
    }
}

/// Issue soundness for nondeterminism: only a node labelled
/// nondeterministic carries a `NonDet` finding.
pub proof fn lemma_issue_soundness_nondet(nodes: Seq<NodeView>, edges: Seq<EdgeView>, i: int, q: int)
    requires
        0 <= q < spec_node_issues(nodes, edges, i).len(),
        spec_node_issues(nodes, edges, i)[q].0 == "NonDet"@,
    ensures
        spec_nd_label(nodes, edges, i) != NdEffect::Deterministic,
{
    reveal_strlit("NonDet");
    reveal_strlit("NonMonotone");
    assert("NonDet"@.len() == 6 && "NonMonotone"@.len() == 11);
    if spec_nd_label(nodes, edges, i) == NdEffect::Deterministic {
        let part = spec_nonmono_part(nodes, edges, i, edges.len() as int);
        assert(spec_node_issues(nodes, edges, i) =~= part);
        lemma_nonmono_part_elem(nodes, edges, i, edges.len() as int, q);
        let k = choose|k: int|
            0 <= k < edges.len() && #[trigger] spec_calm_unsafe(nodes, edges, edges[k])
                && spec_reach(nodes, edges, i, edge_tgt(nodes, edges[k])->Some_0) && part[q] == (
            "NonMonotone"@,
            spec_nonmono_message(nodes[i].id, edges[k].id),
            );
        assert(part[q].0 == "NonMonotone"@);
        assert(false);
    }
}

/// Issue soundness for monotonicity: every `NonMonotone` finding on a node
/// names an unsafe critical edge whose backward cone holds the node, and
/// the node's own semantics is non-monotone.
pub proof fn lemma_issue_soundness_nonmono(
    nodes: Seq<NodeView>,
    edges: Seq<EdgeView>,
    i: int,
    q: int,
)
    requires
        0 <= q < spec_node_issues(nodes, edges, i).len(),
        spec_node_issues(nodes, edges, i)[q].0 == "NonMonotone"@,
    ensures
        spec_node_semantics(nodes[i]).monotone == Monotonicity::Never,
        exists|k: int|
            0 <= k < edges.len() && #[trigger] spec_calm_unsafe(nodes, edges, edges[k])
                && spec_reach(nodes, edges, i, edge_tgt(nodes, edges[k])->Some_0)
                && spec_node_issues(nodes, edges, i)[q] == (
            "NonMonotone"@,
            spec_nonmono_message(nodes[i].id, edges[k].id),
            ),
{
    reveal_strlit("NonDet");
    reveal_strlit("NonMonotone");
    assert("NonDet"@.len() == 6 && "NonMonotone"@.len() == 11);
    let head = spec_nondet_part(nodes, edges, i);
    let part = spec_nonmono_part(nodes, edges, i, edges.len() as int);
    if q < head.len() {
        assert(spec_node_issues(nodes, edges, i)[q] == head[q]);
        assert(head[q].0 == "NonDet"@);
        assert(false);
    }
    assert(spec_node_issues(nodes, edges, i)[q] == part[q - head.len()]);
    lemma_nonmono_part_elem(nodes, edges, i, edges.len() as int, q - head.len());
    let k = choose|k: int|
        0 <= k < edges.len() && #[trigger] spec_calm_unsafe(nodes, edges, edges[k]) && spec_reach(
            nodes,
            edges,
            i,
            edge_tgt(nodes, edges[k])->Some_0,
        ) && part[q - head.len()] == (
        "NonMonotone"@,
        spec_nonmono_message(nodes[i].id, edges[k].id),
        );
    assert(spec_node_issues(nodes, edges, i)[q] == (
        "NonMonotone"@,
        spec_nonmono_message(nodes[i].id, edges[k].id),
    ));
}

/// Issue soundness for lattice types: every finding on an edge names an
/// unsafe critical edge whose backward cone holds both of the offending
/// edge's endpoints, and the offending edge is non-lattice.
pub proof fn lemma_issue_soundness_nonlattice(
    nodes: Seq<NodeView>,
    edges: Seq<EdgeView>,
    f: int,
    q: int,
)
    requires
        0 <= q < spec_edge_issues(nodes, edges, f).len(),
    ensures
        !spec_is_lattice(edges[f].label),
        exists|k: int|
            0 <= k < edges.len() && #[trigger] spec_calm_unsafe(nodes, edges, edges[k])
                && spec_reach(
                nodes,
                edges,
                edge_src(nodes, edges[f])->Some_0,
                edge_tgt(nodes, edges[k])->Some_0,
            ) && spec_reach(
                nodes,
                edges,
                edge_tgt(nodes, edges[f])->Some_0,
                edge_tgt(nodes, edges[k])->Some_0,
            ) && spec_edge_issues(nodes, edges, f)[q] == (
            "NonLattice"@,
            spec_nonlattice_message(edges[f].id, edges[k].id),
            ),
{
    lemma_nonlattice_part_elem(nodes, edges, f, edges.len() as int, q);
}

} // verus!
