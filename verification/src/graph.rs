//! Graph index over the node and edge lists, and verified reachability.
//!
//! The index maps node ids to dense indices (when ids repeat, the last
//! occurrence wins) and holds forward and backward adjacency rows, each
//! entry an `(endpoint index, edge index)` pair. Edges whose endpoints are
//! not both present contribute no adjacency. Reachability is specified by
//! finite paths over an abstract step relation, so that the same closure
//! routine and lemmas serve the forward taint pass and the backward CALM
//! cone.

use vstd::prelude::*;
use crate::model::{Edge, EdgeView, Node, NodeView, edges_view, nodes_view};
use crate::strutil::str_eq;

verus! {

broadcast use vstd::seq::group_seq_axioms, vstd::std_specs::vec::group_vec_axioms;

/// Index of `id` among `ids`; the last occurrence wins.
pub open spec fn spec_id_index(ids: Seq<Seq<char>>, id: Seq<char>) -> Option<int>
    decreases ids.len(),
{
    if ids.len() == 0 {
        None
    } else if ids.last() == id {
        Some(ids.len() - 1)
    } else {
        spec_id_index(ids.drop_last(), id)
    }
}

/// A found index is in range and names `id`; a miss means no entry does.
pub proof fn lemma_id_index_range(ids: Seq<Seq<char>>, id: Seq<char>)
    ensures
        match spec_id_index(ids, id) {
            Some(i) => 0 <= i < ids.len() && ids[i] == id,
            None => forall|i: int| 0 <= i < ids.len() ==> ids[i] != id,
        },
    decreases ids.len(),
{
    if ids.len() > 0 && ids.last() != id {
        lemma_id_index_range(ids.drop_last(), id);
        if spec_id_index(ids, id) is None {
            assert forall|i: int| 0 <= i < ids.len() implies ids[i] != id by {
                if i < ids.len() - 1 {
                    assert(ids.drop_last()[i] == ids[i]);
                }
            }
        } else {
            let i = spec_id_index(ids, id)->Some_0;
            assert(ids.drop_last()[i] == ids[i]);
        }
    }
}

/// The id sequence of a node sequence.
pub open spec fn node_ids(nodes: Seq<NodeView>) -> Seq<Seq<char>> {
    Seq::new(nodes.len(), |i: int| nodes[i].id)
}

/// The dense index of an edge's source node.
pub open spec fn edge_src(nodes: Seq<NodeView>, e: EdgeView) -> Option<int> {
    spec_id_index(node_ids(nodes), e.source)
}

/// The dense index of an edge's target node.
pub open spec fn edge_tgt(nodes: Seq<NodeView>, e: EdgeView) -> Option<int> {
    spec_id_index(node_ids(nodes), e.target)
}

/// Edge `e` connects node index `i` to node index `j`.
pub open spec fn edge_links(nodes: Seq<NodeView>, e: EdgeView, i: int, j: int) -> bool {
    edge_src(nodes, e) == Some(i) && edge_tgt(nodes, e) == Some(j)
}

/// Some edge connects node index `i` to node index `j`.
pub open spec fn spec_step(nodes: Seq<NodeView>, edges: Seq<EdgeView>, i: int, j: int) -> bool {
    exists|k: int| 0 <= k < edges.len() && edge_links(nodes, #[trigger] edges[k], i, j)
}

/// A nonempty sequence of in-range indices, each related to the next.
pub open spec fn is_rel_path(rel: spec_fn(int, int) -> bool, n: int, p: Seq<int>) -> bool {
    &&& p.len() >= 1
    &&& forall|q: int| 0 <= q < p.len() ==> 0 <= #[trigger] p[q] < n
    &&& forall|q: int| 0 <= q < p.len() - 1 ==> rel(#[trigger] p[q], p[q + 1])
}

/// `t` is reachable from `s` along `rel` (in zero or more steps).
pub open spec fn rel_reach(rel: spec_fn(int, int) -> bool, n: int, s: int, t: int) -> bool {
    exists|p: Seq<int>| is_rel_path(rel, n, p) && p.first() == s && p.last() == t
}

/// The step relation of a graph, as a function value.
pub open spec fn step_rel(nodes: Seq<NodeView>, edges: Seq<EdgeView>) -> spec_fn(int, int) -> bool {
    |i: int, j: int| spec_step(nodes, edges, i, j)
}

/// Forward reachability between node indices.
pub open spec fn spec_reach(nodes: Seq<NodeView>, edges: Seq<EdgeView>, s: int, t: int) -> bool {
    rel_reach(step_rel(nodes, edges), nodes.len() as int, s, t)
}

/// Every in-range index reaches itself.
pub proof fn lemma_reach_refl(rel: spec_fn(int, int) -> bool, n: int, s: int)
    requires
        0 <= s < n,
    ensures
        rel_reach(rel, n, s, s),
{
    let p = seq![s];
    assert(is_rel_path(rel, n, p));
    assert(p.first() == s && p.last() == s);
}

/// Reachability extends along one more step.
pub proof fn lemma_reach_extend(rel: spec_fn(int, int) -> bool, n: int, s: int, i: int, j: int)
    requires
        rel_reach(rel, n, s, i),
        rel(i, j),
        0 <= j < n,
    ensures
        rel_reach(rel, n, s, j),
{
    let p = choose|p: Seq<int>| is_rel_path(rel, n, p) && p.first() == s && p.last() == i;
    let p2 = p.push(j);
    assert(is_rel_path(rel, n, p2)) by {
        assert(forall|q: int| 0 <= q < p.len() ==> p2[q] == #[trigger] p[q]);
        assert(p2[p.len() as int] == j);
        assert forall|q: int| 0 <= q < p2.len() - 1 implies rel(#[trigger] p2[q], p2[q + 1]) by {
            if q < p.len() - 1 {
                assert(rel(p[q], p[q + 1]));
            } else {
                assert(p2[q] == p.last() && p2[q + 1] == j);
            }
        }
    }
    assert(p2.first() == s && p2.last() == j);
}

/// Along a path whose first node lies in a step-closed marked set, every
/// node lies in the set.
proof fn lemma_path_marked(rel: spec_fn(int, int) -> bool, n: int, marked: Seq<bool>, p: Seq<int>)
    requires
        marked.len() == n,
        is_rel_path(rel, n, p),
        marked[p.first()],
        forall|x: int, y: int|
            0 <= x < n && marked[x] && #[trigger] rel(x, y) && 0 <= y < n ==> marked[y],
    ensures
        marked[p.last()],
    decreases p.len(),
{
    if p.len() > 1 {
        assert(rel(p[0], p[1]));
        assert(marked[p[1]]);
        let p2 = p.drop_first();
        assert(is_rel_path(rel, n, p2)) by {
            assert(forall|q: int| 0 <= q < p2.len() ==> p2[q] == #[trigger] p[q + 1]);
            assert forall|q: int| 0 <= q < p2.len() - 1 implies rel(#[trigger] p2[q], p2[q + 1]) by {
                assert(rel(p[q + 1], p[q + 2]));
            }
        }
        lemma_path_marked(rel, n, marked, p2);
    }
}

/// A step-closed marked set that holds `s` holds everything reachable
/// from `s`.
pub proof fn lemma_closed_reach(
    rel: spec_fn(int, int) -> bool,
    n: int,
    marked: Seq<bool>,
    s: int,
    t: int,
)
    requires
        marked.len() == n,
        rel_reach(rel, n, s, t),
        0 <= s < n,
        marked[s],
        forall|x: int, y: int|
            0 <= x < n && marked[x] && #[trigger] rel(x, y) && 0 <= y < n ==> marked[y],
    ensures
        0 <= t < n,
        marked[t],
{
    let p = choose|p: Seq<int>| is_rel_path(rel, n, p) && p.first() == s && p.last() == t;
    lemma_path_marked(rel, n, marked, p);
}

/// Reachability is transitive.
pub proof fn lemma_reach_trans(rel: spec_fn(int, int) -> bool, n: int, a: int, b: int, c: int)
    requires
        rel_reach(rel, n, a, b),
        rel_reach(rel, n, b, c),
    ensures
        rel_reach(rel, n, a, c),
{
    let p1 = choose|p: Seq<int>| is_rel_path(rel, n, p) && p.first() == a && p.last() == b;
    let p2 = choose|p: Seq<int>| is_rel_path(rel, n, p) && p.first() == b && p.last() == c;
    let p3 = p1 + p2.drop_first();
    let l1 = p1.len() as int;
    assert(is_rel_path(rel, n, p3)) by {
        assert(forall|q: int| 0 <= q < l1 ==> p3[q] == #[trigger] p1[q]);
        assert(forall|q: int|
            l1 <= q < p3.len() ==> p3[q] == #[trigger] p2.drop_first()[q - l1]);
        assert forall|q: int| 0 <= q < p3.len() implies 0 <= #[trigger] p3[q] < n by {
            if q >= l1 {
                assert(p3[q] == p2[q - l1 + 1]);
            }
        }
        assert forall|q: int| 0 <= q < p3.len() - 1 implies rel(#[trigger] p3[q], p3[q + 1]) by {
            if q < l1 - 1 {
                assert(rel(p1[q], p1[q + 1]));
            } else if q == l1 - 1 {
                assert(p3[q] == p1.last());
                if p2.len() > 1 {
                    assert(p3[q + 1] == p2[1]);
                    assert(rel(p2[0], p2[1]));
                }
            } else {
                assert(p3[q] == p2[q - l1 + 1] && p3[q + 1] == p2[q - l1 + 2]);
                assert(rel(p2[q - l1 + 1], p2[q - l1 + 2]));
            }
        }
    }
    assert(p3.first() == a);
    assert(p3.last() == c) by {
        if p2.len() == 1 {
            assert(p3.last() == p1.last());
        } else {
            assert(p3.last() == p2.last());
        }
    }
}

/// Reachability along the flipped relation is reachability backwards.
pub proof fn lemma_reach_flip(
    rel: spec_fn(int, int) -> bool,
    flip: spec_fn(int, int) -> bool,
    n: int,
    s: int,
    t: int,
)
    requires
        forall|i: int, j: int| #[trigger] flip(i, j) <==> rel(j, i),
        rel_reach(flip, n, s, t),
    ensures
        rel_reach(rel, n, t, s),
{
    let p = choose|p: Seq<int>| is_rel_path(flip, n, p) && p.first() == s && p.last() == t;
    let m = p.len() as int;
    let p2 = Seq::new(p.len(), |q: int| p[m - 1 - q]);
    assert(is_rel_path(rel, n, p2)) by {
        assert forall|q: int| 0 <= q < p2.len() - 1 implies rel(#[trigger] p2[q], p2[q + 1]) by {
            assert(p2[q] == p[m - 1 - q] && p2[q + 1] == p[m - 2 - q]);
            assert(flip(p[m - 2 - q], p[m - 1 - q]));
        }
    }
    assert(p2.first() == p.last() && p2.last() == p.first());
}

/// Number of `false` entries of a mark vector.
pub open spec fn count_false(s: Seq<bool>) -> nat
    decreases s.len(),
{
    if s.len() == 0 {
        0
    } else {
        count_false(s.drop_last()) + (if s.last() {
            0nat
        } else {
            1nat
        })
    }
}

/// Setting a `false` entry to `true` lowers the count by one.
proof fn lemma_count_false_update(s: Seq<bool>, j: int)
    requires
        0 <= j < s.len(),
        !s[j],
    ensures
        count_false(s.update(j, true)) + 1 == count_false(s),
    decreases s.len(),
{
    let s2 = s.update(j, true);
    if j == s.len() - 1 {
        assert(s2.drop_last() =~= s.drop_last());
        assert(s2.last());
    } else {
        assert(s2.drop_last() =~= s.drop_last().update(j, true));
        assert(s2.last() == s.last());
        lemma_count_false_update(s.drop_last(), j);
    }
}

/// Forward adjacency row of node `i`, over the first `e` edges.
pub open spec fn fwd_row(nodes: Seq<NodeView>, edges: Seq<EdgeView>, i: int, e: int) -> Seq<
    (usize, usize),
>
    decreases e,
{
    if e <= 0 {
        Seq::empty()
    } else {
        let r = fwd_row(nodes, edges, i, e - 1);
        if edge_src(nodes, edges[e - 1]) == Some(i) && edge_tgt(nodes, edges[e - 1]) is Some {
            r.push(((edge_tgt(nodes, edges[e - 1])->Some_0) as usize, (e - 1) as usize))
        } else {
            r
        }
    }
}

/// Backward adjacency row of node `i`, over the first `e` edges.
pub open spec fn bwd_row(nodes: Seq<NodeView>, edges: Seq<EdgeView>, i: int, e: int) -> Seq<
    (usize, usize),
>
    decreases e,
{
    if e <= 0 {
        Seq::empty()
    } else {
        let r = bwd_row(nodes, edges, i, e - 1);
        if edge_tgt(nodes, edges[e - 1]) == Some(i) && edge_src(nodes, edges[e - 1]) is Some {
            r.push(((edge_src(nodes, edges[e - 1])->Some_0) as usize, (e - 1) as usize))
        } else {
            r
        }
    }
}

/// Every forward-row entry names a real edge out of `i`.
proof fn lemma_fwd_row_sound(nodes: Seq<NodeView>, edges: Seq<EdgeView>, i: int, e: int)
    requires
        0 <= e <= edges.len(),
        nodes.len() <= usize::MAX,
        edges.len() <= usize::MAX,
    ensures
        forall|q: int|
            0 <= q < fwd_row(nodes, edges, i, e).len() ==> {
                let entry = #[trigger] fwd_row(nodes, edges, i, e)[q];
                &&& (entry.1 as int) < e
                &&& edge_links(nodes, edges[entry.1 as int], i, entry.0 as int)
            },
    decreases e,
{
    if e > 0 {
        lemma_fwd_row_sound(nodes, edges, i, e - 1);
        let r = fwd_row(nodes, edges, i, e - 1);
        let cur = fwd_row(nodes, edges, i, e);
        if edge_src(nodes, edges[e - 1]) == Some(i) && edge_tgt(nodes, edges[e - 1]) is Some {
            let j = edge_tgt(nodes, edges[e - 1])->Some_0;
            lemma_id_index_range(node_ids(nodes), edges[e - 1].target);
            assert(0 <= j < nodes.len());
            let entry_new = (j as usize, (e - 1) as usize);
            assert(cur == r.push(entry_new));
            assert forall|q: int| 0 <= q < cur.len() implies {
                let entry = #[trigger] cur[q];
                &&& (entry.1 as int) < e
                &&& edge_links(nodes, edges[entry.1 as int], i, entry.0 as int)
            } by {
                if q < r.len() {
                    assert(cur[q] == r[q]);
                } else {
                    assert(cur[q] == entry_new);
                    assert(entry_new.1 as int == e - 1);
                    assert(entry_new.0 as int == j);
                }
            }
        } else {
            assert(cur == r);
        }
    }
}

/// Every edge out of `i` appears in `i`'s forward row.
proof fn lemma_fwd_row_complete(nodes: Seq<NodeView>, edges: Seq<EdgeView>, i: int, e: int, k: int)
    requires
        0 <= k < e <= edges.len(),
        nodes.len() <= usize::MAX,
        edges.len() <= usize::MAX,
        edge_src(nodes, edges[k]) == Some(i),
        edge_tgt(nodes, edges[k]) is Some,
    ensures
        fwd_row(nodes, edges, i, e).contains(
            ((edge_tgt(nodes, edges[k])->Some_0) as usize, k as usize),
        ),
    decreases e,
{
    let entry = ((edge_tgt(nodes, edges[k])->Some_0) as usize, k as usize);
    let r = fwd_row(nodes, edges, i, e - 1);
    if k == e - 1 {
        assert(fwd_row(nodes, edges, i, e) == r.push(entry));
        assert(fwd_row(nodes, edges, i, e)[r.len() as int] == entry);
    } else {
        lemma_fwd_row_complete(nodes, edges, i, e - 1, k);
        let q = choose|q: int| 0 <= q < r.len() && r[q] == entry;
        if edge_src(nodes, edges[e - 1]) == Some(i) && edge_tgt(nodes, edges[e - 1]) is Some {
            assert(fwd_row(nodes, edges, i, e)[q] == entry);
        }
        assert(fwd_row(nodes, edges, i, e).contains(entry)) by {
            assert(fwd_row(nodes, edges, i, e)[q] == entry);
        }
    }
}

/// Every backward-row entry names a real edge into `i`.
proof fn lemma_bwd_row_sound(nodes: Seq<NodeView>, edges: Seq<EdgeView>, i: int, e: int)
    requires
        0 <= e <= edges.len(),
        nodes.len() <= usize::MAX,
        edges.len() <= usize::MAX,
    ensures
        forall|q: int|
            0 <= q < bwd_row(nodes, edges, i, e).len() ==> {
                let entry = #[trigger] bwd_row(nodes, edges, i, e)[q];
                &&& (entry.1 as int) < e
                &&& edge_links(nodes, edges[entry.1 as int], entry.0 as int, i)
            },
    decreases e,
{
    if e > 0 {
        lemma_bwd_row_sound(nodes, edges, i, e - 1);
        let r = bwd_row(nodes, edges, i, e - 1);
        let cur = bwd_row(nodes, edges, i, e);
        if edge_tgt(nodes, edges[e - 1]) == Some(i) && edge_src(nodes, edges[e - 1]) is Some {
            let j = edge_src(nodes, edges[e - 1])->Some_0;
            lemma_id_index_range(node_ids(nodes), edges[e - 1].source);
            assert(0 <= j < nodes.len());
            let entry_new = (j as usize, (e - 1) as usize);
            assert(cur == r.push(entry_new));
            assert forall|q: int| 0 <= q < cur.len() implies {
                let entry = #[trigger] cur[q];
                &&& (entry.1 as int) < e
                &&& edge_links(nodes, edges[entry.1 as int], entry.0 as int, i)
            } by {
                if q < r.len() {
                    assert(cur[q] == r[q]);
                } else {
                    assert(cur[q] == entry_new);
                    assert(entry_new.1 as int == e - 1);
                    assert(entry_new.0 as int == j);
                }
            }
        } else {
            assert(cur == r);
        }
    }
}

/// Every edge into `i` appears in `i`'s backward row.
proof fn lemma_bwd_row_complete(nodes: Seq<NodeView>, edges: Seq<EdgeView>, i: int, e: int, k: int)
    requires
        0 <= k < e <= edges.len(),
        nodes.len() <= usize::MAX,
        edges.len() <= usize::MAX,
        edge_tgt(nodes, edges[k]) == Some(i),
        edge_src(nodes, edges[k]) is Some,
    ensures
        bwd_row(nodes, edges, i, e).contains(
            ((edge_src(nodes, edges[k])->Some_0) as usize, k as usize),
        ),
    decreases e,
{
    let entry = ((edge_src(nodes, edges[k])->Some_0) as usize, k as usize);
    let r = bwd_row(nodes, edges, i, e - 1);
    if k == e - 1 {
        assert(bwd_row(nodes, edges, i, e) == r.push(entry));
        assert(bwd_row(nodes, edges, i, e)[r.len() as int] == entry);
    } else {
        lemma_bwd_row_complete(nodes, edges, i, e - 1, k);
        let q = choose|q: int| 0 <= q < r.len() && r[q] == entry;
        assert(bwd_row(nodes, edges, i, e).contains(entry)) by {
            assert(bwd_row(nodes, edges, i, e)[q] == entry);
        }
    }
}

/// The graph index: node ids, forward adjacency, backward adjacency.
pub struct Graph {
    pub ids: Vec<String>,
    pub fwd: Vec<Vec<(usize, usize)>>,
    pub bwd: Vec<Vec<(usize, usize)>>,
}

impl Graph {
    /// The index is exactly the one `build` computes for these nodes and
    /// edges.
    pub open spec fn wf(self, nodes: Seq<NodeView>, edges: Seq<EdgeView>) -> bool {
        &&& self.ids.deep_view() == node_ids(nodes)
        &&& self.fwd@.len() == nodes.len()
        &&& self.bwd@.len() == nodes.len()
        &&& forall|i: int|
            0 <= i < nodes.len() ==> (#[trigger] self.fwd@[i])@ == fwd_row(
                nodes,
                edges,
                i,
                edges.len() as int,
            )
        &&& forall|i: int|
            0 <= i < nodes.len() ==> (#[trigger] self.bwd@[i])@ == bwd_row(
                nodes,
                edges,
                i,
                edges.len() as int,
            )
    }

    /// Build the index from the node and edge lists.
    pub fn build(nodes: &Vec<Node>, edges: &Vec<Edge>) -> (g: Graph)
        ensures
            g.wf(nodes_view(nodes@), edges_view(edges@)),
    {
        let ghost nv = nodes_view(nodes@);
        let ghost ev = edges_view(edges@);
        let n = nodes.len();
        let m = edges.len();

        let mut ids: Vec<String> = Vec::new();
        let mut i: usize = 0;
        while i < n
            invariant
                i <= n,
                n == nodes@.len(),
                nv == nodes_view(nodes@),
                ids@.len() == i,
                forall|k: int| 0 <= k < i ==> (#[trigger] ids@[k])@ == nv[k].id,
            decreases n - i,
        {
            let cloned_id = nodes[i].id.clone();
            assert(cloned_id@ == nv[i as int].id);
            ids.push(cloned_id);
            i = i + 1;
        }
        proof {
            assert forall|k: int| 0 <= k < n implies ids.deep_view()[k] == node_ids(nv)[k] by {
                assert(ids.deep_view()[k] == ids@[k]@);
            }
            assert(ids.deep_view() =~= node_ids(nv));
        }

        let mut fwd: Vec<Vec<(usize, usize)>> = Vec::new();
        let mut i: usize = 0;
        while i < n
            invariant
                i <= n,
                n == nodes@.len(),
                m == edges@.len(),
                nv == nodes_view(nodes@),
                ev == edges_view(edges@),
                ids.deep_view() == node_ids(nv),
                fwd@.len() == i,
                forall|x: int| 0 <= x < i ==> (#[trigger] fwd@[x])@ == fwd_row(nv, ev, x, m as int),
            decreases n - i,
        {
            let mut row: Vec<(usize, usize)> = Vec::new();
            let mut e: usize = 0;
            while e < m
                invariant
                    e <= m,
                    i < n,
                    n == nodes@.len(),
                    m == edges@.len(),
                    nv == nodes_view(nodes@),
                    ev == edges_view(edges@),
                    ids.deep_view() == node_ids(nv),
                    row@ == fwd_row(nv, ev, i as int, e as int),
                decreases m - e,
            {
                let si = id_index(&ids, edges[e].source.as_str());
                let ti = id_index(&ids, edges[e].target.as_str());
                proof {
                    assert(ev[e as int].source == edges@[e as int].source@);
                    assert(ev[e as int].target == edges@[e as int].target@);
                }
                match (si, ti) {
                    (Some(s), Some(t)) => {
                        if s == i {
                            proof {
                                lemma_id_index_range(node_ids(nv), ev[e as int].target);
                            }
                            row.push((t, e));
                        }
                    },
                    _ => {},
                }
                e = e + 1;
            }
            fwd.push(row);
            i = i + 1;
        }

        let mut bwd: Vec<Vec<(usize, usize)>> = Vec::new();
        let mut i: usize = 0;
        while i < n
            invariant
                i <= n,
                n == nodes@.len(),
                m == edges@.len(),
                nv == nodes_view(nodes@),
                ev == edges_view(edges@),
                ids.deep_view() == node_ids(nv),
                bwd@.len() == i,
                forall|x: int| 0 <= x < i ==> (#[trigger] bwd@[x])@ == bwd_row(nv, ev, x, m as int),
            decreases n - i,
        {
            let mut row: Vec<(usize, usize)> = Vec::new();
            let mut e: usize = 0;
            while e < m
                invariant
                    e <= m,
                    i < n,
                    n == nodes@.len(),
                    m == edges@.len(),
                    nv == nodes_view(nodes@),
                    ev == edges_view(edges@),
                    ids.deep_view() == node_ids(nv),
                    row@ == bwd_row(nv, ev, i as int, e as int),
                decreases m - e,
            {
                let si = id_index(&ids, edges[e].source.as_str());
                let ti = id_index(&ids, edges[e].target.as_str());
                proof {
                    assert(ev[e as int].source == edges@[e as int].source@);
                    assert(ev[e as int].target == edges@[e as int].target@);
                }
                match (si, ti) {
                    (Some(s), Some(t)) => {
                        if t == i {
                            proof {
                                lemma_id_index_range(node_ids(nv), ev[e as int].source);
                            }
                            row.push((s, e));
                        }
                    },
                    _ => {},
                }
                e = e + 1;
            }
            bwd.push(row);
            i = i + 1;
        }

        assert(fwd@.len() == nv.len() && bwd@.len() == nv.len());
        Graph { ids, fwd, bwd }
    }

    /// Dense index of the node with this id, if present.
    pub fn get_idx(&self, node_id: &str) -> (r: Option<usize>)
        ensures
            match r {
                Some(i) => spec_id_index(self.ids.deep_view(), node_id@) == Some(i as int),
                None => spec_id_index(self.ids.deep_view(), node_id@) is None,
            },
    {
        id_index(&self.ids, node_id)
    }
}

/// Whether some initially marked index reaches `t` along `rel`.
pub open spec fn reach_from(
    rel: spec_fn(int, int) -> bool,
    n: int,
    init: Seq<bool>,
    t: int,
) -> bool {
    exists|s: int| 0 <= s < n && init[s] && rel_reach(rel, n, s, t)
}

/// Whether some initially marked node index reaches `t` in the graph.
pub open spec fn spec_reach_from(
    nodes: Seq<NodeView>,
    edges: Seq<EdgeView>,
    init: Seq<bool>,
    t: int,
) -> bool {
    reach_from(step_rel(nodes, edges), nodes.len() as int, init, t)
}

/// Mark everything reachable along `rel` from the initially marked set:
/// passes over the adjacency rows until a fixed point.
#[verifier::loop_isolation(false)]
#[verifier::rlimit(60)]
fn closure_scan(
    adj: &Vec<Vec<(usize, usize)>>,
    init: Vec<bool>,
    Ghost(rel): Ghost<spec_fn(int, int) -> bool>,
) -> (marked: Vec<bool>)
    requires
        adj@.len() == init@.len(),
        forall|i: int, q: int|
            0 <= i < adj@.len() && 0 <= q < adj@[i]@.len() ==> rel(
                i,
                (#[trigger] adj@[i]@[q]).0 as int,
            ) && (adj@[i]@[q]).0 < adj@.len(),
        forall|i: int, j: int|
            0 <= i < adj@.len() && #[trigger] rel(i, j) ==> 0 <= j < adj@.len() && exists|q: int|
                0 <= q < adj@[i]@.len() && ((#[trigger] adj@[i]@[q]).0 as int) == j,
    ensures
        marked@.len() == init@.len(),
        forall|t: int|
            0 <= t < init@.len() ==> (#[trigger] marked@[t] <==> reach_from(
                rel,
                init@.len() as int,
                init@,
                t,
            )),
{
    let n = adj.len();
    let ghost nn = n as int;
    let ghost init0 = init@;
    let mut marked = init;
    proof {
        assert forall|t: int| 0 <= t < nn && marked@[t] implies reach_from(rel, nn, init0, t) by {
            lemma_reach_refl(rel, nn, t);
        }
    }
    let mut changed = true;
    while changed
        invariant
            marked@.len() == nn,
            forall|s: int| 0 <= s < nn && #[trigger] init0[s] ==> marked@[s],
            forall|t: int|
                0 <= t < nn && #[trigger] marked@[t] ==> reach_from(rel, nn, init0, t),
            !changed ==> forall|x: int, y: int|
                0 <= x < nn && marked@[x] && #[trigger] rel(x, y) && 0 <= y < nn ==> marked@[y],
        decreases count_false(marked@), (if changed {
            1int
        } else {
            0int
        }),
    {
        changed = false;
        let ghost m0 = marked@;
        let mut i: usize = 0;
        while i < n
            invariant
                i <= n,
                marked@.len() == nn,
                forall|x: int| 0 <= x < nn && #[trigger] m0[x] ==> marked@[x],
                count_false(marked@) <= count_false(m0),
                changed ==> count_false(marked@) < count_false(m0),
                !changed ==> marked@ == m0,
                !changed ==> forall|x: int, y: int|
                    0 <= x < i && marked@[x] && #[trigger] rel(x, y) && 0 <= y < nn
                        ==> marked@[y],
                forall|s: int| 0 <= s < nn && #[trigger] init0[s] ==> marked@[s],
                forall|t: int|
                    0 <= t < nn && #[trigger] marked@[t] ==> reach_from(rel, nn, init0, t),
            decreases n - i,
        {
            if marked[i] {
                let rl = adj[i].len();
                let mut q: usize = 0;
                while q < rl
                    invariant
                        q <= rl,
                        i < n,
                        rl == adj@[i as int]@.len(),
                        marked@.len() == nn,
                        marked@[i as int],
                        forall|x: int| 0 <= x < nn && #[trigger] m0[x] ==> marked@[x],
                        count_false(marked@) <= count_false(m0),
                        changed ==> count_false(marked@) < count_false(m0),
                        !changed ==> marked@ == m0,
                        !changed ==> forall|x: int, y: int|
                            0 <= x < i && marked@[x] && #[trigger] rel(x, y) && 0 <= y < nn
                                ==> marked@[y],
                        forall|s: int| 0 <= s < nn && #[trigger] init0[s] ==> marked@[s],
                        forall|t: int|
                            0 <= t < nn && #[trigger] marked@[t] ==> reach_from(
                                rel,
                                nn,
                                init0,
                                t,
                            ),
                        forall|p: int|
                            0 <= p < q ==> marked@[(#[trigger] adj@[i as int]@[p]).0 as int],
                    decreases rl - q,
                {
                    let entry = adj[i][q];
                    let j = entry.0;
                    if !marked[j] {
                        let ghost mb = marked@;
                        marked.set(j, true);
                        changed = true;
                        proof {
                            lemma_count_false_update(mb, j as int);
                            assert(rel(i as int, j as int));
                            let s = choose|s: int|
                                0 <= s < nn && init0[s] && rel_reach(rel, nn, s, i as int);
                            lemma_reach_extend(rel, nn, s, i as int, j as int);
                            assert forall|t: int| 0 <= t < nn && marked@[t] implies reach_from(
                                rel,
                                nn,
                                init0,
                                t,
                            ) by {
                                if t != j as int {
                                    assert(mb[t]);
                                }
                            }
                        }
                    }
                    q = q + 1;
                }
                proof {
                    if !changed {
                        assert forall|y: int| #[trigger] rel(i as int, y) && 0 <= y < nn
                        implies marked@[y] by {
                            let qq = choose|qq: int|
                                0 <= qq < adj@[i as int]@.len() && ((adj@[i as int]@[qq]).0
                                    as int) == y;
                            assert(marked@[(adj@[i as int]@[qq]).0 as int]);
                        }
                    }
                }
            }
            i = i + 1;
        }
    }
    proof {
        assert forall|t: int| 0 <= t < nn && reach_from(rel, nn, init0, t) implies marked@[t] by {
            let s = choose|s: int| 0 <= s < nn && init0[s] && rel_reach(rel, nn, s, t);
            lemma_closed_reach(rel, nn, marked@, s, t);
        }
    }
    marked
}

/// Mark every node forward-reachable from the initially marked set.
pub fn forward_closure(
    g: &Graph,
    nodes: &Vec<Node>,
    edges: &Vec<Edge>,
    init: Vec<bool>,
) -> (marked: Vec<bool>)
    requires
        g.wf(nodes_view(nodes@), edges_view(edges@)),
        init@.len() == nodes@.len(),
    ensures
        marked@.len() == nodes@.len(),
        forall|t: int|
            0 <= t < nodes@.len() ==> (#[trigger] marked@[t] <==> spec_reach_from(
                nodes_view(nodes@),
                edges_view(edges@),
                init@,
                t,
            )),
{
    let ghost nv = nodes_view(nodes@);
    let ghost ev = edges_view(edges@);
    let ghost rel = step_rel(nv, ev);
    proof {
        vstd::std_specs::vec::axiom_spec_len(nodes);
        vstd::std_specs::vec::axiom_spec_len(edges);
        lemma_graph_fwd_adj(*g, nv, ev);
    }
    closure_scan(&g.fwd, init, Ghost(rel))
}

/// Mark every node in the backward-reachable cone of `target_idx`
/// (the target itself included).
pub fn compute_backward_reachable(
    g: &Graph,
    nodes: &Vec<Node>,
    edges: &Vec<Edge>,
    target_idx: usize,
) -> (marked: Vec<bool>)
    requires
        g.wf(nodes_view(nodes@), edges_view(edges@)),
        target_idx < nodes@.len(),
    ensures
        marked@.len() == nodes@.len(),
        forall|i: int|
            0 <= i < nodes@.len() ==> (#[trigger] marked@[i] <==> spec_reach(
                nodes_view(nodes@),
                edges_view(edges@),
                i,
                target_idx as int,
            )),
{
    let ghost nv = nodes_view(nodes@);
    let ghost ev = edges_view(edges@);
    let ghost rel = step_rel(nv, ev);
    let ghost flip = (|i: int, j: int| spec_step(nv, ev, j, i));
    proof {
        vstd::std_specs::vec::axiom_spec_len(nodes);
        vstd::std_specs::vec::axiom_spec_len(edges);
        lemma_graph_bwd_adj(*g, nv, ev);
    }
    let n = nodes.len();
    let mut init: Vec<bool> = Vec::new();
    let mut i: usize = 0;
    while i < n
        invariant
            i <= n,
            init@.len() == i,
            forall|k: int| 0 <= k < i ==> (#[trigger] init@[k] <==> k == target_idx as int),
            target_idx < n,
        decreases n - i,
    {
        init.push(i == target_idx);
        i = i + 1;
    }
    let ghost init0 = init@;
    let marked = closure_scan(&g.bwd, init, Ghost(flip));
    proof {
        assert forall|i: int| 0 <= i < nv.len() implies (marked@[i] <==> spec_reach(
            nv,
            ev,
            i,
            target_idx as int,
        )) by {
            if marked@[i] {
                let s = choose|s: int|
                    0 <= s < nv.len() && init0[s] && rel_reach(flip, nv.len() as int, s, i);
                assert(s == target_idx as int);
                lemma_reach_flip(rel, flip, nv.len() as int, s, i);
            }
            if spec_reach(nv, ev, i, target_idx as int) {
                lemma_reach_flip(flip, rel, nv.len() as int, i, target_idx as int);
                assert(init0[target_idx as int]);
                assert(reach_from(flip, nv.len() as int, init0, i));
            }
        }
    }
    marked
}

/// The forward adjacency rows realize the step relation.
proof fn lemma_graph_fwd_adj(g: Graph, nodes: Seq<NodeView>, edges: Seq<EdgeView>)
    requires
        g.wf(nodes, edges),
        nodes.len() <= usize::MAX,
        edges.len() <= usize::MAX,
    ensures
        forall|i: int, q: int|
            0 <= i < nodes.len() && 0 <= q < g.fwd@[i]@.len() ==> step_rel(nodes, edges)(
                i,
                (#[trigger] g.fwd@[i]@[q]).0 as int,
            ) && (g.fwd@[i]@[q]).0 < nodes.len(),
        forall|i: int, j: int|
            0 <= i < nodes.len() && #[trigger] step_rel(nodes, edges)(i, j) ==> 0 <= j
                < nodes.len() && exists|q: int|
                0 <= q < g.fwd@[i]@.len() && ((#[trigger] g.fwd@[i]@[q]).0 as int) == j,
{
    let m = edges.len() as int;
    assert forall|i: int, q: int|
        0 <= i < nodes.len() && 0 <= q < g.fwd@[i]@.len() implies step_rel(nodes, edges)(
        i,
        (#[trigger] g.fwd@[i]@[q]).0 as int,
    ) && (g.fwd@[i]@[q]).0 < nodes.len() by {
        lemma_fwd_row_sound(nodes, edges, i, m);
        let entry = g.fwd@[i]@[q];
        assert(edge_links(nodes, edges[entry.1 as int], i, entry.0 as int));
        lemma_id_index_range(node_ids(nodes), edges[entry.1 as int].target);
        assert(spec_step(nodes, edges, i, entry.0 as int));
    }
    assert forall|i: int, j: int|
        0 <= i < nodes.len() && #[trigger] step_rel(nodes, edges)(i, j) implies 0 <= j
        < nodes.len() && exists|q: int|
        0 <= q < g.fwd@[i]@.len() && ((#[trigger] g.fwd@[i]@[q]).0 as int) == j by {
        assert(spec_step(nodes, edges, i, j));
        let k = choose|k: int| 0 <= k < edges.len() && edge_links(nodes, #[trigger] edges[k], i, j);
        lemma_id_index_range(node_ids(nodes), edges[k].target);
        assert(0 <= j < nodes.len());
        lemma_fwd_row_complete(nodes, edges, i, m, k);
        let row = fwd_row(nodes, edges, i, m);
        let idx = choose|idx: int| 0 <= idx < row.len() && row[idx] == (j as usize, k as usize);
        assert((g.fwd@[i]@[idx]).0 as int == j);
    }
}

/// The backward adjacency rows realize the flipped step relation.
proof fn lemma_graph_bwd_adj(g: Graph, nodes: Seq<NodeView>, edges: Seq<EdgeView>)
    requires
        g.wf(nodes, edges),
        nodes.len() <= usize::MAX,
        edges.len() <= usize::MAX,
    ensures
        forall|i: int, q: int|
            0 <= i < nodes.len() && 0 <= q < g.bwd@[i]@.len() ==> spec_step(
                nodes,
                edges,
                (#[trigger] g.bwd@[i]@[q]).0 as int,
                i,
            ) && (g.bwd@[i]@[q]).0 < nodes.len(),
        forall|i: int, j: int|
            0 <= i < nodes.len() && #[trigger] spec_step(nodes, edges, j, i) ==> 0 <= j
                < nodes.len() && exists|q: int|
                0 <= q < g.bwd@[i]@.len() && ((#[trigger] g.bwd@[i]@[q]).0 as int) == j,
{
    let m = edges.len() as int;
    assert forall|i: int, q: int|
        0 <= i < nodes.len() && 0 <= q < g.bwd@[i]@.len() implies spec_step(
        nodes,
        edges,
        (#[trigger] g.bwd@[i]@[q]).0 as int,
        i,
    ) && (g.bwd@[i]@[q]).0 < nodes.len() by {
        lemma_bwd_row_sound(nodes, edges, i, m);
        let entry = g.bwd@[i]@[q];
        assert(edge_links(nodes, edges[entry.1 as int], entry.0 as int, i));
        lemma_id_index_range(node_ids(nodes), edges[entry.1 as int].source);
        assert(spec_step(nodes, edges, entry.0 as int, i));
    }
    assert forall|i: int, j: int|
        0 <= i < nodes.len() && #[trigger] spec_step(nodes, edges, j, i) implies 0 <= j
        < nodes.len() && exists|q: int|
        0 <= q < g.bwd@[i]@.len() && ((#[trigger] g.bwd@[i]@[q]).0 as int) == j by {
        let k = choose|k: int| 0 <= k < edges.len() && edge_links(nodes, #[trigger] edges[k], j, i);
        lemma_id_index_range(node_ids(nodes), edges[k].source);
        assert(0 <= j < nodes.len());
        lemma_bwd_row_complete(nodes, edges, i, m, k);
        let row = bwd_row(nodes, edges, i, m);
        let idx = choose|idx: int| 0 <= idx < row.len() && row[idx] == (j as usize, k as usize);
        assert((g.bwd@[i]@[idx]).0 as int == j);
    }
}

/// Scan `ids` for `id`; the last occurrence wins.
fn id_index(ids: &Vec<String>, id: &str) -> (r: Option<usize>)
    ensures
        match r {
            Some(i) => spec_id_index(ids.deep_view(), id@) == Some(i as int),
            None => spec_id_index(ids.deep_view(), id@) is None,
        },
{
    let ghost idsv = ids.deep_view();
    let mut i: usize = ids.len();
    proof {
        assert(idsv.take(ids@.len() as int) =~= idsv);
    }
    while i > 0
        invariant
            i <= ids@.len(),
            idsv == ids.deep_view(),
            spec_id_index(idsv, id@) == spec_id_index(idsv.take(i as int), id@),
        decreases i,
    {
        i = i - 1;
        if str_eq(ids[i].as_str(), id) {
            proof {
                assert(idsv.take(i + 1).last() == idsv[i as int]);
            }
            return Some(i);
        }
        proof {
            assert(idsv.take(i + 1).last() == idsv[i as int]);
            assert(idsv.take(i + 1).drop_last() =~= idsv.take(i as int));
        }
    }
    None
}

} // verus!
