//! Merge analysis products back into the IR shape and enrich the display
//! configuration documents with the semantic-mapping entries that
//! downstream renderers consume.

use vstd::prelude::*;
use crate::NdEffect;
use crate::analysis::AnalysisResult;
use crate::json::{JsonVal, JsonValue, arr_view, lemma_obj_lookup_exists, lemma_obj_lookup_first, obj_lookup, pairs_view};
use crate::model::{
    AnnotatedEdge, AnnotatedHydroIr, AnnotatedNode, Edge, HydroIr, Node, NodeView, nodes_view,
    opt_json_view,
};
use crate::semantics::{get_node_semantics, spec_node_semantics};
use crate::strutil::str_eq;

verus! {

broadcast use vstd::seq::group_seq_axioms, vstd::std_specs::vec::group_vec_axioms;

/// The nondeterminism display tag of a node: a root cause gets
/// `NonDetRoot`, a node tainted by propagation alone `NonDetInherited`.
pub open spec fn spec_nd_tag(nv: NodeView, nd_effect: Seq<char>) -> Seq<char> {
    if spec_node_semantics(nv).nd != NdEffect::Deterministic {
        "NonDetRoot"@
    } else if nd_effect != "Deterministic"@ {
        "NonDetInherited"@
    } else {
        "Deterministic"@
    }
}

/// Replace the value of the first occurrence of `key`.
pub open spec fn replace_first(
    kvs: Seq<(Seq<char>, JsonVal)>,
    key: Seq<char>,
    v: JsonVal,
) -> Seq<(Seq<char>, JsonVal)>
    decreases kvs.len(),
{
    if kvs.len() == 0 {
        kvs
    } else if kvs.first().0 == key {
        seq![(key, v)] + kvs.drop_first()
    } else {
        seq![kvs.first()] + replace_first(kvs.drop_first(), key, v)
    }
}

/// Insert or replace one binding: the first occurrence is replaced, a
/// missing key is appended.
pub open spec fn obj_upsert(
    kvs: Seq<(Seq<char>, JsonVal)>,
    key: Seq<char>,
    v: JsonVal,
) -> Seq<(Seq<char>, JsonVal)> {
    if obj_lookup(kvs, key) is Some {
        replace_first(kvs, key, v)
    } else {
        kvs.push((key, v))
    }
}

/// Upsert each of `maps` in order.
pub open spec fn obj_upsert_all(
    kvs: Seq<(Seq<char>, JsonVal)>,
    maps: Seq<(Seq<char>, JsonVal)>,
) -> Seq<(Seq<char>, JsonVal)>
    decreases maps.len(),
{
    if maps.len() == 0 {
        kvs
    } else {
        obj_upsert(obj_upsert_all(kvs, maps.drop_last()), maps.last().0, maps.last().1)
    }
}

/// Merge semantic-mapping entries into a configuration document: when the
/// document is an object whose `semanticMappings` member is an object,
/// each entry is upserted there; a missing member, or one bound to a
/// non-object, is replaced by a fresh object holding exactly the entries;
/// any non-object document passes through unchanged.
pub open spec fn spec_merge_mappings(c: JsonVal, maps: Seq<(Seq<char>, JsonVal)>) -> JsonVal {
    match c {
        JsonVal::Obj(kvs) => match obj_lookup(kvs, "semanticMappings"@) {
            Some(JsonVal::Obj(mkvs)) => JsonVal::Obj(
                replace_first(kvs, "semanticMappings"@, JsonVal::Obj(obj_upsert_all(mkvs, maps))),
            ),
            _ => JsonVal::Obj(obj_upsert(kvs, "semanticMappings"@, JsonVal::Obj(maps))),
        },
        _ => c,
    }
}

/// The node semantic-mapping entries: nondeterminism styling and
/// monotonicity badges.
pub open spec fn spec_node_mapping_entries() -> Seq<(Seq<char>, JsonVal)> {
    seq![
        (
            "NondeterminismGroup"@,
            JsonVal::Obj(
                seq![
                    (
                        "NonDetRoot"@,
                        JsonVal::Obj(
                            seq![
                                ("color-token"@, JsonVal::Text("warning"@)),
                                ("border-width"@, JsonVal::Num("3"@)),
                            ],
                        ),
                    ),
                    (
                        "NonDetInherited"@,
                        JsonVal::Obj(
                            seq![
                                ("color-token"@, JsonVal::Text("warning-light"@)),
                                ("border-style"@, JsonVal::Text("dashed"@)),
                            ],
                        ),
                    ),
                    (
                        "Deterministic"@,
                        JsonVal::Obj(seq![("color-token"@, JsonVal::Text("default"@))]),
                    ),
                ],
            ),
        ),
        (
            "MonotonicityGroup"@,
            JsonVal::Obj(
                seq![
                    ("Monotone"@, JsonVal::Obj(seq![("badge"@, JsonVal::Text("\u{2713}"@))])),
                    ("NonMonotone"@, JsonVal::Obj(seq![("badge"@, JsonVal::Text("\u{26a0}"@))])),
                ],
            ),
        ),
    ]
}

/// The edge semantic-mapping entries: lattice colouring and CALM line
/// styles.
pub open spec fn spec_edge_mapping_entries() -> Seq<(Seq<char>, JsonVal)> {
    seq![
        (
            "LatticeGroup"@,
            JsonVal::Obj(
                seq![
                    ("Lattice"@, JsonVal::Obj(seq![("color-token"@, JsonVal::Text("success"@))])),
                    (
                        "NonLattice"@,
                        JsonVal::Obj(seq![("color-token"@, JsonVal::Text("danger"@))]),
                    ),
                ],
            ),
        ),
        (
            "CALMGroup"@,
            JsonVal::Obj(
                seq![
                    (
                        "CalmSafe"@,
                        JsonVal::Obj(
                            seq![
                                ("line-pattern"@, JsonVal::Text("solid"@)),
                                ("line-width"@, JsonVal::Num("2"@)),
                            ],
                        ),
                    ),
                    (
                        "CalmUnsafe"@,
                        JsonVal::Obj(
                            seq![
                                ("line-pattern"@, JsonVal::Text("dashed"@)),
                                ("line-width"@, JsonVal::Num("3"@)),
                            ],
                        ),
                    ),
                ],
            ),
        ),
    ]
}

/// The fallback node display configuration used when the input has none.
pub open spec fn spec_default_node_config() -> JsonVal {
    JsonVal::Obj(
        seq![
            ("defaultType"@, JsonVal::Text("Transform"@)),
            ("types"@, JsonVal::Arr(Seq::empty())),
            ("semanticMappings"@, JsonVal::Obj(Seq::empty())),
        ],
    )
}

/// The fallback edge display configuration used when the input has none.
pub open spec fn spec_default_edge_config() -> JsonVal {
    JsonVal::Obj(seq![("semanticMappings"@, JsonVal::Obj(Seq::empty()))])
}

/// The enhanced node display configuration of the output.
pub open spec fn spec_enhance_node_config(orig: Option<JsonVal>) -> JsonVal {
    let base = match orig {
        Some(c) => c,
        None => spec_default_node_config(),
    };
    spec_merge_mappings(base, spec_node_mapping_entries())
}

/// The enhanced edge display configuration of the output.
pub open spec fn spec_enhance_edge_config(orig: Option<JsonVal>) -> JsonVal {
    let base = match orig {
        Some(c) => c,
        None => spec_default_edge_config(),
    };
    spec_merge_mappings(base, spec_edge_mapping_entries())
}

/// A fresh JSON string value.
fn jtext(v: &str) -> (r: JsonValue)
    ensures
        r@ == JsonVal::Text(v@),
{
    JsonValue::Text(v.to_owned())
}

/// A fresh JSON number value with this lexeme.
fn jnum(v: &str) -> (r: JsonValue)
    ensures
        r@ == JsonVal::Num(v@),
{
    JsonValue::Num(v.to_owned())
}

/// A fresh one-member object.
fn obj1(k: &str, v: JsonValue) -> (r: JsonValue)
    ensures
        r@ == JsonVal::Obj(seq![(k@, v@)]),
{
    let ghost vv = v@;
    let mut kvs: Vec<(String, JsonValue)> = Vec::new();
    kvs.push((k.to_owned(), v));
    let r = JsonValue::Obj(kvs);
    assert(pairs_view(r->Obj_0@) =~= seq![(k@, vv)]);
    r
}

/// A fresh two-member object.
fn obj2(k1: &str, v1: JsonValue, k2: &str, v2: JsonValue) -> (r: JsonValue)
    ensures
        r@ == JsonVal::Obj(seq![(k1@, v1@), (k2@, v2@)]),
{
    let ghost w1 = v1@;
    let ghost w2 = v2@;
    let mut kvs: Vec<(String, JsonValue)> = Vec::new();
    kvs.push((k1.to_owned(), v1));
    kvs.push((k2.to_owned(), v2));
    let r = JsonValue::Obj(kvs);
    assert(pairs_view(r->Obj_0@) =~= seq![(k1@, w1), (k2@, w2)]);
    r
}

/// A fresh three-member object.
fn obj3(k1: &str, v1: JsonValue, k2: &str, v2: JsonValue, k3: &str, v3: JsonValue) -> (r: JsonValue)
    ensures
        r@ == JsonVal::Obj(seq![(k1@, v1@), (k2@, v2@), (k3@, v3@)]),
{
    let ghost w1 = v1@;
    let ghost w2 = v2@;
    let ghost w3 = v3@;
    let mut kvs: Vec<(String, JsonValue)> = Vec::new();
    kvs.push((k1.to_owned(), v1));
    kvs.push((k2.to_owned(), v2));
    kvs.push((k3.to_owned(), v3));
    let r = JsonValue::Obj(kvs);
    assert(pairs_view(r->Obj_0@) =~= seq![(k1@, w1), (k2@, w2), (k3@, w3)]);
    r
}

/// The node semantic-mapping entries as a fresh vector.
fn node_mapping_entries() -> (r: Vec<(String, JsonValue)>)
    ensures
        pairs_view(r@) == spec_node_mapping_entries(),
{
    let root = obj2("color-token", jtext("warning"), "border-width", jnum("3"));
    let inherited = obj2("color-token", jtext("warning-light"), "border-style", jtext("dashed"));
    let det = obj1("color-token", jtext("default"));
    let nd_group = obj3("NonDetRoot", root, "NonDetInherited", inherited, "Deterministic", det);
    let mono = obj1("badge", jtext("\u{2713}"));
    let nonmono = obj1("badge", jtext("\u{26a0}"));
    let mono_group = obj2("Monotone", mono, "NonMonotone", nonmono);
    let ghost g1 = nd_group@;
    let ghost g2 = mono_group@;
    let mut r: Vec<(String, JsonValue)> = Vec::new();
    r.push(("NondeterminismGroup".to_owned(), nd_group));
    r.push(("MonotonicityGroup".to_owned(), mono_group));
    assert(pairs_view(r@) =~= seq![("NondeterminismGroup"@, g1), ("MonotonicityGroup"@, g2)]);
    assert(pairs_view(r@) =~= spec_node_mapping_entries());
    r
}

/// The edge semantic-mapping entries as a fresh vector.
fn edge_mapping_entries() -> (r: Vec<(String, JsonValue)>)
    ensures
        pairs_view(r@) == spec_edge_mapping_entries(),
{
    let lat = obj1("color-token", jtext("success"));
    let nonlat = obj1("color-token", jtext("danger"));
    let lat_group = obj2("Lattice", lat, "NonLattice", nonlat);
    let safe = obj2("line-pattern", jtext("solid"), "line-width", jnum("2"));
    let unsafe_style = obj2("line-pattern", jtext("dashed"), "line-width", jnum("3"));
    let calm_group = obj2("CalmSafe", safe, "CalmUnsafe", unsafe_style);
    let ghost g1 = lat_group@;
    let ghost g2 = calm_group@;
    let mut r: Vec<(String, JsonValue)> = Vec::new();
    r.push(("LatticeGroup".to_owned(), lat_group));
    r.push(("CALMGroup".to_owned(), calm_group));
    assert(pairs_view(r@) =~= seq![("LatticeGroup"@, g1), ("CALMGroup"@, g2)]);
    assert(pairs_view(r@) =~= spec_edge_mapping_entries());
    r
}

/// The fallback node display configuration.
fn default_node_config() -> (r: JsonValue)
    ensures
        r@ == spec_default_node_config(),
{
    let empty_arr = JsonValue::Arr(Vec::new());
    assert(arr_view(empty_arr->Arr_0@) =~= Seq::<JsonVal>::empty());
    let empty_obj = JsonValue::Obj(Vec::new());
    assert(pairs_view(empty_obj->Obj_0@) =~= Seq::<(Seq<char>, JsonVal)>::empty());
    obj3(
        "defaultType",
        jtext("Transform"),
        "types",
        empty_arr,
        "semanticMappings",
        empty_obj,
    )
}

/// The fallback edge display configuration.
fn default_edge_config() -> (r: JsonValue)
    ensures
        r@ == spec_default_edge_config(),
{
    let empty_obj = JsonValue::Obj(Vec::new());
    assert(pairs_view(empty_obj->Obj_0@) =~= Seq::<(Seq<char>, JsonVal)>::empty());
    obj1("semanticMappings", empty_obj)
}

/// Index of the first binding of `key`, with nothing before it bound to it.
fn find_first(kvs: &Vec<(String, JsonValue)>, key: &str) -> (r: Option<usize>)
    ensures
        match r {
            Some(p) => p < kvs@.len() && (#[trigger] kvs@[p as int]).0@ == key@ && forall|q: int|
                0 <= q < p ==> (#[trigger] kvs@[q]).0@ != key@,
            None => forall|q: int| 0 <= q < kvs@.len() ==> (#[trigger] kvs@[q]).0@ != key@,
        },
{
    let n = kvs.len();
    let mut i: usize = 0;
    while i < n
        invariant
            i <= n,
            n == kvs@.len(),
            forall|q: int| 0 <= q < i ==> (#[trigger] kvs@[q]).0@ != key@,
        decreases n - i,
    {
        if str_eq(kvs[i].0.as_str(), key) {
            return Some(i);
        }
        i = i + 1;
    }
    None
}

/// At the index of the first binding of `key`, `replace_first` is an
/// update in place.
proof fn lemma_replace_first_update(
    kvs: Seq<(Seq<char>, JsonVal)>,
    key: Seq<char>,
    v: JsonVal,
    p: int,
)
    requires
        0 <= p < kvs.len(),
        kvs[p].0 == key,
        forall|q: int| 0 <= q < p ==> (#[trigger] kvs[q]).0 != key,
    ensures
        replace_first(kvs, key, v) == kvs.update(p, (key, v)),
    decreases p,
{
    if p == 0 {
        assert(kvs.first().0 == key);
        assert(replace_first(kvs, key, v) =~= kvs.update(0, (key, v)));
    } else {
        assert(kvs.first().0 != key);
        assert forall|q: int| 0 <= q < p - 1 implies (#[trigger] kvs.drop_first()[q]).0 != key by {
            assert(kvs.drop_first()[q] == kvs[q + 1]);
        }
        lemma_replace_first_update(kvs.drop_first(), key, v, p - 1);
        assert(replace_first(kvs, key, v) =~= kvs.update(p, (key, v)));
    }
}

/// Upsert each entry of `maps`, in order, into `kvs`.
fn upsert_all(kvs: Vec<(String, JsonValue)>, maps: Vec<(String, JsonValue)>) -> (r: Vec<
    (String, JsonValue),
>)
    ensures
        pairs_view(r@) == obj_upsert_all(pairs_view(kvs@), pairs_view(maps@)),
{
    let ghost kv0 = pairs_view(kvs@);
    let ghost mv = pairs_view(maps@);
    let mut cur = kvs;
    let mut maps = maps;
    let m = maps.len();
    let mut q: usize = 0;
    while q < m
        invariant
            q <= m,
            m == mv.len(),
            maps@.len() == m - q,
            forall|x: int|
                0 <= x < m - q ==> #[trigger] pairs_view(maps@)[x] == mv[x + q],
            pairs_view(cur@) == obj_upsert_all(kv0, mv.take(q as int)),
        decreases m - q,
    {
        let ghost curv = pairs_view(cur@);
        let ghost mpre = maps@;
        let (k, v) = maps.remove(0);
        let ghost kv = k@;
        let ghost vv = v@;
        proof {
            assert(pairs_view(mpre)[0] == mv[0 + q as int]);
            assert(mv[q as int] == (kv, vv));
            assert forall|x: int| 0 <= x < m - q - 1 implies #[trigger] pairs_view(maps@)[x] == mv[x
                + q + 1] by {
                assert(maps@ =~= mpre.subrange(1, mpre.len() as int));
                assert(maps@[x] == mpre[x + 1]);
                assert(pairs_view(maps@)[x] == pairs_view(mpre)[x + 1]);
                assert(pairs_view(mpre)[x + 1] == mv[(x + 1) + q as int]);
            }
        }
        let found = find_first(&cur, k.as_str());
        proof {
            match found {
                Some(p) => {
                    assert((curv[p as int]).0 == kv);
                    assert forall|q0: int| 0 <= q0 < p implies (#[trigger] curv[q0]).0 != kv by {
                        assert(curv[q0] == (cur@[q0].0@, cur@[q0].1@));
                    }
                    lemma_obj_lookup_first(curv, kv, p as int);
                    lemma_replace_first_update(curv, kv, vv, p as int);
                },
                None => {
                    lemma_obj_lookup_exists(curv, kv);
                    assert forall|q0: int| 0 <= q0 < curv.len() implies (#[trigger] curv[q0]).0
                        != kv by {
                        assert(curv[q0] == (cur@[q0].0@, cur@[q0].1@));
                    }
                    assert(obj_lookup(curv, kv) is None);
                },
            }
        }
        match found {
            Some(p) => {
                cur.set(p, (k, v));
                proof {
                    assert(pairs_view(cur@) =~= curv.update(p as int, (kv, vv)));
                    assert(pairs_view(cur@) == obj_upsert(curv, kv, vv));
                }
            },
            None => {
                cur.push((k, v));
                proof {
                    assert(pairs_view(cur@) =~= curv.push((kv, vv)));
                    assert(pairs_view(cur@) == obj_upsert(curv, kv, vv));
                }
            },
        }
        proof {
            assert(mv.take(q + 1).drop_last() =~= mv.take(q as int));
            assert(mv.take(q + 1).last() == mv[q as int]);
            assert(pairs_view(cur@) == obj_upsert_all(kv0, mv.take(q + 1)));
        }
        q = q + 1;
    }
    proof {
        assert(mv.take(m as int) =~= mv);
    }
    cur
}

/// Merge semantic-mapping entries into a configuration document, per
/// [`spec_merge_mappings`].
fn merge_mappings(config: JsonValue, maps: Vec<(String, JsonValue)>) -> (r: JsonValue)
    ensures
        r@ == spec_merge_mappings(config@, pairs_view(maps@)),
{
    let ghost mv = pairs_view(maps@);
    match config {
        JsonValue::Obj(kvs) => {
            let mut kvs = kvs;
            let ghost kv0 = pairs_view(kvs@);
            let found = find_first(&kvs, "semanticMappings");
            proof {
                match found {
                    Some(p) => {
                        assert((kv0[p as int]).0 == "semanticMappings"@);
                        assert forall|q0: int| 0 <= q0 < p implies (#[trigger] kv0[q0]).0
                            != "semanticMappings"@ by {
                            assert(kv0[q0] == (kvs@[q0].0@, kvs@[q0].1@));
                        }
                        lemma_obj_lookup_first(kv0, "semanticMappings"@, p as int);
                    },
                    None => {
                        lemma_obj_lookup_exists(kv0, "semanticMappings"@);
                        assert forall|q0: int| 0 <= q0 < kv0.len() implies (#[trigger] kv0[q0]).0
                            != "semanticMappings"@ by {
                            assert(kv0[q0] == (kvs@[q0].0@, kvs@[q0].1@));
                        }
                        assert(obj_lookup(kv0, "semanticMappings"@) is None);
                    },
                }
            }
            match found {
                Some(p) => {
                    proof {
                        assert(obj_lookup(kv0, "semanticMappings"@) == Some(kv0[p as int].1));
                    }
                    let entry = kvs.remove(p);
                    match entry.1 {
                        JsonValue::Obj(mkvs) => {
                            let ghost mk0 = pairs_view(mkvs@);
                            let merged = upsert_all(mkvs, maps);
                            kvs.insert(p, ("semanticMappings".to_owned(), JsonValue::Obj(merged)));
                            let r = JsonValue::Obj(kvs);
                            proof {
                                lemma_replace_first_update(
                                    kv0,
                                    "semanticMappings"@,
                                    JsonVal::Obj(obj_upsert_all(mk0, mv)),
                                    p as int,
                                );
                                assert(pairs_view(kvs@) =~= kv0.update(
                                    p as int,
                                    ("semanticMappings"@, JsonVal::Obj(obj_upsert_all(mk0, mv))),
                                ));
                            }
                            r
                        },
                        _ => {
                            // first binding is not an object: replace it
                            kvs.insert(p, ("semanticMappings".to_owned(), JsonValue::Obj(maps)));
                            let r = JsonValue::Obj(kvs);
                            proof {
                                lemma_replace_first_update(
                                    kv0,
                                    "semanticMappings"@,
                                    JsonVal::Obj(mv),
                                    p as int,
                                );
                                assert(pairs_view(kvs@) =~= kv0.update(
                                    p as int,
                                    ("semanticMappings"@, JsonVal::Obj(mv)),
                                ));
                            }
                            r
                        },
                    }
                },
                None => {
                    kvs.push(("semanticMappings".to_owned(), JsonValue::Obj(maps)));
                    let r = JsonValue::Obj(kvs);
                    proof {
                        assert(pairs_view(kvs@) =~= kv0.push(
                            ("semanticMappings"@, JsonVal::Obj(mv)),
                        ));
                    }
                    r
                },
            }
        },
        other => other,
    }
}

/// Enhanced node display configuration: the input one (or the fallback),
/// with the node semantic-mapping entries merged in.
pub fn create_enhanced_node_config(original: Option<JsonValue>) -> (r: JsonValue)
    ensures
        r@ == spec_enhance_node_config(opt_json_view(original)),
{
    let base = match original {
        Some(c) => c,
        None => default_node_config(),
    };
    merge_mappings(base, node_mapping_entries())
}

/// Enhanced edge display configuration: the input one (or the fallback),
/// with the edge semantic-mapping entries merged in.
pub fn create_enhanced_edge_config(original: Option<JsonValue>) -> (r: JsonValue)
    ensures
        r@ == spec_enhance_edge_config(opt_json_view(original)),
{
    let base = match original {
        Some(c) => c,
        None => default_edge_config(),
    };
    merge_mappings(base, edge_mapping_entries())
}

/// Merge analysis results into the annotated output IR. Every input field
/// is carried over unchanged; nodes and edges additionally gain their
/// analysis record and augmented semantic tags, the document gains the
/// overall verdicts and the enriched display configurations.
pub fn annotate(ir: HydroIr, results: AnalysisResult) -> (out: AnnotatedHydroIr)
    requires
        results.node_analyses@.len() == ir.nodes@.len(),
        results.edge_analyses@.len() == ir.edges@.len(),
    ensures
        out.nodes@.len() == ir.nodes@.len(),
        forall|i: int|
            0 <= i < ir.nodes@.len() ==> {
                let an = #[trigger] out.nodes@[i];
                let orig = ir.nodes@[i];
                let a = results.node_analyses@[i];
                &&& an.id == orig.id
                &&& an.node_type == orig.node_type
                &&& an.short_label == orig.short_label
                &&& an.full_label == orig.full_label
                &&& an.label == orig.label
                &&& an.data == orig.data
                &&& an.analysis == Some(a)
                &&& match an.semantic_tags {
                    Some(tags) => {
                        &&& tags@.len() == 3
                        &&& tags@[0]@ == orig.node_type@
                        &&& tags@[1]@ == spec_nd_tag(nodes_view(ir.nodes@)[i], a.nd_effect@)
                        &&& tags@[2]@ == (if a.monotone {
                            "Monotone"@
                        } else {
                            "NonMonotone"@
                        })
                    },
                    None => false,
                }
            },
        out.edges@.len() == ir.edges@.len(),
        forall|k: int|
            0 <= k < ir.edges@.len() ==> {
                let ae = #[trigger] out.edges@[k];
                let orig = ir.edges@[k];
                let a = results.edge_analyses@[k];
                let orig_tags = match orig.semantic_tags {
                    Some(v) => v@,
                    None => Seq::empty(),
                };
                &&& ae.id == orig.id
                &&& ae.source == orig.source
                &&& ae.target == orig.target
                &&& ae.edge_properties == orig.edge_properties
                &&& ae.label == orig.label
                &&& ae.analysis == Some(a)
                &&& match ae.semantic_tags {
                    Some(tags) => {
                        &&& tags@.len() == orig_tags.len() + 2
                        &&& tags@.subrange(0, orig_tags.len() as int) == orig_tags
                        &&& tags@[orig_tags.len() as int]@ == (if a.is_lattice {
                            "Lattice"@
                        } else {
                            "NonLattice"@
                        })
                        &&& tags@[orig_tags.len() as int + 1]@ == a.calm@
                    },
                    None => false,
                }
            },
        out.overall == Some(results.overall),
        out.hierarchy_choices == ir.hierarchy_choices,
        out.node_assignments == ir.node_assignments,
        out.selected_hierarchy == ir.selected_hierarchy,
        out.legend == ir.legend,
        match out.node_type_config {
            Some(c) => c@ == spec_enhance_node_config(opt_json_view(ir.node_type_config)),
            None => false,
        },
        match out.edge_style_config {
            Some(c) => c@ == spec_enhance_edge_config(opt_json_view(ir.edge_style_config)),
            None => false,
        },
{
    let ghost nv = nodes_view(ir.nodes@);
    let HydroIr {
        nodes,
        edges,
        hierarchy_choices,
        node_assignments,
        selected_hierarchy,
        edge_style_config,
        node_type_config,
        legend,
    } = ir;
    let AnalysisResult { node_analyses, edge_analyses, overall } = results;
    let ghost nodes0 = nodes@;
    let ghost edges0 = edges@;
    let ghost na0 = node_analyses@;
    let ghost ea0 = edge_analyses@;
    let n = nodes.len();
    let m = edges.len();

    let mut nodes = nodes;
    let mut node_analyses = node_analyses;
    let mut annotated_nodes: Vec<AnnotatedNode> = Vec::new();
    let mut i: usize = 0;
    while i < n
        invariant
            i <= n,
            n == nodes0.len(),
            nv == nodes_view(nodes0),
            na0.len() == n,
            nodes@ == nodes0.subrange(i as int, n as int),
            node_analyses@ == na0.subrange(i as int, n as int),
            annotated_nodes@.len() == i,
            forall|x: int|
                0 <= x < i ==> {
                    let an = #[trigger] annotated_nodes@[x];
                    let orig = nodes0[x];
                    let a = na0[x];
                    &&& an.id == orig.id
                    &&& an.node_type == orig.node_type
                    &&& an.short_label == orig.short_label
                    &&& an.full_label == orig.full_label
                    &&& an.label == orig.label
                    &&& an.data == orig.data
                    &&& an.analysis == Some(a)
                    &&& match an.semantic_tags {
                        Some(tags) => {
                            &&& tags@.len() == 3
                            &&& tags@[0]@ == orig.node_type@
                            &&& tags@[1]@ == spec_nd_tag(nv[x], a.nd_effect@)
                            &&& tags@[2]@ == (if a.monotone {
                                "Monotone"@
                            } else {
                                "NonMonotone"@
                            })
                        },
                        None => false,
                    }
                },
        decreases n - i,
    {
        let node = nodes.remove(0);
        let a = node_analyses.remove(0);
        proof {
            assert(node == nodes0[i as int]);
            assert(a == na0[i as int]);
            assert(nodes@ =~= nodes0.subrange(i + 1, n as int));
            assert(node_analyses@ =~= na0.subrange(i + 1, n as int));
            assert(nv[i as int] == nodes0[i as int]@);
        }
        let s = get_node_semantics(&node);
        let is_root = s.nd != NdEffect::Deterministic;
        let nd_tag: String = if is_root {
            "NonDetRoot".to_owned()
        } else if !str_eq(a.nd_effect.as_str(), "Deterministic") {
            "NonDetInherited".to_owned()
        } else {
            "Deterministic".to_owned()
        };
        let mono_tag: String = if a.monotone {
            "Monotone".to_owned()
        } else {
            "NonMonotone".to_owned()
        };
        let mut tags: Vec<String> = Vec::new();
        tags.push(node.node_type.clone());
        tags.push(nd_tag);
        tags.push(mono_tag);
        let Node { id, node_type, short_label, full_label, label, data } = node;
        annotated_nodes.push(
            AnnotatedNode {
                id,
                node_type,
                semantic_tags: Some(tags),
                short_label,
                full_label,
                label,
                data,
                analysis: Some(a),
            },
        );
        i = i + 1;
    }

    let mut edges = edges;
    let mut edge_analyses = edge_analyses;
    let mut annotated_edges: Vec<AnnotatedEdge> = Vec::new();
    let mut k: usize = 0;
    while k < m
        invariant
            k <= m,
            m == edges0.len(),
            ea0.len() == m,
            edges@ == edges0.subrange(k as int, m as int),
            edge_analyses@ == ea0.subrange(k as int, m as int),
            annotated_edges@.len() == k,
            forall|x: int|
                0 <= x < k ==> {
                    let ae = #[trigger] annotated_edges@[x];
                    let orig = edges0[x];
                    let a = ea0[x];
                    let orig_tags = match orig.semantic_tags {
                        Some(v) => v@,
                        None => Seq::empty(),
                    };
                    &&& ae.id == orig.id
                    &&& ae.source == orig.source
                    &&& ae.target == orig.target
                    &&& ae.edge_properties == orig.edge_properties
                    &&& ae.label == orig.label
                    &&& ae.analysis == Some(a)
                    &&& match ae.semantic_tags {
                        Some(tags) => {
                            &&& tags@.len() == orig_tags.len() + 2
                            &&& tags@.subrange(0, orig_tags.len() as int) == orig_tags
                            &&& tags@[orig_tags.len() as int]@ == (if a.is_lattice {
                                "Lattice"@
                            } else {
                                "NonLattice"@
                            })
                            &&& tags@[orig_tags.len() as int + 1]@ == a.calm@
                        },
                        None => false,
                    }
                },
        decreases m - k,
    {
        let edge = edges.remove(0);
        let a = edge_analyses.remove(0);
        proof {
            assert(edge == edges0[k as int]);
            assert(a == ea0[k as int]);
            assert(edges@ =~= edges0.subrange(k + 1, m as int));
            assert(edge_analyses@ =~= ea0.subrange(k + 1, m as int));
        }
        let ghost orig_tags = (match edges0[k as int].semantic_tags {
            Some(v) => v@,
            None => Seq::<String>::empty(),
        });
        let lat_tag: String = if a.is_lattice {
            "Lattice".to_owned()
        } else {
            "NonLattice".to_owned()
        };
        let ghost lat_tag_view = lat_tag@;
        let calm_tag: String = a.calm.clone();
        let Edge { id, source, target, edge_properties, semantic_tags, label } = edge;
        let mut tags: Vec<String> = match semantic_tags {
            Some(v) => v,
            None => Vec::new(),
        };
        proof {
            assert(tags@ =~= orig_tags);
        }
        tags.push(lat_tag);
        tags.push(calm_tag);
        let ghost tagsv = tags@;
        proof {
            assert(tagsv.len() == orig_tags.len() + 2);
            assert(tagsv.subrange(0, orig_tags.len() as int) =~= orig_tags);
            assert(tagsv[orig_tags.len() as int]@ == lat_tag_view);
            assert(tagsv[orig_tags.len() as int + 1]@ == ea0[k as int].calm@);
        }
        let ae = AnnotatedEdge {
            id,
            source,
            target,
            edge_properties,
            semantic_tags: Some(tags),
            label,
            analysis: Some(a),
        };
        annotated_edges.push(ae);
        k = k + 1;
    }

    let enhanced_node_config = create_enhanced_node_config(node_type_config);
    let enhanced_edge_config = create_enhanced_edge_config(edge_style_config);

    AnnotatedHydroIr {
        nodes: annotated_nodes,
        edges: annotated_edges,
        overall: Some(overall),
        hierarchy_choices,
        node_assignments,
        selected_hierarchy,
        edge_style_config: Some(enhanced_edge_config),
        node_type_config: Some(enhanced_node_config),
        legend,
    }
}

} // verus!
