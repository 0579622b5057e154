//! Properties of parsing and extraction, stated over the spec functions
//! that the functions' own contracts use, and proved.
use vstd::prelude::*;

use crate::attrs::{find_first, has_key, lemma_find_first, swap_removed, take_result};
use crate::error::{Field, GMLError, ValueKind};
use crate::graph::{
    document_graph, edge_result, edges_of, graph_result, int_field, missing, mismatch,
    node_result, nodes_of, take_all, text_field,
};
use crate::syntax::{document_result, PairsView};
use crate::value::{pairs_view, value_view, Attr, GMLObject, GMLValue, ValueView};

verus! {

broadcast use vstd::seq_lib::group_to_multiset_ensures;

/// How many pairs have the key `name`.
pub open spec fn key_count(ps: Seq<Attr>, name: Seq<char>) -> nat
    decreases ps.len(),
{
    if ps.len() == 0 {
        0
    } else {
        key_count(ps.drop_last(), name) + if ps.last().0@ == name { 1nat } else { 0nat }
    }
}

proof fn lemma_key_count_update(ps: Seq<Attr>, i: int, x: Attr, name: Seq<char>)
    requires
        0 <= i < ps.len(),
    ensures
        key_count(ps.update(i, x), name) + (if ps[i].0@ == name { 1int } else { 0int })
            == key_count(ps, name) + (if x.0@ == name { 1int } else { 0int }),
    decreases ps.len(),
{
    if i == ps.len() - 1 {
        assert(ps.update(i, x).drop_last() =~= ps.drop_last());
    } else {
        assert(ps.update(i, x).drop_last() =~= ps.drop_last().update(i, x));
        lemma_key_count_update(ps.drop_last(), i, x, name);
    }
}

/// Removing the pair at `i` lowers the count of its key by one and keeps
/// the others; every pair left was there before, and no pair but the one
/// removed is lost.
proof fn lemma_swap_removed(ps: Seq<Attr>, i: int, name: Seq<char>)
    requires
        0 <= i < ps.len(),
    ensures
        key_count(swap_removed(ps, i), name) + (if ps[i].0@ == name { 1int } else { 0int })
            == key_count(ps, name),
        forall|k: int|
            0 <= k < swap_removed(ps, i).len() ==> ps.contains(#[trigger] swap_removed(ps, i)[k]),
        swap_removed(ps, i).to_multiset() == ps.to_multiset().remove(ps[i]),
{
    lemma_key_count_update(ps, i, ps.last(), name);
    let u = ps.update(i, ps.last());
    assert forall|k: int| 0 <= k < swap_removed(ps, i).len() implies ps.contains(
        #[trigger] swap_removed(ps, i)[k],
    ) by {
        if k == i {
            assert(ps[ps.len() - 1] == swap_removed(ps, i)[k]);
        } else {
            assert(ps[k] == swap_removed(ps, i)[k]);
        }
    }
    vstd::seq_lib::to_multiset_update(ps, i, ps.last());
    vstd::seq_lib::to_multiset_remove(u, u.len() - 1);
    assert(u.remove(u.len() - 1) =~= u.drop_last());
    assert(u[u.len() - 1] == ps.last());
    if i == ps.len() - 1 {
        assert(u =~= ps);
    }
}

proof fn lemma_key_count_has_key(ps: Seq<Attr>, name: Seq<char>)
    ensures
        has_key(ps, name) <==> key_count(ps, name) > 0,
    decreases ps.len(),
{
    if ps.len() > 0 {
        lemma_key_count_has_key(ps.drop_last(), name);
        if has_key(ps, name) && ps.last().0@ != name {
            let u = choose|u: int| 0 <= u < ps.len() && (#[trigger] ps[u]).0@ == name;
            assert(ps.drop_last()[u].0@ == name);
        }
        if has_key(ps.drop_last(), name) {
            let u = choose|u: int| 0 <= u < ps.len() - 1 && (#[trigger] ps.drop_last()[u]).0@ == name;
            assert(ps[u].0@ == name);
        }
        if ps.last().0@ == name {
            assert(ps[ps.len() - 1].0@ == name);
        }
    }
}

/// Whether `v` is the value of some pair with the key `name`.
pub open spec fn holds_value(ps: Seq<Attr>, name: Seq<char>, v: GMLValue) -> bool {
    exists|j: int| 0 <= j < ps.len() && (#[trigger] ps[j]).0@ == name && ps[j].1 == v
}

/// Taking a key again and again hands out one value for each pair with
/// that key, each the value of such a pair; what is left keeps every pair
/// of another key.
proof fn lemma_take_all(ps: Seq<Attr>, name: Seq<char>)
    ensures
        take_all(ps, name).0.len() == key_count(ps, name),
        forall|k: int|
            0 <= k < take_all(ps, name).0.len() ==> holds_value(
                ps,
                name,
                #[trigger] take_all(ps, name).0[k],
            ),
        forall|k: int|
            0 <= k < take_all(ps, name).1.len() ==> ps.contains(#[trigger] take_all(ps, name).1[k]),
        forall|other: Seq<char>|
            other != name ==> #[trigger] key_count(take_all(ps, name).1, other) == key_count(
                ps,
                other,
            ),
        forall|p: Attr|
            p.0@ != name ==> #[trigger] take_all(ps, name).1.to_multiset().count(p)
                == ps.to_multiset().count(p),
    decreases ps.len(),
{
    lemma_find_first(ps, name);
    match find_first(ps, name) {
        None => {
            lemma_key_count_has_key(ps, name);
        },
        Some(i) => {
            let rest = swap_removed(ps, i);
            lemma_take_all(rest, name);
            lemma_swap_removed(ps, i, name);
            let (vs, left) = take_all(rest, name);
            assert forall|other: Seq<char>| other != name implies #[trigger] key_count(left, other)
                == key_count(ps, other) by {
                lemma_swap_removed(ps, i, other);
            }
            assert forall|k: int| 0 <= k < take_all(ps, name).0.len() implies holds_value(
                ps,
                name,
                #[trigger] take_all(ps, name).0[k],
            ) by {
                if k > 0 {
                    assert(take_all(ps, name).0[k] == vs[k - 1]);
                    let j = choose|j: int|
                        0 <= j < rest.len() && (#[trigger] rest[j]).0@ == name && rest[j].1 == vs[k
                            - 1];
                    assert(rest.contains(rest[j]));
                    let j2 = choose|j2: int| 0 <= j2 < ps.len() && ps[j2] == rest[j];
                    assert(ps[j2].0@ == name);
                }
            }
            assert forall|k: int| 0 <= k < left.len() implies ps.contains(#[trigger] left[k]) by {
                assert(rest.contains(left[k]));
                let j = choose|j: int| 0 <= j < rest.len() && rest[j] == left[k];
                assert(ps.contains(rest[j]));
            }
        },
    }
}

/// The kind of a value.
pub open spec fn kind_of(v: GMLValue) -> ValueKind {
    match v {
        GMLValue::GMLString(_) => ValueKind::Text,
        GMLValue::GMLInt(_) => ValueKind::Integer,
        GMLValue::GMLObject(_) => ValueKind::Object,
    }
}

/// Whether every pair with the key of `f` holds a value of `kind`.
pub open spec fn field_is(ps: Seq<Attr>, f: Field, kind: ValueKind) -> bool {
    forall|j: int| 0 <= j < ps.len() && (#[trigger] ps[j]).0@ == f.key() ==> kind_of(ps[j].1) == kind
}

/// A well-typed node body: it has an integer id, and a label, if any, is text.
pub open spec fn node_well_typed(ps: Seq<Attr>) -> bool {
    &&& has_key(ps, Field::Id.key())
    &&& field_is(ps, Field::Id, ValueKind::Integer)
    &&& field_is(ps, Field::Label, ValueKind::Text)
}

/// A well-typed edge body: integer source and target, and a label, if any,
/// of text.
pub open spec fn edge_well_typed(ps: Seq<Attr>) -> bool {
    &&& has_key(ps, Field::Source.key())
    &&& has_key(ps, Field::Target.key())
    &&& field_is(ps, Field::Source, ValueKind::Integer)
    &&& field_is(ps, Field::Target, ValueKind::Integer)
    &&& field_is(ps, Field::Label, ValueKind::Text)
}

/// A pair of a well-typed graph body.
pub open spec fn graph_pair_well_typed(p: Attr) -> bool {
    &&& (p.0@ == Field::Id.key() || p.0@ == Field::Directed.key()) ==> p.1 is GMLInt
    &&& p.0@ == Field::Label.key() ==> p.1 is GMLString
    &&& p.0@ == Field::Node.key() ==> (p.1 matches GMLValue::GMLObject(n) && node_well_typed(n.pairs@))
    &&& p.0@ == Field::Edge.key() ==> (p.1 matches GMLValue::GMLObject(e) && edge_well_typed(e.pairs@))
}

/// A well-typed graph body: every field of the graph and of its nodes and
/// edges holds a value of its kind, and nodes and edges have their
/// mandatory fields.
pub open spec fn graph_well_typed(ps: Seq<Attr>) -> bool {
    forall|j: int| 0 <= j < ps.len() ==> graph_pair_well_typed(#[trigger] ps[j])
}

/// A document that holds one `graph` block and nothing else.
pub open spec fn single_graph(root: GMLObject) -> bool {
    &&& root.pairs@.len() == 1
    &&& root.pairs@[0].0@ == Field::Graph.key()
    &&& root.pairs@[0].1 is GMLObject
}

/// The body of the `graph` block of a document that holds one.
pub open spec fn graph_body(root: GMLObject) -> Seq<Attr> {
    match root.pairs@[0].1 {
        GMLValue::GMLObject(o) => o.pairs@,
        _ => Seq::empty(),
    }
}

proof fn lemma_field_keys_distinct()
    ensures
        Field::Id.key() != Field::Label.key(),
        Field::Id.key() != Field::Directed.key(),
        Field::Directed.key() != Field::Label.key(),
        Field::Source.key() != Field::Target.key(),
        Field::Source.key() != Field::Label.key(),
        Field::Target.key() != Field::Label.key(),
        Field::Node.key() != Field::Edge.key(),
        Field::Node.key() != Field::Id.key(),
        Field::Node.key() != Field::Directed.key(),
        Field::Node.key() != Field::Label.key(),
        Field::Edge.key() != Field::Id.key(),
        Field::Edge.key() != Field::Directed.key(),
        Field::Edge.key() != Field::Label.key(),
{
    reveal_strlit("id");
    reveal_strlit("label");
    reveal_strlit("directed");
    reveal_strlit("source");
    reveal_strlit("target");
    reveal_strlit("node");
    reveal_strlit("edge");
    assert(Field::Node.key()[0] != Field::Edge.key()[0]);
    assert(Field::Id.key().len() != Field::Label.key().len());
    assert(Field::Source.key()[0] != Field::Target.key()[0]);
}

/// Taking a key takes one pair of that key, if any: every pair left was
/// there, and every other key keeps its pairs.
proof fn lemma_take_result(ps: Seq<Attr>, name: Seq<char>)
    ensures
        forall|k: int|
            0 <= k < take_result(ps, name).0.len() ==> ps.contains(
                #[trigger] take_result(ps, name).0[k],
            ),
        forall|other: Seq<char>|
            other != name ==> #[trigger] key_count(take_result(ps, name).0, other) == key_count(
                ps,
                other,
            ),
        forall|p: Attr|
            p.0@ != name ==> #[trigger] take_result(ps, name).0.to_multiset().count(p)
                == ps.to_multiset().count(p),
        take_result(ps, name).1 matches Some(p) ==> p.0@ == name && ps.contains(p)
            && take_result(ps, name).0.to_multiset() == ps.to_multiset().remove(p),
        take_result(ps, name).1 is None <==> !has_key(ps, name),
        take_result(ps, name).1 is None ==> take_result(ps, name).0 == ps,
{
    lemma_find_first(ps, name);
    if let Some(i) = find_first(ps, name) {
        lemma_swap_removed(ps, i, name);
        assert forall|other: Seq<char>| other != name implies #[trigger] key_count(
            take_result(ps, name).0,
            other,
        ) == key_count(ps, other) by {
            lemma_swap_removed(ps, i, other);
        }
        assert(ps.contains(ps[i]));
    }
}

proof fn lemma_field_is_sub(ps: Seq<Attr>, rest: Seq<Attr>, f: Field, kind: ValueKind)
    requires
        field_is(ps, f, kind),
        forall|k: int| 0 <= k < rest.len() ==> ps.contains(#[trigger] rest[k]),
    ensures
        field_is(rest, f, kind),
{
    assert forall|j: int| 0 <= j < rest.len() && (#[trigger] rest[j]).0@ == f.key() implies kind_of(
        rest[j].1,
    ) == kind by {
        assert(ps.contains(rest[j]));
    }
}

proof fn lemma_graph_well_typed_sub(ps: Seq<Attr>, rest: Seq<Attr>)
    requires
        graph_well_typed(ps),
        forall|k: int| 0 <= k < rest.len() ==> ps.contains(#[trigger] rest[k]),
    ensures
        graph_well_typed(rest),
{
    assert forall|j: int| 0 <= j < rest.len() implies graph_pair_well_typed(#[trigger] rest[j]) by {
        assert(ps.contains(rest[j]));
    }
}

/// A well-typed node body gives a node.
proof fn lemma_node_builds(o: GMLObject)
    requires
        node_well_typed(o.pairs@),
    ensures
        node_result(o) is Ok,
{
    let ps = o.pairs@;
    lemma_take_result(ps, Field::Id.key());
    let (ps1, t) = take_result(ps, Field::Id.key());
    let p = t->Some_0;
    assert(ps.contains(p));
    lemma_field_is_sub(ps, ps1, Field::Label, ValueKind::Text);
    lemma_take_result(ps1, Field::Label.key());
    if let Some(q) = take_result(ps1, Field::Label.key()).1 {
        assert(ps1.contains(q));
    }
}

/// A well-typed edge body gives an edge.
proof fn lemma_edge_builds(o: GMLObject)
    requires
        edge_well_typed(o.pairs@),
    ensures
        edge_result(o) is Ok,
{
    lemma_field_keys_distinct();
    let ps = o.pairs@;
    lemma_take_result(ps, Field::Source.key());
    let (ps1, t) = take_result(ps, Field::Source.key());
    assert(ps.contains(t->Some_0));
    lemma_key_count_has_key(ps, Field::Target.key());
    lemma_key_count_has_key(ps1, Field::Target.key());
    assert(key_count(ps1, Field::Target.key()) == key_count(ps, Field::Target.key()));
    lemma_field_is_sub(ps, ps1, Field::Target, ValueKind::Integer);
    lemma_field_is_sub(ps, ps1, Field::Label, ValueKind::Text);
    lemma_take_result(ps1, Field::Target.key());
    let (ps2, t2) = take_result(ps1, Field::Target.key());
    assert(ps1.contains(t2->Some_0));
    lemma_field_is_sub(ps1, ps2, Field::Label, ValueKind::Text);
    lemma_take_result(ps2, Field::Label.key());
    if let Some(q) = take_result(ps2, Field::Label.key()).1 {
        assert(ps2.contains(q));
    }
}

proof fn lemma_nodes_of_ok(vs: Seq<GMLValue>)
    requires
        forall|k: int| 0 <= k < vs.len() ==> crate::graph::node_of(#[trigger] vs[k]) is Ok,
    ensures
        nodes_of(vs) matches Ok(ns) && ns.len() == vs.len(),
    decreases vs.len(),
{
    if vs.len() > 0 {
        let d = vs.drop_last();
        assert forall|k: int| 0 <= k < d.len() implies crate::graph::node_of(#[trigger] d[k]) is Ok by {
            assert(d[k] == vs[k]);
        }
        lemma_nodes_of_ok(d);
        assert(crate::graph::node_of(vs[vs.len() - 1]) is Ok);
    }
}

proof fn lemma_edges_of_ok(vs: Seq<GMLValue>)
    requires
        forall|k: int| 0 <= k < vs.len() ==> crate::graph::edge_of(#[trigger] vs[k]) is Ok,
    ensures
        edges_of(vs) matches Ok(es) && es.len() == vs.len(),
    decreases vs.len(),
{
    if vs.len() > 0 {
        let d = vs.drop_last();
        assert forall|k: int| 0 <= k < d.len() implies crate::graph::edge_of(#[trigger] d[k]) is Ok by {
            assert(d[k] == vs[k]);
        }
        lemma_edges_of_ok(d);
        assert(crate::graph::edge_of(vs[vs.len() - 1]) is Ok);
    }
}

/// Taking an optional field of a well-typed graph body succeeds and leaves
/// a well-typed body with the same `node` and `edge` pairs.
proof fn lemma_graph_field(ps: Seq<Attr>, f: Field)
    requires
        graph_well_typed(ps),
        f == Field::Id || f == Field::Directed || f == Field::Label,
    ensures
        graph_well_typed(take_result(ps, f.key()).0),
        key_count(take_result(ps, f.key()).0, Field::Node.key()) == key_count(ps, Field::Node.key()),
        key_count(take_result(ps, f.key()).0, Field::Edge.key()) == key_count(ps, Field::Edge.key()),
        f != Field::Label ==> int_field(ps, f) is Ok,
        f == Field::Label ==> text_field(ps, f) is Ok,
{
    lemma_field_keys_distinct();
    lemma_take_result(ps, f.key());
    lemma_graph_well_typed_sub(ps, take_result(ps, f.key()).0);
    if let Some(p) = take_result(ps, f.key()).1 {
        let j = choose|j: int| 0 <= j < ps.len() && ps[j] == p;
        assert(graph_pair_well_typed(ps[j]));
    }
}

/// A document that holds one well-typed `graph` block gives a graph, with
/// one node for each `node` pair of the block and one edge for each `edge`
/// pair.
pub proof fn lemma_single_graph_builds(root: GMLObject)
    requires
        single_graph(root),
        graph_well_typed(graph_body(root)),
    ensures
        document_graph(root) matches Ok(g) && g.nodes.len() == key_count(
            graph_body(root),
            Field::Node.key(),
        ) && g.edges.len() == key_count(graph_body(root), Field::Edge.key()),
{
    lemma_field_keys_distinct();
    let o = match root.pairs@[0].1 {
        GMLValue::GMLObject(o) => *o,
        _ => root,
    };
    assert(find_first(root.pairs@, Field::Graph.key()) == Some(0int));
    let ps = o.pairs@;
    lemma_graph_field(ps, Field::Id);
    let ps1 = take_result(ps, Field::Id.key()).0;
    lemma_graph_field(ps1, Field::Directed);
    let ps2 = take_result(ps1, Field::Directed.key()).0;
    lemma_graph_field(ps2, Field::Label);
    let ps3 = take_result(ps2, Field::Label.key()).0;
    lemma_take_all(ps3, Field::Node.key());
    let (nvs, ps4) = take_all(ps3, Field::Node.key());
    assert forall|k: int| 0 <= k < nvs.len() implies crate::graph::node_of(#[trigger] nvs[k]) is Ok by {
        assert(holds_value(ps3, Field::Node.key(), nvs[k]));
        let j = choose|j: int|
            0 <= j < ps3.len() && (#[trigger] ps3[j]).0@ == Field::Node.key() && ps3[j].1 == nvs[k];
        assert(graph_pair_well_typed(ps3[j]));
        if let GMLValue::GMLObject(n) = nvs[k] {
            lemma_node_builds(*n);
        }
    }
    lemma_nodes_of_ok(nvs);
    lemma_graph_well_typed_sub(ps3, ps4);
    lemma_take_all(ps4, Field::Edge.key());
    let (evs, rest) = take_all(ps4, Field::Edge.key());
    assert forall|k: int| 0 <= k < evs.len() implies crate::graph::edge_of(#[trigger] evs[k]) is Ok by {
        assert(holds_value(ps4, Field::Edge.key(), evs[k]));
        let j = choose|j: int|
            0 <= j < ps4.len() && (#[trigger] ps4[j]).0@ == Field::Edge.key() && ps4[j].1 == evs[k];
        assert(graph_pair_well_typed(ps4[j]));
        if let GMLValue::GMLObject(e) = evs[k] {
            lemma_edge_builds(*e);
        }
    }
    lemma_edges_of_ok(evs);
}

/// An optional integer field whose first pair holds a value of another
/// kind is a type mismatch that names the field and the value.
pub proof fn lemma_mistyped_int_field(ps: Seq<Attr>, f: Field)
    requires
        find_first(ps, f.key()) matches Some(i) && !(ps[i].1 is GMLInt),
    ensures
        int_field(ps, f) == Err::<(Seq<Attr>, Option<i64>), GMLError>(
            mismatch(f, ValueKind::Integer, ps[find_first(ps, f.key())->Some_0].1),
        ),
{
}

/// An optional text field whose first pair holds a value of another kind
/// is a type mismatch that names the field and the value.
pub proof fn lemma_mistyped_text_field(ps: Seq<Attr>, f: Field)
    requires
        find_first(ps, f.key()) matches Some(i) && !(ps[i].1 is GMLString),
    ensures
        text_field(ps, f) == Err::<(Seq<Attr>, Option<String>), GMLError>(
            mismatch(f, ValueKind::Text, ps[find_first(ps, f.key())->Some_0].1),
        ),
{
}

/// A node whose `id` is not an integer fails with a type mismatch on `id`.
pub proof fn lemma_mistyped_node_id(o: GMLObject)
    requires
        find_first(o.pairs@, Field::Id.key()) matches Some(i) && !(o.pairs@[i].1 is GMLInt),
    ensures
        node_result(o) == Err::<crate::graph::NodeView, GMLError>(
            mismatch(
                Field::Id,
                ValueKind::Integer,
                o.pairs@[find_first(o.pairs@, Field::Id.key())->Some_0].1,
            ),
        ),
{
}

/// A node with an integer `id` and only non-text labels fails with a type
/// mismatch on `label`.
pub proof fn lemma_mistyped_node_label(o: GMLObject)
    requires
        field_is(o.pairs@, Field::Id, ValueKind::Integer),
        has_key(o.pairs@, Field::Id.key()),
        has_key(o.pairs@, Field::Label.key()),
        forall|j: int|
            0 <= j < o.pairs@.len() && (#[trigger] o.pairs@[j]).0@ == Field::Label.key() ==> !(
            o.pairs@[j].1 is GMLString),
    ensures
        node_result(o) matches Err(e) && e.kind matches crate::error::ErrorKind::TypeMismatch {
            field: Field::Label,
            expected: ValueKind::Text,
            ..
        },
{
    lemma_field_keys_distinct();
    let ps = o.pairs@;
    lemma_take_result(ps, Field::Id.key());
    let (ps1, t) = take_result(ps, Field::Id.key());
    assert(ps.contains(t->Some_0));
    lemma_key_count_has_key(ps, Field::Label.key());
    lemma_key_count_has_key(ps1, Field::Label.key());
    lemma_take_result(ps1, Field::Label.key());
    let q = take_result(ps1, Field::Label.key()).1->Some_0;
    assert(ps1.contains(q));
}

/// An edge whose `source` is not an integer fails with a type mismatch on
/// `source`.
pub proof fn lemma_mistyped_edge_source(o: GMLObject)
    requires
        find_first(o.pairs@, Field::Source.key()) matches Some(i) && !(o.pairs@[i].1 is GMLInt),
    ensures
        edge_result(o) == Err::<crate::graph::EdgeView, GMLError>(
            mismatch(
                Field::Source,
                ValueKind::Integer,
                o.pairs@[find_first(o.pairs@, Field::Source.key())->Some_0].1,
            ),
        ),
{
}

/// An edge with an integer `source` and only non-integer targets fails
/// with a type mismatch on `target`.
pub proof fn lemma_mistyped_edge_target(o: GMLObject)
    requires
        field_is(o.pairs@, Field::Source, ValueKind::Integer),
        has_key(o.pairs@, Field::Source.key()),
        has_key(o.pairs@, Field::Target.key()),
        forall|j: int|
            0 <= j < o.pairs@.len() && (#[trigger] o.pairs@[j]).0@ == Field::Target.key() ==> !(
            o.pairs@[j].1 is GMLInt),
    ensures
        edge_result(o) matches Err(e) && e.kind matches crate::error::ErrorKind::TypeMismatch {
            field: Field::Target,
            expected: ValueKind::Integer,
            ..
        },
{
    lemma_field_keys_distinct();
    let ps = o.pairs@;
    lemma_take_result(ps, Field::Source.key());
    let (ps1, t) = take_result(ps, Field::Source.key());
    assert(ps.contains(t->Some_0));
    lemma_key_count_has_key(ps, Field::Target.key());
    lemma_key_count_has_key(ps1, Field::Target.key());
    lemma_take_result(ps1, Field::Target.key());
    let q = take_result(ps1, Field::Target.key()).1->Some_0;
    assert(ps1.contains(q));
}

/// A graph whose `id` is not an integer fails with a type mismatch on `id`.
pub proof fn lemma_mistyped_graph_id(o: GMLObject)
    requires
        find_first(o.pairs@, Field::Id.key()) matches Some(i) && !(o.pairs@[i].1 is GMLInt),
    ensures
        graph_result(o) == Err::<crate::graph::GraphView, GMLError>(
            mismatch(
                Field::Id,
                ValueKind::Integer,
                o.pairs@[find_first(o.pairs@, Field::Id.key())->Some_0].1,
            ),
        ),
{
}

/// A node without `id` fails with `MissingField(Id)`, never with a default.
pub proof fn lemma_node_without_id(o: GMLObject)
    requires
        !has_key(o.pairs@, Field::Id.key()),
    ensures
        node_result(o) == Err::<crate::graph::NodeView, GMLError>(missing(Field::Id)),
{
    lemma_find_first(o.pairs@, Field::Id.key());
}

/// An edge without `source` fails with `MissingField(Source)`.
pub proof fn lemma_edge_without_source(o: GMLObject)
    requires
        !has_key(o.pairs@, Field::Source.key()),
    ensures
        edge_result(o) == Err::<crate::graph::EdgeView, GMLError>(missing(Field::Source)),
{
    lemma_find_first(o.pairs@, Field::Source.key());
}

/// An edge with an integer `source` and without `target` fails with
/// `MissingField(Target)`.
pub proof fn lemma_edge_without_target(o: GMLObject)
    requires
        has_key(o.pairs@, Field::Source.key()),
        field_is(o.pairs@, Field::Source, ValueKind::Integer),
        !has_key(o.pairs@, Field::Target.key()),
    ensures
        edge_result(o) == Err::<crate::graph::EdgeView, GMLError>(missing(Field::Target)),
{
    let ps = o.pairs@;
    lemma_take_result(ps, Field::Source.key());
    let (ps1, t) = take_result(ps, Field::Source.key());
    assert(ps.contains(t->Some_0));
    lemma_take_result(ps1, Field::Target.key());
    if take_result(ps1, Field::Target.key()).1 is Some {
        let q = take_result(ps1, Field::Target.key()).1->Some_0;
        let j = choose|j: int| 0 <= j < ps.len() && ps[j] == q;
        assert(ps[j].0@ == Field::Target.key());
    }
}

/// A node keeps, as its attributes, every pair of its object whose key is
/// neither `id` nor `label`, as many times as the object has it.
pub proof fn lemma_node_keeps_residual(o: GMLObject, p: Attr)
    requires
        node_result(o) is Ok,
        p.0@ != Field::Id.key(),
        p.0@ != Field::Label.key(),
    ensures
        node_result(o)->Ok_0.attrs.to_multiset().count(p) == o.pairs@.to_multiset().count(p),
{
    let ps = o.pairs@;
    lemma_take_result(ps, Field::Id.key());
    lemma_take_result(take_result(ps, Field::Id.key()).0, Field::Label.key());
}

/// An edge keeps, as its attributes, every pair of its object whose key is
/// not `source`, `target` or `label`, as many times as the object has it.
pub proof fn lemma_edge_keeps_residual(o: GMLObject, p: Attr)
    requires
        edge_result(o) is Ok,
        p.0@ != Field::Source.key(),
        p.0@ != Field::Target.key(),
        p.0@ != Field::Label.key(),
    ensures
        edge_result(o)->Ok_0.attrs.to_multiset().count(p) == o.pairs@.to_multiset().count(p),
{
    let ps = o.pairs@;
    lemma_take_result(ps, Field::Source.key());
    let ps1 = take_result(ps, Field::Source.key()).0;
    lemma_take_result(ps1, Field::Target.key());
    lemma_take_result(take_result(ps1, Field::Target.key()).0, Field::Label.key());
}

/// A graph keeps, as its attributes, every pair of its body whose key is
/// not `id`, `directed`, `label`, `node` or `edge`, as many times as the
/// body has it.
pub proof fn lemma_graph_keeps_residual(o: GMLObject, p: Attr)
    requires
        graph_result(o) is Ok,
        p.0@ != Field::Id.key(),
        p.0@ != Field::Directed.key(),
        p.0@ != Field::Label.key(),
        p.0@ != Field::Node.key(),
        p.0@ != Field::Edge.key(),
    ensures
        graph_result(o)->Ok_0.attrs.to_multiset().count(p) == o.pairs@.to_multiset().count(p),
{
    let ps = o.pairs@;
    lemma_take_result(ps, Field::Id.key());
    let ps1 = take_result(ps, Field::Id.key()).0;
    lemma_take_result(ps1, Field::Directed.key());
    let ps2 = take_result(ps1, Field::Directed.key()).0;
    lemma_take_result(ps2, Field::Label.key());
    let ps3 = take_result(ps2, Field::Label.key()).0;
    lemma_take_all(ps3, Field::Node.key());
    let ps4 = take_all(ps3, Field::Node.key()).1;
    lemma_take_all(ps4, Field::Edge.key());
}

/// Taking an attribute hands out the pair that looking it up shows, and
/// removes that pair and nothing else; where no pair has the key, nothing
/// changes.
pub proof fn lemma_take_removes_only_found(ps: Seq<Attr>, name: Seq<char>)
    ensures
        match find_first(ps, name) {
            Some(i) => take_result(ps, name).1 == Some(ps[i]) && take_result(ps, name).0.to_multiset()
                == ps.to_multiset().remove(ps[i]),
            None => take_result(ps, name) == (ps, None::<Attr>),
        },
{
    lemma_take_result(ps, name);
}

proof fn lemma_pairs_view_index(ps: Seq<Attr>)
    ensures
        pairs_view(ps).len() == ps.len(),
        forall|k: int|
            0 <= k < ps.len() ==> #[trigger] pairs_view(ps)[k] == (ps[k].0@, value_view(ps[k].1)),
    decreases ps.len(),
{
    if ps.len() > 0 {
        lemma_pairs_view_index(ps.drop_last());
    }
}

/// How many parsed pairs have the key `name`.
pub open spec fn view_key_count(vs: PairsView, name: Seq<char>) -> nat
    decreases vs.len(),
{
    if vs.len() == 0 {
        0
    } else {
        view_key_count(vs.drop_last(), name) + if vs.last().0 == name { 1nat } else { 0nat }
    }
}

proof fn lemma_view_key_count(ps: Seq<Attr>, name: Seq<char>)
    ensures
        view_key_count(pairs_view(ps), name) == key_count(ps, name),
    decreases ps.len(),
{
    if ps.len() > 0 {
        lemma_view_key_count(ps.drop_last(), name);
        assert(pairs_view(ps).drop_last() =~= pairs_view(ps.drop_last()));
    }
}

/// The kind of a parsed value.
pub open spec fn view_kind(v: ValueView) -> ValueKind {
    match v {
        ValueView::Text(_) => ValueKind::Text,
        ValueView::Int(_) => ValueKind::Integer,
        ValueView::Object(_) => ValueKind::Object,
    }
}

/// Whether some parsed pair has the key `name`.
pub open spec fn view_has_key(vs: PairsView, name: Seq<char>) -> bool {
    exists|u: int| 0 <= u < vs.len() && (#[trigger] vs[u]).0 == name
}

/// Whether every parsed pair with the key of `f` holds a value of `kind`.
pub open spec fn view_field_is(vs: PairsView, f: Field, kind: ValueKind) -> bool {
    forall|j: int| 0 <= j < vs.len() && (#[trigger] vs[j]).0 == f.key() ==> view_kind(vs[j].1) == kind
}

/// A well-typed parsed node body.
pub open spec fn node_text_well_typed(vs: PairsView) -> bool {
    &&& view_has_key(vs, Field::Id.key())
    &&& view_field_is(vs, Field::Id, ValueKind::Integer)
    &&& view_field_is(vs, Field::Label, ValueKind::Text)
}

/// A well-typed parsed edge body.
pub open spec fn edge_text_well_typed(vs: PairsView) -> bool {
    &&& view_has_key(vs, Field::Source.key())
    &&& view_has_key(vs, Field::Target.key())
    &&& view_field_is(vs, Field::Source, ValueKind::Integer)
    &&& view_field_is(vs, Field::Target, ValueKind::Integer)
    &&& view_field_is(vs, Field::Label, ValueKind::Text)
}

/// A pair of a well-typed parsed graph body.
pub open spec fn graph_text_pair_well_typed(p: (Seq<char>, ValueView)) -> bool {
    &&& (p.0 == Field::Id.key() || p.0 == Field::Directed.key()) ==> p.1 is Int
    &&& p.0 == Field::Label.key() ==> p.1 is Text
    &&& p.0 == Field::Node.key() ==> (p.1 matches ValueView::Object(n) && node_text_well_typed(n))
    &&& p.0 == Field::Edge.key() ==> (p.1 matches ValueView::Object(e) && edge_text_well_typed(e))
}

/// A text that parses into one `graph` block and nothing else, whose
/// fields, and those of its nodes and edges, are well typed.
pub open spec fn single_well_typed_graph_text(text: Seq<char>) -> bool {
    match document_result(text) {
        Ok(ps) => ps.len() == 1 && ps[0].0 == Field::Graph.key() && match ps[0].1 {
            ValueView::Object(body) => forall|j: int|
                0 <= j < body.len() ==> graph_text_pair_well_typed(#[trigger] body[j]),
            _ => false,
        },
        Err(_) => false,
    }
}

/// The body of the `graph` block that a text parses into.
pub open spec fn graph_text_body(text: Seq<char>) -> PairsView {
    match document_result(text) {
        Ok(ps) => match ps[0].1 {
            ValueView::Object(body) => body,
            _ => Seq::empty(),
        },
        Err(_) => Seq::empty(),
    }
}

proof fn lemma_kind_of_view(v: GMLValue)
    ensures
        view_kind(value_view(v)) == kind_of(v),
        value_view(v) matches ValueView::Object(vs) ==> v matches GMLValue::GMLObject(o)
            && pairs_view(o.pairs@) == vs,
{
}

proof fn lemma_field_keys_from_view(ps: Seq<Attr>)
    ensures
        forall|name: Seq<char>|
            #[trigger] has_key(ps, name) <==> view_has_key(pairs_view(ps), name),
        forall|f: Field, kind: ValueKind|
            #[trigger] view_field_is(pairs_view(ps), f, kind) ==> field_is(ps, f, kind),
{
    lemma_pairs_view_index(ps);
    let vs = pairs_view(ps);
    assert forall|name: Seq<char>| #[trigger] has_key(ps, name) <==> view_has_key(vs, name) by {
        if has_key(ps, name) {
            let u = choose|u: int| 0 <= u < ps.len() && (#[trigger] ps[u]).0@ == name;
            assert(vs[u].0 == name);
        }
        if view_has_key(vs, name) {
            let u = choose|u: int| 0 <= u < vs.len() && (#[trigger] vs[u]).0 == name;
            assert(ps[u].0@ == name);
        }
    }
    assert forall|f: Field, kind: ValueKind| #[trigger] view_field_is(vs, f, kind) implies field_is(
        ps,
        f,
        kind,
    ) by {
        assert forall|j: int| 0 <= j < ps.len() && (#[trigger] ps[j]).0@ == f.key() implies kind_of(
            ps[j].1,
        ) == kind by {
            assert(vs[j].0 == f.key());
            lemma_kind_of_view(ps[j].1);
        }
    }
}

/// A text that parses into one well-typed `graph` block gives a graph, with
/// one node for each `node` pair of the block and one edge for each `edge`
/// pair, whatever root object parsing it returned.
pub proof fn lemma_parsed_graph_builds(text: Seq<char>, root: GMLObject)
    requires
        single_well_typed_graph_text(text),
        document_result(text) == Ok::<PairsView, crate::error::ErrorKind>(pairs_view(root.pairs@)),
    ensures
        document_graph(root) matches Ok(g) && g.nodes.len() == view_key_count(
            graph_text_body(text),
            Field::Node.key(),
        ) && g.edges.len() == view_key_count(graph_text_body(text), Field::Edge.key()),
{
    lemma_pairs_view_index(root.pairs@);
    let top = root.pairs@[0];
    lemma_kind_of_view(top.1);
    let o = match top.1 {
        GMLValue::GMLObject(o) => *o,
        _ => root,
    };
    let ps = o.pairs@;
    lemma_pairs_view_index(ps);
    lemma_view_key_count(ps, Field::Node.key());
    lemma_view_key_count(ps, Field::Edge.key());
    assert forall|j: int| 0 <= j < ps.len() implies graph_pair_well_typed(#[trigger] ps[j]) by {
        let p = ps[j];
        assert(graph_text_pair_well_typed(pairs_view(ps)[j]));
        lemma_kind_of_view(p.1);
        if let GMLValue::GMLObject(n) = p.1 {
            lemma_field_keys_from_view(n.pairs@);
        }
    }
    lemma_single_graph_builds(root);
}

} // verus!
