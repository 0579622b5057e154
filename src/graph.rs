//! The typed graph model and its extraction from an attribute tree.
use vstd::prelude::*;

use crate::attrs::{
    find_first, int_get_attribute, int_take_attribute, lemma_find_first, swap_removed,
    take_result, HasGMLAttributes, ReadableGMLAttributes,
};
use crate::error::{ErrorKind, Field, GMLError, ValueKind};
use crate::value::{Attr, GMLObject, GMLValue};

verus! {

/// A graph: its own fields, its nodes and edges, and the attributes that
/// the extraction left over.
#[derive(Debug)]
pub struct Graph {
    pub directed: Option<bool>,
    pub id: Option<i64>,
    pub label: Option<String>,
    pub nodes: Vec<Node>,
    pub edges: Vec<Edge>,
    pub attrs: Vec<Attr>,
}

/// A node: its id, its label, and the attributes left over.
#[derive(Debug)]
pub struct Node {
    pub id: i64,
    pub label: Option<String>,
    pub attrs: Vec<Attr>,
}

/// An edge: its two ends, its label, and the attributes left over.
#[derive(Debug)]
pub struct Edge {
    pub source: i64,
    pub target: i64,
    pub label: Option<String>,
    pub attrs: Vec<Attr>,
}

/// What a node is: its fields and its attributes.
pub ghost struct NodeView {
    pub id: i64,
    pub label: Option<String>,
    pub attrs: Seq<Attr>,
}

/// What an edge is: its fields and its attributes.
pub ghost struct EdgeView {
    pub source: i64,
    pub target: i64,
    pub label: Option<String>,
    pub attrs: Seq<Attr>,
}

/// What a graph is: its fields, its nodes and edges in order, and its
/// attributes.
pub ghost struct GraphView {
    pub directed: Option<bool>,
    pub id: Option<i64>,
    pub label: Option<String>,
    pub nodes: Seq<NodeView>,
    pub edges: Seq<EdgeView>,
    pub attrs: Seq<Attr>,
}

impl View for Node {
    type V = NodeView;

    open spec fn view(&self) -> NodeView {
        NodeView { id: self.id, label: self.label, attrs: self.attrs@ }
    }
}

impl View for Edge {
    type V = EdgeView;

    open spec fn view(&self) -> EdgeView {
        EdgeView { source: self.source, target: self.target, label: self.label, attrs: self.attrs@ }
    }
}

impl View for Graph {
    type V = GraphView;

    open spec fn view(&self) -> GraphView {
        GraphView {
            directed: self.directed,
            id: self.id,
            label: self.label,
            nodes: self.nodes@.map_values(|n: Node| n@),
            edges: self.edges@.map_values(|e: Edge| e@),
            attrs: self.attrs@,
        }
    }
}

/// The error of a field that holds a value of another kind.
pub open spec fn mismatch(field: Field, expected: ValueKind, found: GMLValue) -> GMLError {
    GMLError { kind: ErrorKind::TypeMismatch { field, expected, found } }
}

/// The error of a mandatory field that is absent.
pub open spec fn missing(field: Field) -> GMLError {
    GMLError { kind: ErrorKind::MissingField(field) }
}

/// Taking the optional integer field `f`: the pairs left and the field.
pub open spec fn int_field(ps: Seq<Attr>, f: Field) -> Result<(Seq<Attr>, Option<i64>), GMLError> {
    let (rest, t) = take_result(ps, f.key());
    match t {
        None => Ok((rest, None)),
        Some((_, GMLValue::GMLInt(n))) => Ok((rest, Some(n))),
        Some((_, v)) => Err(mismatch(f, ValueKind::Integer, v)),
    }
}

/// Taking the optional text field `f`: the pairs left and the field.
pub open spec fn text_field(ps: Seq<Attr>, f: Field) -> Result<(Seq<Attr>, Option<String>), GMLError> {
    let (rest, t) = take_result(ps, f.key());
    match t {
        None => Ok((rest, None)),
        Some((_, GMLValue::GMLString(s))) => Ok((rest, Some(s))),
        Some((_, v)) => Err(mismatch(f, ValueKind::Text, v)),
    }
}

/// Taking the mandatory integer field `f`: the pairs left and the field.
pub open spec fn required_int(ps: Seq<Attr>, f: Field) -> Result<(Seq<Attr>, i64), GMLError> {
    match int_field(ps, f) {
        Err(e) => Err(e),
        Ok((_, None)) => Err(missing(f)),
        Ok((rest, Some(n))) => Ok((rest, n)),
    }
}

/// The node that an object describes.
pub open spec fn node_result(o: GMLObject) -> Result<NodeView, GMLError> {
    match required_int(o.pairs@, Field::Id) {
        Err(e) => Err(e),
        Ok((ps, id)) => match text_field(ps, Field::Label) {
            Err(e) => Err(e),
            Ok((rest, label)) => Ok(NodeView { id, label, attrs: rest }),
        },
    }
}

/// The edge that an object describes.
pub open spec fn edge_result(o: GMLObject) -> Result<EdgeView, GMLError> {
    match required_int(o.pairs@, Field::Source) {
        Err(e) => Err(e),
        Ok((ps1, source)) => match required_int(ps1, Field::Target) {
            Err(e) => Err(e),
            Ok((ps2, target)) => match text_field(ps2, Field::Label) {
                Err(e) => Err(e),
                Ok((rest, label)) => Ok(EdgeView { source, target, label, attrs: rest }),
            },
        },
    }
}

/// The values that taking the key `name` again and again hands out, in
/// order, and the pairs left at the end.
pub open spec fn take_all(ps: Seq<Attr>, name: Seq<char>) -> (Seq<GMLValue>, Seq<Attr>)
    decreases ps.len(),
    via take_all_decreases
{
    match find_first(ps, name) {
        Some(i) => {
            let (vs, rest) = take_all(swap_removed(ps, i), name);
            (seq![ps[i].1] + vs, rest)
        },
        None => (Seq::empty(), ps),
    }
}

#[via_fn]
proof fn take_all_decreases(ps: Seq<Attr>, name: Seq<char>) {
    lemma_find_first(ps, name);
}

/// The node that a `node` value describes.
pub open spec fn node_of(v: GMLValue) -> Result<NodeView, GMLError> {
    match v {
        GMLValue::GMLObject(o) => node_result(*o),
        _ => Err(mismatch(Field::Node, ValueKind::Object, v)),
    }
}

/// The edge that an `edge` value describes.
pub open spec fn edge_of(v: GMLValue) -> Result<EdgeView, GMLError> {
    match v {
        GMLValue::GMLObject(o) => edge_result(*o),
        _ => Err(mismatch(Field::Edge, ValueKind::Object, v)),
    }
}

/// The nodes of `node` values in order, or the error of the first that
/// fails.
pub open spec fn nodes_of(vs: Seq<GMLValue>) -> Result<Seq<NodeView>, GMLError>
    decreases vs.len(),
{
    if vs.len() == 0 {
        Ok(Seq::empty())
    } else {
        match nodes_of(vs.drop_last()) {
            Err(e) => Err(e),
            Ok(ns) => match node_of(vs.last()) {
                Err(e) => Err(e),
                Ok(n) => Ok(ns.push(n)),
            },
        }
    }
}

/// The edges of `edge` values in order, or the error of the first that
/// fails.
pub open spec fn edges_of(vs: Seq<GMLValue>) -> Result<Seq<EdgeView>, GMLError>
    decreases vs.len(),
{
    if vs.len() == 0 {
        Ok(Seq::empty())
    } else {
        match edges_of(vs.drop_last()) {
            Err(e) => Err(e),
            Ok(es) => match edge_of(vs.last()) {
                Err(e) => Err(e),
                Ok(x) => Ok(es.push(x)),
            },
        }
    }
}

/// Taking the graph's own fields out of its body: `id`, `directed` (an
/// integer, true where it is 1), `label`, and the pairs left.
pub open spec fn graph_fields(ps: Seq<Attr>) -> Result<
    (Option<i64>, Option<bool>, Option<String>, Seq<Attr>),
    GMLError,
> {
    match int_field(ps, Field::Id) {
        Err(e) => Err(e),
        Ok((ps1, id)) => match int_field(ps1, Field::Directed) {
            Err(e) => Err(e),
            Ok((ps2, directed)) => match text_field(ps2, Field::Label) {
                Err(e) => Err(e),
                Ok((ps3, label)) => Ok(
                    (
                        id,
                        match directed {
                            Some(d) => Some(d == 1),
                            None => None,
                        },
                        label,
                        ps3,
                    ),
                ),
            },
        },
    }
}

/// The graph that the body of a `graph` object describes: its own fields,
/// then every `node`, then every `edge`, in the order in which taking them
/// hands them out.
pub open spec fn graph_result(o: GMLObject) -> Result<GraphView, GMLError> {
    match graph_fields(o.pairs@) {
        Err(e) => Err(e),
        Ok((id, directed, label, ps3)) => {
            let (nvs, ps4) = take_all(ps3, Field::Node.key());
            match nodes_of(nvs) {
                Err(e) => Err(e),
                Ok(nodes) => {
                    let (evs, rest) = take_all(ps4, Field::Edge.key());
                    match edges_of(evs) {
                        Err(e) => Err(e),
                        Ok(edges) => Ok(
                            GraphView { directed, id, label, nodes, edges, attrs: rest },
                        ),
                    }
                },
            }
        },
    }
}

/// The graph that a root object describes: its first `graph` attribute.
pub open spec fn document_graph(root: GMLObject) -> Result<GraphView, GMLError> {
    match take_result(root.pairs@, Field::Graph.key()).1 {
        None => Err(GMLError { kind: ErrorKind::MissingGraph }),
        Some((_, GMLValue::GMLObject(o))) => graph_result(*o),
        Some((_, v)) => Err(mismatch(Field::Graph, ValueKind::Object, v)),
    }
}

/// Takes the optional integer field `f` out of `ps`.
fn take_int_field(ps: &mut Vec<Attr>, f: Field) -> (r: Result<Option<i64>, GMLError>)
    ensures
        match int_field(old(ps)@, f) {
            Ok((rest, x)) => r == Ok::<Option<i64>, GMLError>(x) && final(ps)@ == rest,
            Err(e) => r == Err::<Option<i64>, GMLError>(e),
        },
{
    match int_take_attribute(ps, f.as_str()) {
        None => Ok(None),
        Some((_, GMLValue::GMLInt(n))) => Ok(Some(n)),
        Some((_, v)) => Err(
            GMLError {
                kind: ErrorKind::TypeMismatch { field: f, expected: ValueKind::Integer, found: v },
            },
        ),
    }
}

/// Takes the optional text field `f` out of `ps`.
fn take_text_field(ps: &mut Vec<Attr>, f: Field) -> (r: Result<Option<String>, GMLError>)
    ensures
        match text_field(old(ps)@, f) {
            Ok((rest, x)) => r == Ok::<Option<String>, GMLError>(x) && final(ps)@ == rest,
            Err(e) => r == Err::<Option<String>, GMLError>(e),
        },
{
    match int_take_attribute(ps, f.as_str()) {
        None => Ok(None),
        Some((_, GMLValue::GMLString(s))) => Ok(Some(s)),
        Some((_, v)) => Err(
            GMLError {
                kind: ErrorKind::TypeMismatch { field: f, expected: ValueKind::Text, found: v },
            },
        ),
    }
}

/// Takes the mandatory integer field `f` out of `ps`.
fn take_required_int(ps: &mut Vec<Attr>, f: Field) -> (r: Result<i64, GMLError>)
    ensures
        match required_int(old(ps)@, f) {
            Ok((rest, x)) => r == Ok::<i64, GMLError>(x) && final(ps)@ == rest,
            Err(e) => r == Err::<i64, GMLError>(e),
        },
{
    match take_int_field(ps, f) {
        Err(e) => Err(e),
        Ok(None) => Err(GMLError { kind: ErrorKind::MissingField(f) }),
        Ok(Some(n)) => Ok(n),
    }
}

impl Node {
    /// Builds a node from the object of a `node` attribute.
    pub fn from_gml(obj: GMLObject) -> (r: Result<Node, GMLError>)
        ensures
            match node_result(obj) {
                Ok(n) => r matches Ok(x) && x@ == n,
                Err(e) => r == Err::<Node, GMLError>(e),
            },
    {
        let mut pairs = obj.pairs;
        let id = match take_required_int(&mut pairs, Field::Id) {
            Ok(id) => id,
            Err(e) => return Err(e),
        };
        let label = match take_text_field(&mut pairs, Field::Label) {
            Ok(label) => label,
            Err(e) => return Err(e),
        };
        Ok(Node { id, label, attrs: pairs })
    }
}

impl Edge {
    /// Builds an edge from the object of an `edge` attribute.
    pub fn from_gml(obj: GMLObject) -> (r: Result<Edge, GMLError>)
        ensures
            match edge_result(obj) {
                Ok(x) => r matches Ok(y) && y@ == x,
                Err(e) => r == Err::<Edge, GMLError>(e),
            },
    {
        let mut pairs = obj.pairs;
        let source = match take_required_int(&mut pairs, Field::Source) {
            Ok(n) => n,
            Err(e) => return Err(e),
        };
        let target = match take_required_int(&mut pairs, Field::Target) {
            Ok(n) => n,
            Err(e) => return Err(e),
        };
        let label = match take_text_field(&mut pairs, Field::Label) {
            Ok(label) => label,
            Err(e) => return Err(e),
        };
        Ok(Edge { source, target, label, attrs: pairs })
    }
}

/// Once a prefix of `node` values fails, more values change nothing.
proof fn lemma_nodes_of_failed_prefix(a: Seq<GMLValue>, b: Seq<GMLValue>)
    requires
        nodes_of(a) is Err,
    ensures
        nodes_of(a + b) == nodes_of(a),
    decreases b.len(),
{
    if b.len() > 0 {
        assert((a + b).drop_last() =~= a + b.drop_last());
        lemma_nodes_of_failed_prefix(a, b.drop_last());
    } else {
        assert(a + b =~= a);
    }
}

/// Once a prefix of `edge` values fails, more values change nothing.
proof fn lemma_edges_of_failed_prefix(a: Seq<GMLValue>, b: Seq<GMLValue>)
    requires
        edges_of(a) is Err,
    ensures
        edges_of(a + b) == edges_of(a),
    decreases b.len(),
{
    if b.len() > 0 {
        assert((a + b).drop_last() =~= a + b.drop_last());
        lemma_edges_of_failed_prefix(a, b.drop_last());
    } else {
        assert(a + b =~= a);
    }
}

/// Taking a key that some pair has hands out that pair's value first.
proof fn lemma_take_all_step(ps: Seq<Attr>, name: Seq<char>, i: int)
    requires
        find_first(ps, name) == Some(i),
    ensures
        0 <= i < ps.len(),
        swap_removed(ps, i).len() == ps.len() - 1,
        take_all(ps, name) == (seq![ps[i].1] + take_all(swap_removed(ps, i), name).0, take_all(
            swap_removed(ps, i),
            name,
        ).1),
{
    lemma_find_first(ps, name);
}

impl Graph {
    /// Builds a graph from the body of a `graph` attribute.
    fn int_from_gml(obj: GMLObject) -> (r: Result<Graph, GMLError>)
        ensures
            match graph_result(obj) {
                Ok(g) => r matches Ok(x) && x@ == g,
                Err(e) => r == Err::<Graph, GMLError>(e),
            },
    {
        let mut pairs = obj.pairs;
        let id = match take_int_field(&mut pairs, Field::Id) {
            Ok(id) => id,
            Err(e) => return Err(e),
        };
        let directed = match take_int_field(&mut pairs, Field::Directed) {
            Ok(Some(d)) => Some(d == 1),
            Ok(None) => None,
            Err(e) => return Err(e),
        };
        let label = match take_text_field(&mut pairs, Field::Label) {
            Ok(label) => label,
            Err(e) => return Err(e),
        };
        let ghost node_key = Field::Node.key();
        let ghost edge_key = Field::Edge.key();
        let ghost before_nodes = pairs@;
        let ghost mut taken: Seq<GMLValue> = Seq::empty();
        let mut nodes: Vec<Node> = Vec::new();
        assert(nodes@.map_values(|x: Node| x@) =~= Seq::<NodeView>::empty());
        loop
            invariant
                node_key == Field::Node.key(),
                edge_key == Field::Edge.key(),
                take_all(before_nodes, node_key) == (taken + take_all(pairs@, node_key).0, take_all(
                    pairs@,
                    node_key,
                ).1),
                nodes_of(taken) == Ok::<Seq<NodeView>, GMLError>(
                    nodes@.map_values(|n: Node| n@),
                ),
                graph_fields(obj.pairs@) == Ok::<_, GMLError>((id, directed, label, before_nodes)),
            ensures
                take_all(before_nodes, node_key) == (taken, pairs@),
            decreases pairs@.len(),
        {
            let ghost prev = pairs@;
            let name = Field::Node.as_str();
            let next = int_take_attribute(&mut pairs, name);
            assert(name@ == node_key);
            match next {
                None => {
                    assert(taken + Seq::empty() =~= taken);
                    break ;
                },
                Some((_, v)) => {
                    proof {
                        let i = find_first(prev, node_key)->Some_0;
                        lemma_take_all_step(prev, node_key, i);
                        assert(taken + (seq![v] + take_all(pairs@, node_key).0) =~= taken.push(v)
                            + take_all(pairs@, node_key).0);
                        assert(taken.push(v).drop_last() =~= taken);
                    }
                    let ghost all_nodes = take_all(pairs@, node_key).0;
                    let built = match v {
                        GMLValue::GMLObject(b) => Node::from_gml(*b),
                        _ => Err(
                            GMLError {
                                kind: ErrorKind::TypeMismatch {
                                    field: Field::Node,
                                    expected: ValueKind::Object,
                                    found: v,
                                },
                            },
                        ),
                    };
                    proof {
                        taken = taken.push(v);
                    }
                    match built {
                        Ok(n) => {
                            proof {
                                assert(nodes@.push(n).map_values(|n: Node| n@) =~= nodes@.map_values(
                                    |n: Node| n@,
                                ).push(n@));
                            }
                            nodes.push(n);
                        },
                        Err(e) => {
                            proof {
                                lemma_nodes_of_failed_prefix(taken, all_nodes);
                            }
                            return Err(e);
                        },
                    }
                },
            }
        }
        let ghost before_edges = pairs@;
        let ghost mut taken_edges: Seq<GMLValue> = Seq::empty();
        let mut edges: Vec<Edge> = Vec::new();
        assert(edges@.map_values(|x: Edge| x@) =~= Seq::<EdgeView>::empty());
        loop
            invariant
                node_key == Field::Node.key(),
                edge_key == Field::Edge.key(),
                take_all(before_nodes, node_key) == (taken, before_edges),
                nodes_of(taken) == Ok::<Seq<NodeView>, GMLError>(
                    nodes@.map_values(|n: Node| n@),
                ),
                take_all(before_edges, edge_key) == (taken_edges + take_all(pairs@, edge_key).0,
                take_all(pairs@, edge_key).1),
                edges_of(taken_edges) == Ok::<Seq<EdgeView>, GMLError>(
                    edges@.map_values(|e: Edge| e@),
                ),
                graph_fields(obj.pairs@) == Ok::<_, GMLError>((id, directed, label, before_nodes)),
            ensures
                take_all(before_edges, edge_key) == (taken_edges, pairs@),
            decreases pairs@.len(),
        {
            let ghost prev = pairs@;
            let name = Field::Edge.as_str();
            let next = int_take_attribute(&mut pairs, name);
            assert(name@ == edge_key);
            match next {
                None => {
                    assert(taken_edges + Seq::empty() =~= taken_edges);
                    break ;
                },
                Some((_, v)) => {
                    proof {
                        let i = find_first(prev, edge_key)->Some_0;
                        lemma_take_all_step(prev, edge_key, i);
                        assert(taken_edges + (seq![v] + take_all(pairs@, edge_key).0)
                            =~= taken_edges.push(v) + take_all(pairs@, edge_key).0);
                        assert(taken_edges.push(v).drop_last() =~= taken_edges);
                    }
                    let ghost all_edges = take_all(pairs@, edge_key).0;
                    let built = match v {
                        GMLValue::GMLObject(b) => Edge::from_gml(*b),
                        _ => Err(
                            GMLError {
                                kind: ErrorKind::TypeMismatch {
                                    field: Field::Edge,
                                    expected: ValueKind::Object,
                                    found: v,
                                },
                            },
                        ),
                    };
                    proof {
                        taken_edges = taken_edges.push(v);
                    }
                    match built {
                        Ok(x) => {
                            proof {
                                assert(edges@.push(x).map_values(|e: Edge| e@) =~= edges@.map_values(
                                    |e: Edge| e@,
                                ).push(x@));
                            }
                            edges.push(x);
                        },
                        Err(e) => {
                            proof {
                                lemma_edges_of_failed_prefix(taken_edges, all_edges);
                            }
                            return Err(e);
                        },
                    }
                },
            }
        }
        Ok(Graph { directed, id, label, nodes, edges, attrs: pairs })
    }

    /// Builds a graph from a root object: the body of its first `graph`
    /// attribute.
    pub fn from_gml(obj: GMLObject) -> (r: Result<Graph, GMLError>)
        ensures
            match document_graph(obj) {
                Ok(g) => r matches Ok(x) && x@ == g,
                Err(e) => r == Err::<Graph, GMLError>(e),
            },
    {
        let mut pairs = obj.pairs;
        match int_take_attribute(&mut pairs, Field::Graph.as_str()) {
            None => Err(GMLError { kind: ErrorKind::MissingGraph }),
            Some((_, GMLValue::GMLObject(o))) => Self::int_from_gml(*o),
            Some((_, v)) => Err(
                GMLError {
                    kind: ErrorKind::TypeMismatch {
                        field: Field::Graph,
                        expected: ValueKind::Object,
                        found: v,
                    },
                },
            ),
        }
    }
}

impl HasGMLAttributes for Node {
    open spec fn attr_list(&self) -> Seq<Attr> {
        self.attrs@
    }

    open spec fn same_fields(&self, other: &Self) -> bool {
        self.id == other.id && self.label == other.label
    }

    fn attributes(&self) -> (r: &Vec<Attr>) {
        &self.attrs
    }

    fn attributes_mut(&mut self) -> (r: &mut Vec<Attr>) {
        &mut self.attrs
    }
}

impl<'a> ReadableGMLAttributes<'a> for Node {
    fn take_attribute(&mut self, name: &str) -> (r: Option<Attr>) {
        int_take_attribute(&mut self.attrs, name)
    }

    fn get_attribute(&'a self, name: &str) -> (r: Option<&'a Attr>) {
        int_get_attribute(&self.attrs, name)
    }
}

impl HasGMLAttributes for Edge {
    open spec fn attr_list(&self) -> Seq<Attr> {
        self.attrs@
    }

    open spec fn same_fields(&self, other: &Self) -> bool {
        self.source == other.source && self.target == other.target && self.label == other.label
    }

    fn attributes(&self) -> (r: &Vec<Attr>) {
        &self.attrs
    }

    fn attributes_mut(&mut self) -> (r: &mut Vec<Attr>) {
        &mut self.attrs
    }
}

impl<'a> ReadableGMLAttributes<'a> for Edge {
    fn take_attribute(&mut self, name: &str) -> (r: Option<Attr>) {
        int_take_attribute(&mut self.attrs, name)
    }

    fn get_attribute(&'a self, name: &str) -> (r: Option<&'a Attr>) {
        int_get_attribute(&self.attrs, name)
    }
}

impl HasGMLAttributes for Graph {
    open spec fn attr_list(&self) -> Seq<Attr> {
        self.attrs@
    }

    open spec fn same_fields(&self, other: &Self) -> bool {
        self.directed == other.directed && self.id == other.id && self.label == other.label
            && self.nodes@ == other.nodes@ && self.edges@ == other.edges@
    }

    fn attributes(&self) -> (r: &Vec<Attr>) {
        &self.attrs
    }

    fn attributes_mut(&mut self) -> (r: &mut Vec<Attr>) {
        &mut self.attrs
    }
}

impl<'a> ReadableGMLAttributes<'a> for Graph {
    fn take_attribute(&mut self, name: &str) -> (r: Option<Attr>) {
        int_take_attribute(&mut self.attrs, name)
    }

    fn get_attribute(&'a self, name: &str) -> (r: Option<&'a Attr>) {
        int_get_attribute(&self.attrs, name)
    }
}

} // verus!
