use gml_parser::{
    Edge, ErrorKind, Field, GMLError, GMLObject, GMLValue, Graph, HasGMLAttributes, Node,
    ReadableGMLAttributes, ValueKind,
};

fn build(text: &str) -> Result<Graph, GMLError> {
    Graph::from_gml(GMLObject::from_str(text).unwrap())
}

fn kind(text: &str) -> ErrorKind {
    build(text).unwrap_err().kind
}

#[test]
fn missing_graph() {
    assert_eq!(kind("foo 1"), ErrorKind::MissingGraph);
    assert_eq!(kind(""), ErrorKind::MissingGraph);
}

#[test]
fn graph_must_be_an_object() {
    assert_eq!(
        kind("graph 1"),
        ErrorKind::TypeMismatch {
            field: Field::Graph,
            expected: ValueKind::Object,
            found: GMLValue::GMLInt(1)
        }
    );
}

#[test]
fn graph_fields_of_the_wrong_kind() {
    assert_eq!(
        kind("graph [ id \"4\" ]"),
        ErrorKind::TypeMismatch {
            field: Field::Id,
            expected: ValueKind::Integer,
            found: GMLValue::GMLString("4".into())
        }
    );
    assert_eq!(
        kind("graph [ directed \"yes\" ]"),
        ErrorKind::TypeMismatch {
            field: Field::Directed,
            expected: ValueKind::Integer,
            found: GMLValue::GMLString("yes".into())
        }
    );
    assert_eq!(
        kind("graph [ label 3 ]"),
        ErrorKind::TypeMismatch {
            field: Field::Label,
            expected: ValueKind::Text,
            found: GMLValue::GMLInt(3)
        }
    );
    assert_eq!(
        kind("graph [ node 3 ]"),
        ErrorKind::TypeMismatch {
            field: Field::Node,
            expected: ValueKind::Object,
            found: GMLValue::GMLInt(3)
        }
    );
    assert_eq!(
        kind("graph [ edge \"e\" ]"),
        ErrorKind::TypeMismatch {
            field: Field::Edge,
            expected: ValueKind::Object,
            found: GMLValue::GMLString("e".into())
        }
    );
}

#[test]
fn node_and_edge_fields_of_the_wrong_kind() {
    assert_eq!(
        kind("graph [ node [ id \"a\" ] ]"),
        ErrorKind::TypeMismatch {
            field: Field::Id,
            expected: ValueKind::Integer,
            found: GMLValue::GMLString("a".into())
        }
    );
    assert_eq!(
        kind("graph [ node [ id 1 label 2 ] ]"),
        ErrorKind::TypeMismatch {
            field: Field::Label,
            expected: ValueKind::Text,
            found: GMLValue::GMLInt(2)
        }
    );
    assert_eq!(
        kind("graph [ edge [ source [ ] target 1 ] ]"),
        ErrorKind::TypeMismatch {
            field: Field::Source,
            expected: ValueKind::Integer,
            found: GMLValue::GMLObject(Box::new(GMLObject { pairs: vec![] }))
        }
    );
    assert_eq!(
        kind("graph [ edge [ source 1 target \"2\" ] ]"),
        ErrorKind::TypeMismatch {
            field: Field::Target,
            expected: ValueKind::Integer,
            found: GMLValue::GMLString("2".into())
        }
    );
}

#[test]
fn mandatory_fields() {
    assert_eq!(kind("graph [ node [ label \"n\" ] ]"), ErrorKind::MissingField(Field::Id));
    assert_eq!(kind("graph [ edge [ target 1 ] ]"), ErrorKind::MissingField(Field::Source));
    assert_eq!(kind("graph [ edge [ source 1 ] ]"), ErrorKind::MissingField(Field::Target));
    assert_eq!(kind("graph [ edge [ ] ]"), ErrorKind::MissingField(Field::Source));
}

#[test]
fn first_error_in_order() {
    assert_eq!(
        kind("graph [ edge [ ] node [ ] id \"x\" ]"),
        ErrorKind::TypeMismatch {
            field: Field::Id,
            expected: ValueKind::Integer,
            found: GMLValue::GMLString("x".into())
        }
    );
    assert_eq!(kind("graph [ edge [ ] node [ ] ]"), ErrorKind::MissingField(Field::Id));
}

#[test]
fn directed_is_one_or_not() {
    assert_eq!(build("graph [ directed 1 ]").unwrap().directed, Some(true));
    assert_eq!(build("graph [ directed 0 ]").unwrap().directed, Some(false));
    assert_eq!(build("graph [ directed 2 ]").unwrap().directed, Some(false));
}

#[test]
fn only_the_first_graph_is_read() {
    let graph = build("graph [ id 1 ] graph [ id 2 ]").unwrap();
    assert_eq!(graph.id, Some(1));
}

#[test]
fn node_from_object() {
    let obj = GMLObject::from_str("id 5 label \"v\" weight 3").unwrap();
    let node = Node::from_gml(obj).unwrap();
    assert_eq!(node.id, 5);
    assert_eq!(node.label, Some("v".into()));
    assert_eq!(node.attributes(), &vec![("weight".to_string(), GMLValue::GMLInt(3))]);
}

#[test]
fn edge_from_object() {
    let obj = GMLObject::from_str("target 2 color \"red\" source 1").unwrap();
    let edge = Edge::from_gml(obj).unwrap();
    assert_eq!(edge.source, 1);
    assert_eq!(edge.target, 2);
    assert_eq!(edge.label, None);
    assert_eq!(edge.attributes(), &vec![("color".to_string(), GMLValue::GMLString("red".into()))]);
}

#[test]
fn residual_get_and_take() {
    let mut graph = build("graph [ node [ id 1 weight 7 color \"red\" ] author \"me\" ]").unwrap();
    assert_eq!(
        graph.get_attribute("author"),
        Some(&("author".to_string(), GMLValue::GMLString("me".into())))
    );
    assert_eq!(graph.attributes().len(), 1);
    let node = &mut graph.nodes[0];
    assert_eq!(node.get_attribute("weight"), Some(&("weight".to_string(), GMLValue::GMLInt(7))));
    assert_eq!(node.get_attribute("id"), None);
    assert_eq!(node.take_attribute("weight"), Some(("weight".to_string(), GMLValue::GMLInt(7))));
    assert_eq!(node.get_attribute("weight"), None);
    assert_eq!(node.take_attribute("weight"), None);
    assert_eq!(
        node.get_attribute("color"),
        Some(&("color".to_string(), GMLValue::GMLString("red".into())))
    );
    assert_eq!(node.id, 1);
    assert_eq!(graph.take_attribute("author").map(|p| p.0), Some("author".to_string()));
    assert!(graph.attributes().is_empty());
}

#[test]
fn take_moves_the_last_pair_into_the_gap() {
    let mut node = Node::from_gml(GMLObject::from_str("id 1 x 1 y 2 x 3").unwrap()).unwrap();
    // taking `id` moved the last pair to the front
    assert_eq!(node.get_attribute("x"), Some(&("x".to_string(), GMLValue::GMLInt(3))));
    assert_eq!(node.take_attribute("x"), Some(("x".to_string(), GMLValue::GMLInt(3))));
    assert_eq!(
        node.attributes(),
        &vec![("y".to_string(), GMLValue::GMLInt(2)), ("x".to_string(), GMLValue::GMLInt(1))]
    );
}

#[test]
fn attributes_mut_changes_only_attributes() {
    let mut edge = Edge::from_gml(GMLObject::from_str("source 1 target 2").unwrap()).unwrap();
    edge.attributes_mut().push(("w".to_string(), GMLValue::GMLInt(9)));
    assert_eq!(edge.get_attribute("w"), Some(&("w".to_string(), GMLValue::GMLInt(9))));
    assert_eq!((edge.source, edge.target), (1, 2));
}
