use gml_parser::{ErrorKind, Field, GMLObject, GMLValue, Graph, ValueKind};

const EMPTY: &str = "graph [\n]\n";

const SINGLE: &str = "graph [\n    k \"test\"\n]\n";

const SIMPLE: &str = r#"
graph [
   id 4
   node [
       id 0
   ]
   node [
       id 1
   ]
   edge [
       source 1
       target 0
       label "Edge"
   ]
]"#;

const WIKIPEDIA: &str = r#"graph [
	comment "This is a sample graph"
	directed 1
	id 42
	label "Hello, I am a graph"
	node [
		id 1
		label "node 1"
		thisIsASampleAttribute 42
	]
	node [
		id 2
		label "node 2"
		thisIsASampleAttribute 43
	]
	node [
		id 3
		label "node 3"
		thisIsASampleAttribute 44
	]
	edge [
		source 1
		target 2
		label "Edge from node 1 to node 2"
	]
	edge [
		source 2
		target 3
		label "Edge from node 2 to node 3"
	]
	edge [
		source 3
		target 1
		label "Edge from node 3 to node 1"
	]
]
"#;

const SYNOPTIC: &str = r#"graph [
  directed 1
  node [
    id 0
    label "a"
  ]
  node [
    id 1
    label "b"
  ]
  node [
    id 2
    label "c"
  ]
  node [
    id 3
    label "d"
  ]
  node [
    id 4
    label "TERMINAL"
  ]
  node [
    id 5
    label "e"
  ]
  node [
    id 6
    label "INITIAL"
  ]
  edge [
    source 0
    target 1
    label "P: 0.50"
  ]
  edge [
    source 0
    target 2
    label "P: 0.50"
  ]
  edge [
    source 1
    target 3
    label "P: 1.00"
  ]
  edge [
    source 2
    target 3
    label "P: 1.00"
  ]
  edge [
    source 3
    target 5
    label "P: 0.50"
  ]
  edge [
    source 3
    target 4
    label "P: 0.50"
  ]
  edge [
    source 5
    target 4
    label "P: 1.00"
  ]
  edge [
    source 6
    target 0
    label "P: 1.00"
  ]
]
"#;

#[test]
fn parse_empty() {
    let root = GMLObject::from_str(EMPTY).unwrap();
    assert!(Graph::from_gml(root).is_ok());
}

#[test]
fn parse_single() {
    let root = GMLObject::from_str(SINGLE).unwrap();
    let expected = GMLObject {
        pairs: vec![(
            "graph".into(),
            GMLValue::GMLObject(Box::new(GMLObject {
                pairs: vec![("k".into(), GMLValue::GMLString("test".into()))],
            })),
        )],
    };
    assert_eq!(root, expected);
    assert!(Graph::from_gml(root).is_ok());
}

#[test]
fn parse_simple() {
    let root = GMLObject::from_str(SIMPLE).unwrap();
    assert!(Graph::from_gml(root).is_ok());
}

#[test]
fn parse_wikipedia() {
    let root = GMLObject::from_str(WIKIPEDIA).unwrap();
    let graph = Graph::from_gml(root).unwrap();
    assert_eq!(graph.id, Some(42));
    assert_eq!(graph.directed, Some(true));
    assert_eq!(graph.label, Some("Hello, I am a graph".into()));
    assert_eq!(graph.nodes.len(), 3);
    assert_eq!(graph.edges.len(), 3);
}

#[test]
fn parse_synoptic() {
    let root = GMLObject::from_str(SYNOPTIC).unwrap();
    let graph = Graph::from_gml(root).unwrap();
    assert_eq!(graph.nodes.len(), 7);
    assert_eq!(graph.nodes[0].id, 0);
    assert_eq!(graph.nodes[0].label, Some("a".into()));
    assert_eq!(graph.nodes[6].id, 6);
    assert_eq!(graph.nodes[6].label, Some("INITIAL".into()));
    assert_eq!(graph.edges.len(), 8);
    assert_eq!(graph.edges[0].label, Some("P: 1.00".into()));
    assert_eq!(graph.edges[0].source, 6);
    assert_eq!(graph.edges[0].target, 0);
}

#[test]
fn empty_graph_has_no_fields() {
    let graph = Graph::from_gml(GMLObject::from_str("graph [ ]").unwrap()).unwrap();
    assert_eq!(graph.id, None);
    assert_eq!(graph.directed, None);
    assert_eq!(graph.label, None);
    assert!(graph.nodes.is_empty());
    assert!(graph.edges.is_empty());
    assert!(graph.attrs.is_empty());
}

#[test]
fn single_field_stays_on_graph() {
    let graph = Graph::from_gml(GMLObject::from_str(SINGLE).unwrap()).unwrap();
    assert_eq!(graph.attrs, vec![("k".to_string(), GMLValue::GMLString("test".into()))]);
}

#[test]
fn simple_document_in_full() {
    let graph = Graph::from_gml(GMLObject::from_str(SIMPLE).unwrap()).unwrap();
    assert_eq!(graph.id, Some(4));
    assert_eq!(graph.nodes.len(), 2);
    assert_eq!(graph.nodes[0].id, 0);
    assert_eq!(graph.nodes[1].id, 1);
    assert_eq!(graph.edges.len(), 1);
    assert_eq!(graph.edges[0].source, 1);
    assert_eq!(graph.edges[0].target, 0);
    assert_eq!(graph.edges[0].label, Some("Edge".into()));
}

#[test]
fn counts_follow_the_blocks() {
    let text = "graph [ node [ id 1 ] edge [ source 1 target 1 ] node [ id 2 ] \
                edge [ source 2 target 1 ] node [ id 3 ] ]";
    let graph = Graph::from_gml(GMLObject::from_str(text).unwrap()).unwrap();
    assert_eq!(graph.nodes.len(), 3);
    assert_eq!(graph.edges.len(), 2);
    let mut ids: Vec<i64> = graph.nodes.iter().map(|n| n.id).collect();
    ids.sort();
    assert_eq!(ids, vec![1, 2, 3]);
}

#[test]
fn wikipedia_keeps_comment_and_node_extras() {
    let graph = Graph::from_gml(GMLObject::from_str(WIKIPEDIA).unwrap()).unwrap();
    assert_eq!(
        graph.attrs,
        vec![("comment".to_string(), GMLValue::GMLString("This is a sample graph".into()))]
    );
    assert_eq!(graph.nodes[0].id, 1);
    assert_eq!(graph.nodes[0].label, Some("node 1".into()));
    assert_eq!(
        graph.nodes[0].attrs,
        vec![("thisIsASampleAttribute".to_string(), GMLValue::GMLInt(42))]
    );
}

#[test]
fn field_keys() {
    assert_eq!(Field::Graph.as_str(), "graph");
    assert_eq!(Field::Id.as_str(), "id");
    assert_eq!(Field::Directed.as_str(), "directed");
    assert_eq!(Field::Label.as_str(), "label");
    assert_eq!(Field::Node.as_str(), "node");
    assert_eq!(Field::Edge.as_str(), "edge");
    assert_eq!(Field::Source.as_str(), "source");
    assert_eq!(Field::Target.as_str(), "target");
    let _ = ValueKind::Object;
    let _ = ErrorKind::MissingGraph;
}
