//! The write boundary: a document whose edges point at ids that do not
//! exist, or whose ids repeat, is reported with every fault it has.

use extboard_core::{validate, Canvas, Edge, End, Node, NodeKind, Side, ValidationError};
use serde_json::Map as JsonMap;

// Builds library values from JSON Canvas text, the way the fixtures of the
// original suite were written.
fn json_str(v: &serde_json::Value, key: &str) -> Option<String> {
    v.get(key).and_then(|x| x.as_str()).map(|s| s.to_string())
}

fn side_of(v: &serde_json::Value, key: &str) -> Option<Side> {
    json_str(v, key).map(|s| match s.as_str() {
        "top" => Side::Top,
        "right" => Side::Right,
        "bottom" => Side::Bottom,
        "left" => Side::Left,
        other => panic!("unknown variant `{other}`"),
    })
}

fn end_of(v: &serde_json::Value, key: &str) -> Option<End> {
    json_str(v, key).map(|s| match s.as_str() {
        "none" => End::Plain,
        "arrow" => End::Arrow,
        other => panic!("unknown variant `{other}`"),
    })
}

fn rest_of(v: &serde_json::Value, known: &[&str]) -> JsonMap<String, serde_json::Value> {
    let mut rest = v.as_object().unwrap().clone();
    for k in known {
        rest.remove(*k);
    }
    rest
}

fn node_from(v: &serde_json::Value) -> Node {
    let (kind, own): (NodeKind, &[&str]) = match v["type"].as_str().unwrap() {
        "text" => (NodeKind::Text { text: json_str(v, "text").unwrap() }, &["text"]),
        "file" => (
            NodeKind::File { file: json_str(v, "file").unwrap(), subpath: json_str(v, "subpath") },
            &["file", "subpath"],
        ),
        "link" => (NodeKind::Link { url: json_str(v, "url").unwrap() }, &["url"]),
        "group" => (NodeKind::Group { label: json_str(v, "label") }, &["label"]),
        other => panic!("unknown node type {other}"),
    };
    let mut known = vec!["id", "x", "y", "width", "height", "color", "type"];
    known.extend_from_slice(own);
    Node {
        id: json_str(v, "id").unwrap(),
        x: v["x"].as_i64().unwrap(),
        y: v["y"].as_i64().unwrap(),
        width: v["width"].as_i64().unwrap(),
        height: v["height"].as_i64().unwrap(),
        color: json_str(v, "color"),
        kind,
        extra: rest_of(v, &known),
    }
}

fn edge_from(v: &serde_json::Value) -> Edge {
    Edge {
        id: json_str(v, "id").unwrap(),
        from_node: json_str(v, "fromNode").unwrap(),
        from_side: side_of(v, "fromSide"),
        from_end: end_of(v, "fromEnd"),
        to_node: json_str(v, "toNode").unwrap(),
        to_side: side_of(v, "toSide"),
        to_end: end_of(v, "toEnd"),
        label: json_str(v, "label"),
        extra: rest_of(
            v,
            &["id", "fromNode", "fromSide", "fromEnd", "toNode", "toSide", "toEnd", "label"],
        ),
    }
}

fn canvas_from(src: &str) -> Canvas {
    let v: serde_json::Value = serde_json::from_str(src).unwrap();
    let list = |key: &str| v.get(key).and_then(|x| x.as_array()).cloned().unwrap_or_default();
    Canvas {
        nodes: list("nodes").iter().map(node_from).collect(),
        edges: list("edges").iter().map(edge_from).collect(),
        extra: rest_of(&v, &["nodes", "edges"]),
    }
}

fn node(id: &str) -> String {
    format!(r#"{{"id":"{id}","type":"text","text":"x","x":0,"y":0,"width":10,"height":10}}"#)
}

fn edge(id: &str, from: &str, to: &str) -> String {
    format!(r#"{{"id":"{id}","fromNode":"{from}","toNode":"{to}"}}"#)
}

fn errors(nodes: &[String], edges: &[String]) -> Vec<ValidationError> {
    let json = format!(r#"{{"nodes":[{}],"edges":[{}]}}"#, nodes.join(","), edges.join(","));
    validate(&canvas_from(&json)).unwrap_err()
}

/// The `simple` fixture: two text boxes and an edge between them.
fn simple() -> Canvas {
    Canvas {
        nodes: vec![
            Node {
                id: "a559e50dc6d68554".into(),
                x: 180,
                y: 0,
                width: 250,
                height: 60,
                color: Some("5".into()),
                kind: NodeKind::Text { text: "Blue box".into() },
                extra: JsonMap::new(),
            },
            Node {
                id: "3b4fe2054591f700".into(),
                x: -420,
                y: 0,
                width: 250,
                height: 60,
                color: Some("1".into()),
                kind: NodeKind::Text { text: "Red box".into() },
                extra: JsonMap::new(),
            },
        ],
        edges: vec![Edge {
            id: "b3a735ca54e8bb28".into(),
            from_node: "3b4fe2054591f700".into(),
            from_side: Some(Side::Right),
            from_end: None,
            to_node: "a559e50dc6d68554".into(),
            to_side: Some(Side::Left),
            to_end: None,
            label: None,
            extra: JsonMap::new(),
        }],
        extra: JsonMap::new(),
    }
}

#[test]
fn the_fixtures_are_valid() {
    assert!(validate(&simple()).is_ok());
}

#[test]
fn two_dangling_edges_report_both() {
    let found = errors(
        &[node("a"), node("b")],
        &[edge("e1", "a", "ghost"), edge("e2", "phantom", "b")],
    );

    assert_eq!(
        found,
        vec![
            ValidationError::DanglingEdge { edge: "e1".into(), node: "ghost".into() },
            ValidationError::DanglingEdge { edge: "e2".into(), node: "phantom".into() },
        ]
    );

    // the offending ids are in the message, so a caller can report them
    // without taking the enum apart
    let rendered = found[0].message();
    assert!(rendered.contains("e1") && rendered.contains("ghost"), "{rendered}");
}

#[test]
fn an_edge_dangling_at_both_ends_reports_each_end() {
    let found = errors(&[node("a")], &[edge("e1", "nope", "also-nope")]);
    assert_eq!(found.len(), 2, "{found:?}");
}

#[test]
fn duplicate_ids_are_caught() {
    assert_eq!(
        errors(&[node("a"), node("a")], &[]),
        vec![ValidationError::DuplicateNodeId("a".into())]
    );
    assert_eq!(
        errors(&[node("a"), node("b")], &[edge("e1", "a", "b"), edge("e1", "b", "a")]),
        vec![ValidationError::DuplicateEdgeId("e1".into())]
    );
}

#[test]
fn every_problem_is_collected_not_just_the_first() {
    // one of each, all in one document
    let found = errors(
        &[node("a"), node("a")],
        &[edge("e1", "a", "ghost"), edge("e1", "a", "a")],
    );

    assert_eq!(found.len(), 3, "{found:?}");
    assert!(matches!(found[0], ValidationError::DuplicateNodeId(_)));
    assert!(matches!(found[1], ValidationError::DanglingEdge { .. }));
    assert!(matches!(found[2], ValidationError::DuplicateEdgeId(_)));
}

#[test]
fn a_duplicated_node_still_resolves_its_edges() {
    // the duplicate is reported once, but the id exists, so edges pointing at
    // it are not also flagged dangling
    let found = errors(&[node("a"), node("a")], &[edge("e1", "a", "a")]);
    assert_eq!(found, vec![ValidationError::DuplicateNodeId("a".into())]);
}

#[test]
fn the_order_is_nodes_first_then_edge_by_edge() {
    let found = errors(
        &[node("a"), node("a"), node("a")],
        &[edge("e1", "x", "y"), edge("e1", "a", "z")],
    );
    assert_eq!(
        found,
        vec![
            ValidationError::DuplicateNodeId("a".into()),
            ValidationError::DuplicateNodeId("a".into()),
            ValidationError::DanglingEdge { edge: "e1".into(), node: "x".into() },
            ValidationError::DanglingEdge { edge: "e1".into(), node: "y".into() },
            ValidationError::DuplicateEdgeId("e1".into()),
            ValidationError::DanglingEdge { edge: "e1".into(), node: "z".into() },
        ]
    );
}

#[test]
fn an_empty_canvas_is_valid() {
    assert!(validate(&canvas_from("{}")).is_ok());
}

#[test]
fn messages_name_the_fault() {
    assert_eq!(
        ValidationError::DanglingEdge { edge: "e1".into(), node: "gone".into() }.message(),
        "edge e1 points at node gone, which does not exist"
    );
    assert_eq!(
        ValidationError::DuplicateNodeId("a".into()).message(),
        "node id a appears more than once"
    );
    assert_eq!(
        ValidationError::DuplicateEdgeId("e".into()).message(),
        "edge id e appears more than once"
    );
}

#[test]
fn unmodelled_keys_do_not_affect_validation() {
    let c = canvas_from(
        r#"{"theme":"dark","nodes":[{"id":"a","type":"file","file":"x.md","x":0,"y":0,"width":1,"height":1,"extboardShape":"round"}],"edges":[{"id":"e","fromNode":"a","toNode":"a","fromEnd":"arrow","extboardWeight":2}]}"#,
    );
    assert!(validate(&c).is_ok());
    assert_eq!(c.nodes[0].kind, NodeKind::File { file: "x.md".into(), subpath: None });
    assert_eq!(c.edges[0].from_end, Some(End::Arrow));
}
