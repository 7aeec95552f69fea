//! Mutations of a canvas: the cascade of `remove_node`, and that every
//! refused mutation leaves the document exactly as it was.

use extboard_core::{validate, Canvas, Edge, End, MutationError, Node, NodeKind, Side};
use serde_json::Map as JsonMap;

// Builds library values from JSON Canvas text, the way the fixtures of the
// original suite were written.
fn json_str(v: &serde_json::Value, key: &str) -> Option<String> {
    v.get(key).and_then(|x| x.as_str()).map(|s| s.to_string())
}

fn side_of(v: &serde_json::Value, key: &str) -> Option<Side> {
    json_str(v, key).map(|s| match s.as_str() {
        "top" => Side::Top,
        "right" => Side::Right,
        "bottom" => Side::Bottom,
        "left" => Side::Left,
        other => panic!("unknown variant `{other}`"),
    })
}

fn end_of(v: &serde_json::Value, key: &str) -> Option<End> {
    json_str(v, key).map(|s| match s.as_str() {
        "none" => End::Plain,
        "arrow" => End::Arrow,
        other => panic!("unknown variant `{other}`"),
    })
}

fn rest_of(v: &serde_json::Value, known: &[&str]) -> JsonMap<String, serde_json::Value> {
    let mut rest = v.as_object().unwrap().clone();
    for k in known {
        rest.remove(*k);
    }
    rest
}

fn node_from(v: &serde_json::Value) -> Node {
    let (kind, own): (NodeKind, &[&str]) = match v["type"].as_str().unwrap() {
        "text" => (NodeKind::Text { text: json_str(v, "text").unwrap() }, &["text"]),
        "file" => (
            NodeKind::File { file: json_str(v, "file").unwrap(), subpath: json_str(v, "subpath") },
            &["file", "subpath"],
        ),
        "link" => (NodeKind::Link { url: json_str(v, "url").unwrap() }, &["url"]),
        "group" => (NodeKind::Group { label: json_str(v, "label") }, &["label"]),
        other => panic!("unknown node type {other}"),
    };
    let mut known = vec!["id", "x", "y", "width", "height", "color", "type"];
    known.extend_from_slice(own);
    Node {
        id: json_str(v, "id").unwrap(),
        x: v["x"].as_i64().unwrap(),
        y: v["y"].as_i64().unwrap(),
        width: v["width"].as_i64().unwrap(),
        height: v["height"].as_i64().unwrap(),
        color: json_str(v, "color"),
        kind,
        extra: rest_of(v, &known),
    }
}

fn edge_from(v: &serde_json::Value) -> Edge {
    Edge {
        id: json_str(v, "id").unwrap(),
        from_node: json_str(v, "fromNode").unwrap(),
        from_side: side_of(v, "fromSide"),
        from_end: end_of(v, "fromEnd"),
        to_node: json_str(v, "toNode").unwrap(),
        to_side: side_of(v, "toSide"),
        to_end: end_of(v, "toEnd"),
        label: json_str(v, "label"),
        extra: rest_of(
            v,
            &["id", "fromNode", "fromSide", "fromEnd", "toNode", "toSide", "toEnd", "label"],
        ),
    }
}

fn canvas_from(src: &str) -> Canvas {
    let v: serde_json::Value = serde_json::from_str(src).unwrap();
    let list = |key: &str| v.get(key).and_then(|x| x.as_array()).cloned().unwrap_or_default();
    Canvas {
        nodes: list("nodes").iter().map(node_from).collect(),
        edges: list("edges").iter().map(edge_from).collect(),
        extra: rest_of(&v, &["nodes", "edges"]),
    }
}

fn parse_node(src: &str) -> Node {
    node_from(&serde_json::from_str(src).unwrap())
}

fn parse_edge(src: &str) -> Edge {
    edge_from(&serde_json::from_str(src).unwrap())
}

fn node(id: &str) -> String {
    format!(r#"{{"id":"{id}","type":"text","text":"x","x":0,"y":0,"width":10,"height":10}}"#)
}

fn edge(id: &str, from: &str, to: &str) -> String {
    format!(r#"{{"id":"{id}","fromNode":"{from}","toNode":"{to}"}}"#)
}

fn canvas(nodes: &[String], edges: &[String]) -> Canvas {
    canvas_from(&format!(
        r#"{{"nodes":[{}],"edges":[{}]}}"#,
        nodes.join(","),
        edges.join(",")
    ))
}

/// hub has three edges: one out, one in, one to itself.
fn hub() -> Canvas {
    canvas(
        &[node("hub"), node("a"), node("b"), node("far"), node("lonely")],
        &[
            edge("out", "hub", "a"),
            edge("in", "b", "hub"),
            edge("loop", "hub", "hub"),
            edge("untouched", "a", "far"),
        ],
    )
}

#[test]
fn removing_a_node_with_three_edges_leaves_a_valid_document() {
    let mut c = hub();
    assert!(validate(&c).is_ok(), "fixture was not valid to begin with");

    c.remove_node("hub").unwrap();

    assert!(validate(&c).is_ok(), "{:?}", validate(&c).unwrap_err());
    assert!(!c.nodes.iter().any(|n| n.id == "hub"));
    assert_eq!(c.nodes.len(), 4);
}

#[test]
fn only_the_attached_edges_go() {
    let mut c = hub();
    c.remove_node("hub").unwrap();

    let ids: Vec<&str> = c.edges.iter().map(|e| e.id.as_str()).collect();
    assert_eq!(ids, ["untouched"], "cascade took the wrong edges");
}

#[test]
fn an_unknown_node_is_an_error_not_a_no_op() {
    let mut c = hub();
    let before = c.clone();

    assert_eq!(c.remove_node("ghost"), Err(MutationError::NoSuchNode("ghost".into())));
    assert_eq!(c, before, "a failed mutation must not change the document");
}

#[test]
fn removing_an_unattached_node_leaves_every_edge() {
    let mut c = hub();
    c.remove_node("lonely").unwrap();

    assert_eq!(c.edges.len(), 4, "cascade fired for a node with no edges");
    assert!(validate(&c).is_ok());
}

#[test]
fn a_node_is_removed_by_its_incoming_edge_too() {
    // `far` is only ever a `toNode`, so this covers the to-side of the cascade
    let mut c = hub();
    c.remove_node("far").unwrap();

    let ids: Vec<&str> = c.edges.iter().map(|e| e.id.as_str()).collect();
    assert_eq!(ids, ["out", "in", "loop"]);
    assert!(validate(&c).is_ok());
}

#[test]
fn move_node_actually_moves_it() {
    let mut c = hub();
    c.move_node("a", 99, -77).unwrap();

    let moved = c.nodes.iter().find(|n| n.id == "a").unwrap();
    assert_eq!((moved.x, moved.y), (99, -77));
}

#[test]
fn move_node_keeps_the_array_order() {
    // array position is z-order, so a move must not raise or lower the node
    let mut c = hub();
    let before: Vec<String> = c.nodes.iter().map(|n| n.id.clone()).collect();

    c.move_node("a", 5, 5).unwrap();

    let after: Vec<String> = c.nodes.iter().map(|n| n.id.clone()).collect();
    assert_eq!(before, after, "the move reordered the nodes");
}

#[test]
fn move_node_changes_nothing_else() {
    let mut c = hub();
    let before = c.clone();
    c.move_node("a", 5, 5).unwrap();

    for (a, b) in c.nodes.iter().zip(&before.nodes) {
        if a.id == "a" {
            assert_eq!(Node { x: b.x, y: b.y, ..a.clone() }, *b);
        } else {
            assert_eq!(a, b);
        }
    }
    assert_eq!(c.edges, before.edges);
}

#[test]
fn moving_an_unknown_node_is_an_error() {
    let mut c = hub();
    let before = c.clone();

    assert_eq!(c.move_node("ghost", 1, 1), Err(MutationError::NoSuchNode("ghost".into())));
    assert_eq!(c, before);
}

#[test]
fn add_node_appends_and_stays_valid() {
    let mut c = hub();
    let new: Node = parse_node(&node("fresh"));

    c.add_node(new).unwrap();

    assert_eq!(c.nodes.last().unwrap().id, "fresh", "new node must be on top");
    assert!(validate(&c).is_ok());
}

#[test]
fn add_node_refuses_a_duplicate_id() {
    let mut c = hub();
    let clash: Node = parse_node(&node("hub"));
    let before = c.clone();

    assert_eq!(c.add_node(clash), Err(MutationError::DuplicateNodeId("hub".into())));
    assert_eq!(c, before);
    // the point of refusing: pushing it would have made the document invalid
    assert!(validate(&c).is_ok());
}

#[test]
fn resize_node_sets_both_dimensions() {
    let mut c = hub();
    c.resize_node("a", 300, 120).unwrap();

    let n = c.nodes.iter().find(|n| n.id == "a").unwrap();
    assert_eq!((n.width, n.height), (300, 120));
}

#[test]
fn resize_node_refuses_a_non_positive_size() {
    let mut c = hub();
    let before = c.clone();

    for (w, h) in [(0, 10), (10, 0), (-5, 10), (10, -5)] {
        assert!(c.resize_node("a", w, h).is_err(), "{w}x{h} was accepted");
    }
    assert_eq!(c, before, "a refused resize must not change the document");

    // and the lookup still happens for a good size
    assert_eq!(c.resize_node("ghost", 10, 10), Err(MutationError::NoSuchNode("ghost".into())));
}

#[test]
fn set_text_replaces_the_body() {
    let mut c = hub();
    c.set_text("a", "# heading\n\nbody".into()).unwrap();

    let n = c.nodes.iter().find(|n| n.id == "a").unwrap();
    assert!(matches!(&n.kind, NodeKind::Text { text } if text == "# heading\n\nbody"));
}

#[test]
fn set_text_refuses_a_non_text_node() {
    let mut c: Canvas = canvas_from(
        r#"{"nodes":[{"id":"g","type":"group","label":"box","x":0,"y":0,"width":10,"height":10}],"edges":[]}"#,
    );
    let before = c.clone();

    assert_eq!(c.set_text("g", "nope".into()), Err(MutationError::NotATextNode("g".into())));
    assert_eq!(c, before, "a refused set_text must not change the node kind");
}

#[test]
fn add_edge_appends_and_stays_valid() {
    let mut c = hub();
    let e: Edge = parse_edge(&edge("new", "a", "b"));

    c.add_edge(e).unwrap();

    assert_eq!(c.edges.last().unwrap().id, "new");
    assert!(validate(&c).is_ok());
}

#[test]
fn add_edge_refuses_an_endpoint_that_does_not_exist() {
    let mut c = hub();
    let before = c.clone();

    // this is the dangling edge validate exists to reject -- add_edge must
    // never be the thing that creates one
    for (from, to, missing) in [("a", "ghost", "ghost"), ("ghost", "a", "ghost")] {
        let e: Edge = parse_edge(&edge("new", from, to));
        assert_eq!(c.add_edge(e), Err(MutationError::NoSuchNode(missing.into())));
    }

    assert_eq!(c, before);
    assert!(validate(&c).is_ok());
}

#[test]
fn add_edge_refuses_a_duplicate_id() {
    let mut c = hub();
    let clash: Edge = parse_edge(&edge("out", "a", "b"));
    let before = c.clone();

    assert_eq!(c.add_edge(clash), Err(MutationError::DuplicateEdgeId("out".into())));
    assert_eq!(c, before);
}

#[test]
fn remove_edge_takes_only_that_edge() {
    let mut c = hub();
    c.remove_edge("out").unwrap();

    let ids: Vec<&str> = c.edges.iter().map(|e| e.id.as_str()).collect();
    assert_eq!(ids, ["in", "loop", "untouched"]);
    assert_eq!(c.nodes.len(), 5, "removing an edge must not touch nodes");
    assert!(validate(&c).is_ok());
}

#[test]
fn removing_an_unknown_edge_is_an_error() {
    let mut c = hub();
    let before = c.clone();

    assert_eq!(c.remove_edge("ghost"), Err(MutationError::NoSuchEdge("ghost".into())));
    assert_eq!(c, before);
}

// What one call undoes: adding a fresh node and removing it again, adding a
// fresh edge and removing it again, and moving a node there and back, each
// give the document back exactly.
#[test]
fn add_then_remove_node_gives_the_document_back() {
    let mut c = hub();
    let before = c.clone();
    c.add_node(parse_node(&node("fresh"))).unwrap();
    c.remove_node("fresh").unwrap();
    assert_eq!(c, before);
}

#[test]
fn add_then_remove_edge_gives_the_document_back() {
    let mut c = hub();
    let before = c.clone();
    c.add_edge(parse_edge(&edge("new", "far", "lonely"))).unwrap();
    c.remove_edge("new").unwrap();
    assert_eq!(c, before);
}

#[test]
fn moving_there_and_back_gives_the_document_back() {
    let mut c = hub();
    let before = c.clone();
    c.move_node("b", 400, -3).unwrap();
    assert_ne!(c, before);
    c.move_node("b", 0, 0).unwrap();
    assert_eq!(c, before);
}

#[test]
fn a_duplicated_id_edits_the_first_node_only() {
    let mut c = canvas(&[node("a"), node("a")], &[]);
    c.move_node("a", 7, 8).unwrap();
    assert_eq!((c.nodes[0].x, c.nodes[0].y), (7, 8));
    assert_eq!((c.nodes[1].x, c.nodes[1].y), (0, 0));
    c.remove_node("a").unwrap();
    assert!(c.nodes.is_empty(), "remove takes every node with the id");
}

#[test]
fn refusals_render_their_ids() {
    assert_eq!(MutationError::NoSuchNode("ghost".into()).message(), "no node with id ghost");
    assert_eq!(
        MutationError::DuplicateNodeId("hub".into()).message(),
        "a node with id hub is already in the document"
    );
    assert_eq!(MutationError::NoSuchEdge("e".into()).message(), "no edge with id e");
    assert_eq!(
        MutationError::DuplicateEdgeId("out".into()).message(),
        "an edge with id out is already in the document"
    );
    assert_eq!(MutationError::NotATextNode("g".into()).message(), "node g is not a text node");
    assert_eq!(
        MutationError::InvalidSize { node: "a".into(), width: -5, height: 10 }.message(),
        "-5x10 is not a usable size for node a"
    );
    assert_eq!(
        MutationError::InvalidSize { node: "a".into(), width: i64::MIN, height: 0 }.message(),
        "-9223372036854775808x0 is not a usable size for node a"
    );
}

#[test]
fn a_refused_size_names_node_and_size() {
    let mut c = hub();
    assert_eq!(
        c.resize_node("ghost", 0, 12),
        Err(MutationError::InvalidSize { node: "ghost".into(), width: 0, height: 12 })
    );
}

#[test]
fn edges_and_sides_survive_a_node_edit() {
    let mut c = canvas(&[node("a"), node("b")], &[]);
    let e = Edge {
        id: "e".into(),
        from_node: "a".into(),
        from_side: Some(Side::Right),
        from_end: Some(End::Plain),
        to_node: "b".into(),
        to_side: Some(Side::Left),
        to_end: Some(End::Arrow),
        label: Some("l".into()),
        extra: JsonMap::new(),
    };
    c.add_edge(e.clone()).unwrap();
    c.resize_node("b", 1, 1).unwrap();
    assert_eq!(c.edges, vec![e]);
}
