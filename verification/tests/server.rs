//! The decisions around the store and the HTTP surface: which ids reach the
//! file system, what a conditional read and a compare-and-swap write answer,
//! and what the formatter does with a file.

use extboard_core::api::{etag, etag_matches, get_outcome, put_step, GetOutcome, PutStep};
use extboard_core::cli::{fmt_outcome, FmtOutcome};
use extboard_core::store::space_ids;
use extboard_core::{rev, validate_id, Canvas, Edge, Node, NodeKind, StoreError, ValidationError};
use serde_json::Map as JsonMap;

fn empty() -> Canvas {
    Canvas { nodes: vec![], edges: vec![], extra: JsonMap::new() }
}

fn text_node(id: &str) -> Node {
    Node {
        id: id.into(),
        x: 0,
        y: 0,
        width: 10,
        height: 10,
        color: None,
        kind: NodeKind::Text { text: "hi".into() },
        extra: JsonMap::new(),
    }
}

fn dangling() -> Canvas {
    Canvas {
        nodes: vec![],
        edges: vec![Edge {
            id: "e1".into(),
            from_node: "nope".into(),
            from_side: None,
            from_end: None,
            to_node: "gone".into(),
            to_side: None,
            to_end: None,
            label: None,
            extra: JsonMap::new(),
        }],
        extra: JsonMap::new(),
    }
}

const EMPTY: &[u8] = br#"{"nodes":[],"edges":[]}"#;
const ONE_NODE: &[u8] =
    br#"{"nodes":[{"id":"n1","x":0,"y":0,"width":10,"height":10,"type":"text","text":"hi"}],"edges":[]}"#;

#[test]
fn traversal_is_rejected() {
    for bad in ["../../etc/passwd", ".hidden", "a/b", "", "a\\b", "..", "."] {
        assert!(matches!(validate_id(bad), Err(StoreError::BadId(ref s)) if s == bad), "{bad}");
    }
    for good in ["a", "nope", "my space", "v1.2", "a..b"] {
        assert!(validate_id(good).is_ok(), "{good}");
    }
}

#[test]
fn store_errors_map_to_statuses() {
    assert_eq!(StoreError::BadId("x".into()).status(), 400);
    assert_eq!(StoreError::NotFound("x".into()).status(), 404);
    assert_eq!(StoreError::Io(std::io::Error::other("disk")).status(), 500);
    let source = serde_json::from_str::<serde_json::Value>("{").unwrap_err();
    assert_eq!(StoreError::Parse { id: "x".into(), source }.status(), 500);
}

#[test]
fn the_etag_is_the_quoted_rev() {
    let tag = etag(EMPTY);
    assert_eq!(tag, format!("\"{}\"", rev(EMPTY)));
    assert!(tag.starts_with('"') && tag.ends_with('"') && tag.len() == 18, "{tag}");
    assert!(etag_matches(Some(tag.as_bytes()), &tag));
    assert!(!etag_matches(Some(b"\"0000000000000000\""), &tag));
    assert!(!etag_matches(Some(rev(EMPTY).as_bytes()), &tag), "unquoted rev must not match");
    assert!(!etag_matches(None, &tag));
}

#[test]
fn get_answers_304_only_for_the_current_tag() {
    let tag = etag(EMPTY);
    assert!(matches!(
        get_outcome(Some(tag.as_bytes()), EMPTY),
        GetOutcome::NotModified { etag } if etag == tag
    ));
    assert!(matches!(
        get_outcome(Some(b"\"0000000000000000\""), EMPTY),
        GetOutcome::Document { etag } if etag == tag
    ));
    assert!(matches!(get_outcome(None, EMPTY), GetOutcome::Document { etag } if etag == tag));
}

#[test]
fn put_is_a_compare_and_swap() {
    let first = etag(EMPTY);
    let mut incoming = empty();
    incoming.nodes.push(text_node("n1"));

    // no If-Match: refused before anything is read
    assert!(matches!(put_step(None, None, &incoming, ONE_NODE), PutStep::PreconditionRequired));
    assert!(matches!(
        put_step(None, Some(EMPTY), &incoming, ONE_NODE),
        PutStep::PreconditionRequired
    ));
    // with one, the current document is read first
    assert!(matches!(
        put_step(Some(first.as_bytes()), None, &incoming, ONE_NODE),
        PutStep::LoadCurrent
    ));
    // the right tag saves, and answers with the new document's tag
    let second = etag(ONE_NODE);
    assert_ne!(first, second);
    assert!(matches!(
        put_step(Some(first.as_bytes()), Some(EMPTY), &incoming, ONE_NODE),
        PutStep::Save { etag } if etag == second
    ));
    // the same request again: the tag it was based on is gone
    assert!(matches!(
        put_step(Some(first.as_bytes()), Some(ONE_NODE), &incoming, ONE_NODE),
        PutStep::Conflict { etag } if etag == second
    ));
    // a dangling edge is refused with the fault named, and nothing is saved
    match put_step(Some(second.as_bytes()), Some(ONE_NODE), &dangling(), EMPTY) {
        PutStep::Unprocessable { errors } => {
            assert_eq!(errors.len(), 2);
            assert!(errors[0].message().contains("does not exist"));
        }
        _ => panic!("a dangling edge was not refused"),
    }
}

#[test]
fn fmt_decides_from_validity_and_text() {
    let c = empty();
    assert!(matches!(fmt_outcome(&c, "{}", "{}", false), FmtOutcome::Settled));
    assert!(matches!(fmt_outcome(&c, "{}", "{}", true), FmtOutcome::Settled));
    assert!(matches!(fmt_outcome(&c, "{ }", "{}", true), FmtOutcome::NotFormatted));
    assert!(matches!(fmt_outcome(&c, "{ }", "{}", false), FmtOutcome::Rewrite));
    match fmt_outcome(&dangling(), "x", "y", false) {
        FmtOutcome::Invalid { errors } => assert_eq!(
            errors,
            vec![
                ValidationError::DanglingEdge { edge: "e1".into(), node: "nope".into() },
                ValidationError::DanglingEdge { edge: "e1".into(), node: "gone".into() },
            ]
        ),
        _ => panic!("an invalid document was formatted"),
    }
}

fn names(list: &[&str]) -> Vec<String> {
    list.iter().map(|s| s.to_string()).collect()
}

#[test]
fn list_keeps_canvas_files_only() {
    assert_eq!(space_ids(&names(&["b.canvas", "a.canvas", "a.canvas.tmp", "notes.md"])), ["a", "b"]);
}

#[test]
fn listing_is_sorted_by_bytes_and_keeps_every_space() {
    let ids = space_ids(&names(&[
        ".canvas",
        "canvas",
        "zeta.canvas",
        "Alpha.canvas",
        "é.canvas",
        "a.b.canvas",
        "x.CANVAS",
        "a.canvas",
        ".hidden.canvas",
    ]));
    assert_eq!(ids, [".hidden", "Alpha", "a", "a.b", "zeta", "é"]);
}
