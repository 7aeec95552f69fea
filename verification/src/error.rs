use vstd::prelude::*;

use crate::text::{decimal, push_decimal};

verus! {

/// A rule that a canvas breaks, as reported by `validate`.
#[derive(Debug, Clone, PartialEq, Eq)]
pub enum ValidationError {
    DanglingEdge { edge: String, node: String },
    DuplicateNodeId(String),
    DuplicateEdgeId(String),
}

/// Why a mutation of a canvas was refused. A refused mutation leaves the
/// canvas as it was.
#[derive(Debug, Clone, PartialEq, Eq)]
pub enum MutationError {
    NoSuchNode(String),
    DuplicateNodeId(String),
    NoSuchEdge(String),
    DuplicateEdgeId(String),
    NotATextNode(String),
    InvalidSize { node: String, width: i64, height: i64 },
}

impl ValidationError {
    /// The human-readable text of the error, naming the offending ids.
    pub open spec fn text(self) -> Seq<char> {
        match self {
            ValidationError::DanglingEdge { edge, node } => "edge "@ + edge@ + " points at node "@
                + node@ + ", which does not exist"@,
            ValidationError::DuplicateNodeId(id) => "node id "@ + id@ + " appears more than once"@,
            ValidationError::DuplicateEdgeId(id) => "edge id "@ + id@ + " appears more than once"@,
        }
    }

    /// Renders the error for people, naming the offending ids.
    pub fn message(&self) -> (r: String)
        ensures
            r@ == self.text(),
    {
        match self {
            ValidationError::DanglingEdge { edge, node } => {
                let mut m = "edge ".to_owned();
                m.append(edge.as_str());
                m.append(" points at node ");
                m.append(node.as_str());
                m.append(", which does not exist");
                m
            },
            ValidationError::DuplicateNodeId(id) => {
                let mut m = "node id ".to_owned();
                m.append(id.as_str());
                m.append(" appears more than once");
                m
            },
            ValidationError::DuplicateEdgeId(id) => {
                let mut m = "edge id ".to_owned();
                m.append(id.as_str());
                m.append(" appears more than once");
                m
            },
        }
    }
}

impl MutationError {
    /// The human-readable text of the error.
    pub open spec fn text(self) -> Seq<char> {
        match self {
            MutationError::NoSuchNode(id) => "no node with id "@ + id@,
            MutationError::DuplicateNodeId(id) => "a node with id "@ + id@
                + " is already in the document"@,
            MutationError::NoSuchEdge(id) => "no edge with id "@ + id@,
            MutationError::DuplicateEdgeId(id) => "an edge with id "@ + id@
                + " is already in the document"@,
            MutationError::NotATextNode(id) => "node "@ + id@ + " is not a text node"@,
            MutationError::InvalidSize { node, width, height } => decimal(width as int) + "x"@
                + decimal(height as int) + " is not a usable size for node "@ + node@,
        }
    }

    /// Renders the error for people.
    pub fn message(&self) -> (r: String)
        ensures
            r@ == self.text(),
    {
        match self {
            MutationError::NoSuchNode(id) => {
                let mut m = "no node with id ".to_owned();
                m.append(id.as_str());
                m
            },
            MutationError::DuplicateNodeId(id) => {
                let mut m = "a node with id ".to_owned();
                m.append(id.as_str());
                m.append(" is already in the document");
                m
            },
            MutationError::NoSuchEdge(id) => {
                let mut m = "no edge with id ".to_owned();
                m.append(id.as_str());
                m
            },
            MutationError::DuplicateEdgeId(id) => {
                let mut m = "an edge with id ".to_owned();
                m.append(id.as_str());
                m.append(" is already in the document");
                m
            },
            MutationError::NotATextNode(id) => {
                let mut m = "node ".to_owned();
                m.append(id.as_str());
                m.append(" is not a text node");
                m
            },
            MutationError::InvalidSize { node, width, height } => {
                let mut m = String::new();
                push_decimal(&mut m, *width);
                m.append("x");
                push_decimal(&mut m, *height);
                m.append(" is not a usable size for node ");
                m.append(node.as_str());
                assert(m@ =~= self.text());
                m
            },
        }
    }
}

} // verus!
