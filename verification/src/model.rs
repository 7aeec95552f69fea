use vstd::prelude::*;

verus! {

/// Keys of a JSON object that the model does not interpret. They are carried
/// through every operation unchanged, so nothing a document holds is lost.
pub type Extra = serde_json::Map<String, serde_json::Value>;

#[verifier::external_type_specification]
#[verifier::external_body]
#[verifier::reject_recursive_types(K)]
#[verifier::reject_recursive_types(V)]
pub struct ExJsonMap<K, V>(serde_json::Map<K, V>);

#[verifier::external_type_specification]
#[verifier::external_body]
pub struct ExJsonValue(serde_json::Value);

/// `Clone` of serde_json's `Map<String, Value>`, which the derived `Clone`
/// of the model types calls: an entry-by-entry copy. Nothing is claimed of
/// the copy; the model never looks inside it.
pub assume_specification[ <serde_json::Map<String, serde_json::Value> as Clone>::clone ](
    m: &serde_json::Map<String, serde_json::Value>,
) -> serde_json::Map<String, serde_json::Value>;

/// A whole canvas: the nodes in z-order (later is on top) and the edges.
#[derive(Debug, Clone, PartialEq)]
pub struct Canvas {
    pub nodes: Vec<Node>,
    pub edges: Vec<Edge>,
    pub extra: Extra,
}

/// A box on the canvas: its id, position and size, an optional color, what
/// it shows, and the keys the model does not interpret.
#[derive(Debug, Clone, PartialEq)]
pub struct Node {
    pub id: String,
    pub x: i64,
    pub y: i64,
    pub width: i64,
    pub height: i64,
    pub color: Option<String>,
    pub kind: NodeKind,
    pub extra: Extra,
}

/// What a node shows: text, a file, a link, or a group around other nodes.
#[derive(Debug, Clone, PartialEq)]
pub enum NodeKind {
    Text { text: String },
    File { file: String, subpath: Option<String> },
    Link { url: String },
    Group { label: Option<String> },
}

/// A connection from one node to another, with optional sides, ends and a
/// label.
#[derive(Debug, Clone, PartialEq)]
pub struct Edge {
    pub id: String,
    pub from_node: String,
    pub from_side: Option<Side>,
    pub from_end: Option<End>,
    pub to_node: String,
    pub to_side: Option<Side>,
    pub to_end: Option<End>,
    pub label: Option<String>,
    pub extra: Extra,
}

/// The side of a node an edge attaches to.
#[derive(Debug, Clone, Copy, PartialEq, Eq)]
pub enum Side {
    Top,
    Right,
    Bottom,
    Left,
}

/// How an edge ends: `Plain` is the format's `none` (no arrow head).
#[derive(Debug, Clone, Copy, PartialEq, Eq)]
pub enum End {
    Plain,
    Arrow,
}

/// The ids of a sequence of nodes, in the same order.
pub open spec fn node_ids(nodes: Seq<Node>) -> Seq<Seq<char>> {
    nodes.map_values(|n: Node| n.id@)
}

/// The ids of a sequence of edges, in the same order.
pub open spec fn edge_ids(edges: Seq<Edge>) -> Seq<Seq<char>> {
    edges.map_values(|e: Edge| e.id@)
}

/// The mathematical content of a canvas: its node and edge sequences, and
/// the uninterpreted top-level keys.
pub struct CanvasView {
    pub nodes: Seq<Node>,
    pub edges: Seq<Edge>,
    pub extra: Extra,
}

impl View for Canvas {
    type V = CanvasView;

    open spec fn view(&self) -> CanvasView {
        CanvasView { nodes: self.nodes@, edges: self.edges@, extra: self.extra }
    }
}

impl CanvasView {
    /// Some node of the canvas has this id.
    pub open spec fn has_node(self, id: Seq<char>) -> bool {
        node_ids(self.nodes).contains(id)
    }

    /// Some edge of the canvas has this id.
    pub open spec fn has_edge(self, id: Seq<char>) -> bool {
        edge_ids(self.edges).contains(id)
    }

    /// The document invariant that validation checks: node ids are unique,
    /// edge ids are unique, and both ends of every edge name a node.
    pub open spec fn well_formed(self) -> bool {
        &&& node_ids(self.nodes).no_duplicates()
        &&& edge_ids(self.edges).no_duplicates()
        &&& forall|j: int|
            #![trigger self.edges[j]]
            0 <= j < self.edges.len() ==> self.has_node(self.edges[j].from_node@) && self.has_node(
                self.edges[j].to_node@,
            )
    }
}

} // verus!
