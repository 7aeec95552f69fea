use vstd::prelude::*;

use crate::error::MutationError;
use crate::model::{node_ids, Canvas, CanvasView, Edge, Node, NodeKind};
use crate::validate::{has_edge_id, has_node_id};

verus! {

/// Keeps the nodes whose id is not `id`.
pub open spec fn node_not_named(id: Seq<char>) -> spec_fn(Node) -> bool {
    |n: Node| n.id@ != id
}

/// Keeps the edges with neither end at `id`.
pub open spec fn edge_not_touching(id: Seq<char>) -> spec_fn(Edge) -> bool {
    |e: Edge| e.from_node@ != id && e.to_node@ != id
}

/// Keeps the edges whose id is not `id`.
pub open spec fn edge_not_named(id: Seq<char>) -> spec_fn(Edge) -> bool {
    |e: Edge| e.id@ != id
}

/// `i` is the position of the first node whose id is `id`.
pub open spec fn first_node_at(nodes: Seq<Node>, id: Seq<char>, i: int) -> bool {
    &&& 0 <= i < nodes.len()
    &&& nodes[i].id@ == id
    &&& forall|k: int| 0 <= k < i ==> nodes[k].id@ != id
}

/// The position of the first node whose id is `id` (meaningful when there
/// is one).
pub open spec fn node_position(nodes: Seq<Node>, id: Seq<char>) -> int {
    choose|i: int| first_node_at(nodes, id, i)
}

/// There is at most one first position, so `node_position` names it.
pub proof fn lemma_node_position(nodes: Seq<Node>, id: Seq<char>, i: int)
    requires
        first_node_at(nodes, id, i),
    ensures
        node_position(nodes, id) == i,
{
    let p = node_position(nodes, id);
    assert(first_node_at(nodes, id, p));
    if p < i {
        assert(nodes[p].id@ != id);
    }
    if i < p {
        assert(nodes[i].id@ != id);
    }
}

/// If the node at `k` has the id, the first node with that id is at
/// `node_position`.
pub proof fn lemma_first_occurrence(nodes: Seq<Node>, id: Seq<char>, k: int)
    requires
        0 <= k < nodes.len(),
        nodes[k].id@ == id,
    ensures
        first_node_at(nodes, id, node_position(nodes, id)),
    decreases k,
{
    if exists|m: int| 0 <= m < k && nodes[m].id@ == id {
        let m = choose|m: int| 0 <= m < k && nodes[m].id@ == id;
        lemma_first_occurrence(nodes, id, m);
    } else {
        assert(first_node_at(nodes, id, k));
    }
}

/// The node with its position replaced.
pub open spec fn moved(n: Node, x: i64, y: i64) -> Node {
    Node { x: x, y: y, ..n }
}

/// The node with its size replaced.
pub open spec fn resized(n: Node, width: i64, height: i64) -> Node {
    Node { width: width, height: height, ..n }
}

/// The node with its kind replaced by a text body.
pub open spec fn retexted(n: Node, text: String) -> Node {
    Node { kind: NodeKind::Text { text: text }, ..n }
}

/// The canvas after a node and every edge attached to it are removed.
pub open spec fn with_node_removed(c: CanvasView, id: Seq<char>) -> CanvasView {
    CanvasView {
        nodes: c.nodes.filter(node_not_named(id)),
        edges: c.edges.filter(edge_not_touching(id)),
        extra: c.extra,
    }
}

/// The canvas after the first node with the id is moved to `(x, y)`.
pub open spec fn with_node_moved(c: CanvasView, id: Seq<char>, x: i64, y: i64) -> CanvasView {
    let p = node_position(c.nodes, id);
    CanvasView { nodes: c.nodes.update(p, moved(c.nodes[p], x, y)), ..c }
}

/// The canvas after the first node with the id is given a new size.
pub open spec fn with_node_resized(
    c: CanvasView,
    id: Seq<char>,
    width: i64,
    height: i64,
) -> CanvasView {
    let p = node_position(c.nodes, id);
    CanvasView { nodes: c.nodes.update(p, resized(c.nodes[p], width, height)), ..c }
}

/// The canvas after the first node with the id gets a new text body.
pub open spec fn with_text_set(c: CanvasView, id: Seq<char>, text: String) -> CanvasView {
    let p = node_position(c.nodes, id);
    CanvasView { nodes: c.nodes.update(p, retexted(c.nodes[p], text)), ..c }
}

/// The canvas with `node` put on top of all the others.
pub open spec fn with_node_added(c: CanvasView, node: Node) -> CanvasView {
    CanvasView { nodes: c.nodes.push(node), ..c }
}

/// The canvas with `edge` appended.
pub open spec fn with_edge_added(c: CanvasView, edge: Edge) -> CanvasView {
    CanvasView { edges: c.edges.push(edge), ..c }
}

/// The canvas with every edge of that id removed.
pub open spec fn with_edge_removed(c: CanvasView, id: Seq<char>) -> CanvasView {
    CanvasView { edges: c.edges.filter(edge_not_named(id)), ..c }
}

/// The node at `c.nodes[p]` is a text node.
pub open spec fn is_text_at(c: CanvasView, p: int) -> bool {
    c.nodes[p].kind is Text
}

/// Filtering a prefix one element longer adds that element when it passes.
pub proof fn lemma_filter_take_step<A>(s: Seq<A>, p: spec_fn(A) -> bool, i: int)
    requires
        0 <= i < s.len(),
    ensures
        s.take(i + 1).filter(p) == s.take(i).filter(p) + if p(s[i]) {
            seq![s[i]]
        } else {
            Seq::<A>::empty()
        },
{
    reveal(Seq::filter);
    assert(s.take(i + 1).drop_last() =~= s.take(i));
    assert(s.take(i + 1).last() == s[i]);
    if p(s[i]) {
        assert(s.take(i + 1).filter(p) =~= s.take(i).filter(p) + seq![s[i]]);
    } else {
        assert(s.take(i + 1).filter(p) =~= s.take(i).filter(p) + Seq::<A>::empty());
    }
}

/// The nodes of `nodes` whose id is not `id`, in order.
fn nodes_not_named(nodes: Vec<Node>, id: &String) -> (r: Vec<Node>)
    ensures
        r@ == nodes@.filter(node_not_named(id@)),
{
    let ghost all = nodes@;
    let mut out: Vec<Node> = Vec::new();
    for n in it: nodes.into_iter()
        invariant
            out@ == it.seq().take(it.index() as int).filter(node_not_named(id@)),
    {
        proof {
            lemma_filter_take_step(it.seq(), node_not_named(id@), it.index() as int);
        }
        if !(n.id == *id) {
            out.push(n);
        }
    }
    assert(all.take(all.len() as int) =~= all);
    out
}

/// The edges of `edges` with neither end at `id`, in order.
fn edges_not_touching(edges: Vec<Edge>, id: &String) -> (r: Vec<Edge>)
    ensures
        r@ == edges@.filter(edge_not_touching(id@)),
{
    let ghost all = edges@;
    let mut out: Vec<Edge> = Vec::new();
    for e in it: edges.into_iter()
        invariant
            out@ == it.seq().take(it.index() as int).filter(edge_not_touching(id@)),
    {
        proof {
            lemma_filter_take_step(it.seq(), edge_not_touching(id@), it.index() as int);
        }
        if !(e.from_node == *id) && !(e.to_node == *id) {
            out.push(e);
        }
    }
    assert(all.take(all.len() as int) =~= all);
    out
}

/// The edges of `edges` whose id is not `id`, in order.
fn edges_not_named(edges: Vec<Edge>, id: &String) -> (r: Vec<Edge>)
    ensures
        r@ == edges@.filter(edge_not_named(id@)),
{
    let ghost all = edges@;
    let mut out: Vec<Edge> = Vec::new();
    for e in it: edges.into_iter()
        invariant
            out@ == it.seq().take(it.index() as int).filter(edge_not_named(id@)),
    {
        proof {
            lemma_filter_take_step(it.seq(), edge_not_named(id@), it.index() as int);
        }
        if !(e.id == *id) {
            out.push(e);
        }
    }
    assert(all.take(all.len() as int) =~= all);
    out
}

impl Canvas {
    /// Removes the node with this id and, with it, every edge that starts or
    /// ends there, so no edge is left pointing at an id that is gone. An
    /// unknown id is an error and changes nothing.
    pub fn remove_node(&mut self, node_id: &str) -> (r: Result<(), MutationError>)
        ensures
            old(self)@.has_node(node_id@) ==> r is Ok && final(self)@ == with_node_removed(
                old(self)@,
                node_id@,
            ),
            !old(self)@.has_node(node_id@) ==> (r matches Err(MutationError::NoSuchNode(s))
                && s@ == node_id@ && *final(self) == *old(self)),
    {
        let id = node_id.to_owned();
        if !has_node_id(&self.nodes, &id) {
            return Err(MutationError::NoSuchNode(id));
        }
        let mut nodes: Vec<Node> = Vec::new();
        std::mem::swap(&mut nodes, &mut self.nodes);
        self.nodes = nodes_not_named(nodes, &id);
        let mut edges: Vec<Edge> = Vec::new();
        std::mem::swap(&mut edges, &mut self.edges);
        self.edges = edges_not_touching(edges, &id);
        Ok(())
    }

    /// Puts `node` on top of the canvas, unless a node with its id is
    /// already there.
    pub fn add_node(&mut self, node: Node) -> (r: Result<(), MutationError>)
        ensures
            !old(self)@.has_node(node.id@) ==> r is Ok && final(self)@ == with_node_added(
                old(self)@,
                node,
            ),
            old(self)@.has_node(node.id@) ==> r == Err::<(), MutationError>(
                MutationError::DuplicateNodeId(node.id),
            ) && *final(self) == *old(self),
    {
        if has_node_id(&self.nodes, &node.id) {
            return Err(MutationError::DuplicateNodeId(node.id));
        }
        self.nodes.push(node);
        Ok(())
    }

    /// Moves the first node with this id to `(x, y)`, keeping its place in
    /// the z-order and everything else about it.
    pub fn move_node(&mut self, node_id: &str, x: i64, y: i64) -> (r: Result<(), MutationError>)
        ensures
            old(self)@.has_node(node_id@) ==> r is Ok && final(self)@ == with_node_moved(
                old(self)@,
                node_id@,
                x,
                y,
            ),
            !old(self)@.has_node(node_id@) ==> (r matches Err(MutationError::NoSuchNode(s))
                && s@ == node_id@ && *final(self) == *old(self)),
    {
        match self.node_mut(node_id) {
            Err(e) => Err(e),
            Ok(i) => {
                let ghost before = self.nodes@;
                self.nodes[i].x = x;
                self.nodes[i].y = y;
                assert(self.nodes@ =~= before.update(i as int, moved(before[i as int], x, y)));
                Ok(())
            },
        }
    }

    /// Gives the first node with this id a new size. A width or height that
    /// is not positive is refused before the lookup.
    pub fn resize_node(&mut self, node_id: &str, width: i64, height: i64) -> (r: Result<
        (),
        MutationError,
    >)
        ensures
            width <= 0 || height <= 0 ==> (r matches Err(
                MutationError::InvalidSize { node: s, width: w, height: h },
            ) && s@ == node_id@ && w == width && h == height && *final(self) == *old(self)),
            width > 0 && height > 0 && old(self)@.has_node(node_id@) ==> r is Ok && final(self)@
                == with_node_resized(old(self)@, node_id@, width, height),
            width > 0 && height > 0 && !old(self)@.has_node(node_id@) ==> (r matches Err(
                MutationError::NoSuchNode(s),
            ) && s@ == node_id@ && *final(self) == *old(self)),
    {
        if width <= 0 || height <= 0 {
            return Err(MutationError::InvalidSize { node: node_id.to_owned(), width, height });
        }
        match self.node_mut(node_id) {
            Err(e) => Err(e),
            Ok(i) => {
                let ghost before = self.nodes@;
                self.nodes[i].width = width;
                self.nodes[i].height = height;
                assert(self.nodes@ =~= before.update(
                    i as int,
                    resized(before[i as int], width, height),
                ));
                Ok(())
            },
        }
    }

    /// Replaces the body of the first node with this id, which must be a
    /// text node.
    pub fn set_text(&mut self, node_id: &str, text: String) -> (r: Result<(), MutationError>)
        ensures
            !old(self)@.has_node(node_id@) ==> (r matches Err(MutationError::NoSuchNode(s))
                && s@ == node_id@ && *final(self) == *old(self)),
            old(self)@.has_node(node_id@) && is_text_at(
                old(self)@,
                node_position(old(self)@.nodes, node_id@),
            ) ==> r is Ok && final(self)@ == with_text_set(old(self)@, node_id@, text),
            old(self)@.has_node(node_id@) && !is_text_at(
                old(self)@,
                node_position(old(self)@.nodes, node_id@),
            ) ==> (r matches Err(MutationError::NotATextNode(s)) && s@ == node_id@ && *final(self)
                == *old(self)),
    {
        match self.node_mut(node_id) {
            Err(e) => Err(e),
            Ok(i) => {
                let is_text = match &self.nodes[i].kind {
                    NodeKind::Text { .. } => true,
                    _ => false,
                };
                if is_text {
                    self.nodes[i].kind = NodeKind::Text { text };
                    Ok(())
                } else {
                    Err(MutationError::NotATextNode(node_id.to_owned()))
                }
            },
        }
    }

    /// Appends `edge`, unless its id is taken or one of its ends names no
    /// node: this is never what creates a dangling edge.
    pub fn add_edge(&mut self, edge: Edge) -> (r: Result<(), MutationError>)
        ensures
            old(self)@.has_edge(edge.id@) ==> r == Err::<(), MutationError>(
                MutationError::DuplicateEdgeId(edge.id),
            ) && *final(self) == *old(self),
            !old(self)@.has_edge(edge.id@) && !old(self)@.has_node(edge.from_node@) ==> r
                == Err::<(), MutationError>(MutationError::NoSuchNode(edge.from_node))
                && *final(self) == *old(self),
            !old(self)@.has_edge(edge.id@) && old(self)@.has_node(edge.from_node@)
                && !old(self)@.has_node(edge.to_node@) ==> r == Err::<(), MutationError>(
                MutationError::NoSuchNode(edge.to_node),
            ) && *final(self) == *old(self),
            !old(self)@.has_edge(edge.id@) && old(self)@.has_node(edge.from_node@) && old(
                self,
            )@.has_node(edge.to_node@) ==> r is Ok && final(self)@ == with_edge_added(
                old(self)@,
                edge,
            ),
    {
        if has_edge_id(&self.edges, &edge.id) {
            return Err(MutationError::DuplicateEdgeId(edge.id));
        }
        if !has_node_id(&self.nodes, &edge.from_node) {
            return Err(MutationError::NoSuchNode(edge.from_node.clone()));
        }
        if !has_node_id(&self.nodes, &edge.to_node) {
            return Err(MutationError::NoSuchNode(edge.to_node.clone()));
        }
        self.edges.push(edge);
        Ok(())
    }

    /// Removes the edge with this id; the nodes are not touched. An unknown id
    /// is an error and changes nothing.
    pub fn remove_edge(&mut self, edge_id: &str) -> (r: Result<(), MutationError>)
        ensures
            old(self)@.has_edge(edge_id@) ==> r is Ok && final(self)@ == with_edge_removed(
                old(self)@,
                edge_id@,
            ),
            !old(self)@.has_edge(edge_id@) ==> (r matches Err(MutationError::NoSuchEdge(s))
                && s@ == edge_id@ && *final(self) == *old(self)),
    {
        let id = edge_id.to_owned();
        if !has_edge_id(&self.edges, &id) {
            return Err(MutationError::NoSuchEdge(id));
        }
        let mut edges: Vec<Edge> = Vec::new();
        std::mem::swap(&mut edges, &mut self.edges);
        self.edges = edges_not_named(edges, &id);
        Ok(())
    }

    /// The lookup shared by the mutations of one node: the position of the
    /// first node with this id, or the error that names the missing id.
    fn node_mut(&self, node_id: &str) -> (r: Result<usize, MutationError>)
        ensures
            match r {
                Ok(i) => self@.has_node(node_id@) && first_node_at(self.nodes@, node_id@, i as int)
                    && node_position(self.nodes@, node_id@) == i,
                Err(e) => !self@.has_node(node_id@) && (e matches MutationError::NoSuchNode(s)
                    && s@ == node_id@),
            },
    {
        let id = node_id.to_owned();
        let mut i: usize = 0;
        while i < self.nodes.len()
            invariant
                i <= self.nodes@.len(),
                id@ == node_id@,
                forall|k: int| 0 <= k < i ==> self.nodes@[k].id@ != node_id@,
            decreases self.nodes@.len() - i,
        {
            if self.nodes[i].id == id {
                proof {
                    lemma_node_position(self.nodes@, node_id@, i as int);
                    assert(node_ids(self.nodes@)[i as int] == node_id@);
                }
                return Ok(i);
            }
            i += 1;
        }
        assert forall|k: int| 0 <= k < node_ids(self.nodes@).len() implies node_ids(self.nodes@)[k]
            != node_id@ by {
            assert(node_ids(self.nodes@)[k] == self.nodes@[k].id@);
        }
        Err(MutationError::NoSuchNode(id))
    }
}

} // verus!
