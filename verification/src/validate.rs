use vstd::prelude::*;

use crate::error::ValidationError;
use crate::model::{edge_ids, node_ids, Canvas, CanvasView, Edge, Node};

verus! {

/// The duplicate-id errors among `nodes`, in document order: one for every
/// node whose id an earlier node already has.
pub open spec fn node_errors(nodes: Seq<Node>) -> Seq<ValidationError>
    decreases nodes.len(),
{
    if nodes.len() == 0 {
        Seq::empty()
    } else {
        let prev = nodes.drop_last();
        let n = nodes.last();
        node_errors(prev) + if node_ids(prev).contains(n.id@) {
            seq![ValidationError::DuplicateNodeId(n.id)]
        } else {
            Seq::empty()
        }
    }
}

/// The error for one end of `edge`, if that end names no id in `ids`.
pub open spec fn dangling(edge: Edge, end: String, ids: Seq<Seq<char>>) -> Seq<ValidationError> {
    if ids.contains(end@) {
        Seq::empty()
    } else {
        seq![ValidationError::DanglingEdge { edge: edge.id, node: end }]
    }
}

/// The errors that edge `e` contributes after the edges `prev`: a duplicate
/// id first, then its source end, then its target end.
pub open spec fn edge_step(prev: Seq<Edge>, e: Edge, ids: Seq<Seq<char>>) -> Seq<ValidationError> {
    (if edge_ids(prev).contains(e.id@) {
        seq![ValidationError::DuplicateEdgeId(e.id)]
    } else {
        Seq::empty()
    }) + dangling(e, e.from_node, ids) + dangling(e, e.to_node, ids)
}

/// The errors of all `edges`, in document order, against the node ids `ids`.
pub open spec fn edge_errors(edges: Seq<Edge>, ids: Seq<Seq<char>>) -> Seq<ValidationError>
    decreases edges.len(),
{
    if edges.len() == 0 {
        Seq::empty()
    } else {
        edge_errors(edges.drop_last(), ids) + edge_step(edges.drop_last(), edges.last(), ids)
    }
}

/// Every rule that `c` breaks, in the order `validate` reports them: the
/// duplicate node ids first, then edge by edge.
pub open spec fn validation_errors(c: CanvasView) -> Seq<ValidationError> {
    node_errors(c.nodes) + edge_errors(c.edges, node_ids(c.nodes))
}

/// Whether one of the first `upto` nodes has the id `id`.
fn node_id_among(nodes: &Vec<Node>, upto: usize, id: &String) -> (r: bool)
    requires
        upto <= nodes@.len(),
    ensures
        r == node_ids(nodes@.take(upto as int)).contains(id@),
{
    let mut i: usize = 0;
    while i < upto
        invariant
            i <= upto <= nodes@.len(),
            forall|k: int| 0 <= k < i ==> nodes@[k].id@ != id@,
        decreases upto - i,
    {
        if nodes[i].id == *id {
            assert(node_ids(nodes@.take(upto as int))[i as int] == id@);
            return true;
        }
        i += 1;
    }
    assert forall|k: int| 0 <= k < upto implies node_ids(nodes@.take(upto as int))[k] != id@ by {
        assert(node_ids(nodes@.take(upto as int))[k] == nodes@[k].id@);
    }
    false
}

/// Whether one of the first `upto` edges has the id `id`.
fn edge_id_among(edges: &Vec<Edge>, upto: usize, id: &String) -> (r: bool)
    requires
        upto <= edges@.len(),
    ensures
        r == edge_ids(edges@.take(upto as int)).contains(id@),
{
    let mut i: usize = 0;
    while i < upto
        invariant
            i <= upto <= edges@.len(),
            forall|k: int| 0 <= k < i ==> edges@[k].id@ != id@,
        decreases upto - i,
    {
        if edges[i].id == *id {
            assert(edge_ids(edges@.take(upto as int))[i as int] == id@);
            return true;
        }
        i += 1;
    }
    assert forall|k: int| 0 <= k < upto implies edge_ids(edges@.take(upto as int))[k] != id@ by {
        assert(edge_ids(edges@.take(upto as int))[k] == edges@[k].id@);
    }
    false
}

/// Whether any node of `nodes` has the id `id`.
pub(crate) fn has_node_id(nodes: &Vec<Node>, id: &String) -> (r: bool)
    ensures
        r == node_ids(nodes@).contains(id@),
{
    let r = node_id_among(nodes, nodes.len(), id);
    assert(nodes@.take(nodes@.len() as int) =~= nodes@);
    r
}

/// Whether any edge of `edges` has the id `id`.
pub(crate) fn has_edge_id(edges: &Vec<Edge>, id: &String) -> (r: bool)
    ensures
        r == edge_ids(edges@).contains(id@),
{
    let r = edge_id_among(edges, edges.len(), id);
    assert(edges@.take(edges@.len() as int) =~= edges@);
    r
}

/// Checks a canvas against the document rules and reports every broken one,
/// not only the first: each node whose id an earlier node already has, and,
/// edge by edge, a duplicate edge id and each end that names no node (an
/// edge dangling at both ends is reported twice).
pub fn validate(canvas: &Canvas) -> (r: Result<(), Vec<ValidationError>>)
    ensures
        match r {
            Ok(_) => validation_errors(canvas@).len() == 0,
            Err(errors) => errors@ == validation_errors(canvas@) && errors@.len() > 0,
        },
{
    let mut errors: Vec<ValidationError> = Vec::new();
    let nn = canvas.nodes.len();
    let mut i: usize = 0;
    while i < nn
        invariant
            nn == canvas.nodes@.len(),
            i <= nn,
            errors@ == node_errors(canvas.nodes@.take(i as int)),
        decreases nn - i,
    {
        let ghost before = errors@;
        assert(canvas.nodes@.take(i + 1).drop_last() =~= canvas.nodes@.take(i as int));
        assert(canvas.nodes@.take(i + 1).last() == canvas.nodes@[i as int]);
        if node_id_among(&canvas.nodes, i, &canvas.nodes[i].id) {
            errors.push(ValidationError::DuplicateNodeId(canvas.nodes[i].id.clone()));
            assert(errors@ =~= before + seq![ValidationError::DuplicateNodeId(canvas.nodes@[i as int].id)]);
        } else {
            assert(errors@ =~= before + Seq::<ValidationError>::empty());
        }
        i += 1;
    }
    assert(canvas.nodes@.take(nn as int) =~= canvas.nodes@);
    let ghost ids = node_ids(canvas.nodes@);
    let ghost base = errors@;
    let ne = canvas.edges.len();
    let mut j: usize = 0;
    while j < ne
        invariant
            ne == canvas.edges@.len(),
            j <= ne,
            ids == node_ids(canvas.nodes@),
            errors@ == base + edge_errors(canvas.edges@.take(j as int), ids),
        decreases ne - j,
    {
        let ghost before = errors@;
        let ghost prev = canvas.edges@.take(j as int);
        let edge = &canvas.edges[j];
        assert(canvas.edges@.take(j + 1).drop_last() =~= prev);
        assert(canvas.edges@.take(j + 1).last() == *edge);
        let ghost dup: Seq<ValidationError> = if edge_ids(prev).contains(edge.id@) {
            seq![ValidationError::DuplicateEdgeId(edge.id)]
        } else {
            Seq::empty()
        };
        if edge_id_among(&canvas.edges, j, &edge.id) {
            errors.push(ValidationError::DuplicateEdgeId(edge.id.clone()));
        }
        assert(errors@ =~= before + dup);
        let ghost after_dup = errors@;
        if !has_node_id(&canvas.nodes, &edge.from_node) {
            errors.push(
                ValidationError::DanglingEdge { edge: edge.id.clone(), node: edge.from_node.clone() },
            );
        }
        assert(errors@ =~= after_dup + dangling(*edge, edge.from_node, ids));
        let ghost after_from = errors@;
        if !has_node_id(&canvas.nodes, &edge.to_node) {
            errors.push(
                ValidationError::DanglingEdge { edge: edge.id.clone(), node: edge.to_node.clone() },
            );
        }
        assert(errors@ =~= after_from + dangling(*edge, edge.to_node, ids));
        assert(edge_step(prev, *edge, ids) =~= dup + dangling(*edge, edge.from_node, ids) + dangling(
            *edge,
            edge.to_node,
            ids,
        ));
        assert(edge_errors(canvas.edges@.take(j + 1), ids) == edge_errors(prev, ids) + edge_step(
            prev,
            *edge,
            ids,
        ));
        assert(errors@ =~= base + edge_errors(canvas.edges@.take(j + 1), ids));
        j += 1;
    }
    assert(canvas.edges@.take(ne as int) =~= canvas.edges@);
    if errors.len() == 0 {
        Ok(())
    } else {
        Err(errors)
    }
}

/// A sequence is free of duplicates exactly when its prefix is and its last
/// element does not occur in that prefix.
pub proof fn lemma_no_duplicates_last<A>(s: Seq<A>)
    requires
        s.len() > 0,
    ensures
        s.no_duplicates() <==> (s.drop_last().no_duplicates() && !s.drop_last().contains(s.last())),
{
    let p = s.drop_last();
    if s.no_duplicates() {
        assert forall|i: int, j: int| 0 <= i < p.len() && 0 <= j < p.len() && i != j implies p[i]
            != p[j] by {
            assert(p[i] == s[i] && p[j] == s[j]);
        }
        if p.contains(s.last()) {
            let k = choose|k: int| 0 <= k < p.len() && p[k] == s.last();
            assert(s[k] == s[s.len() - 1]);
        }
    }
    if p.no_duplicates() && !p.contains(s.last()) {
        assert forall|i: int, j: int| 0 <= i < s.len() && 0 <= j < s.len() && i != j implies s[i]
            != s[j] by {
            if i < s.len() - 1 && j < s.len() - 1 {
                assert(p[i] == s[i] && p[j] == s[j]);
            } else if i < s.len() - 1 {
                assert(p[i] == s[i]);
            } else {
                assert(p[j] == s[j]);
            }
        }
    }
}

/// `node_errors` is empty exactly when the node ids are all distinct.
pub proof fn lemma_node_errors_empty(nodes: Seq<Node>)
    ensures
        node_errors(nodes).len() == 0 <==> node_ids(nodes).no_duplicates(),
    decreases nodes.len(),
{
    if nodes.len() > 0 {
        let prev = nodes.drop_last();
        lemma_node_errors_empty(prev);
        assert(node_ids(nodes).drop_last() =~= node_ids(prev));
        assert(node_ids(nodes).last() == nodes.last().id@);
        lemma_no_duplicates_last(node_ids(nodes));
    } else {
        assert(node_ids(nodes).len() == 0);
    }
}

/// Both ends of every edge in `edges` occur in `ids`.
pub open spec fn ends_resolve(edges: Seq<Edge>, ids: Seq<Seq<char>>) -> bool {
    forall|j: int|
        #![trigger edges[j]]
        0 <= j < edges.len() ==> ids.contains(edges[j].from_node@) && ids.contains(edges[j].to_node@)
}

/// `edge_errors` is empty exactly when the edge ids are all distinct and both
/// ends of every edge occur in `ids`.
pub proof fn lemma_edge_errors_empty(edges: Seq<Edge>, ids: Seq<Seq<char>>)
    ensures
        edge_errors(edges, ids).len() == 0 <==> (edge_ids(edges).no_duplicates() && ends_resolve(
            edges,
            ids,
        )),
    decreases edges.len(),
{
    if edges.len() > 0 {
        let prev = edges.drop_last();
        let e = edges.last();
        lemma_edge_errors_empty(prev, ids);
        assert(edge_ids(edges).drop_last() =~= edge_ids(prev));
        assert(edge_ids(edges).last() == e.id@);
        lemma_no_duplicates_last(edge_ids(edges));
        assert(forall|j: int| 0 <= j < prev.len() ==> prev[j] == edges[j]);
        assert(edge_errors(edges, ids) == edge_errors(prev, ids) + edge_step(prev, e, ids));
        let step_empty = edge_step(prev, e, ids).len() == 0;
        assert(step_empty <==> (!edge_ids(prev).contains(e.id@) && ids.contains(e.from_node@)
            && ids.contains(e.to_node@)));
        assert(ends_resolve(edges, ids) <==> (ends_resolve(prev, ids) && ids.contains(e.from_node@)
            && ids.contains(e.to_node@))) by {
            if ends_resolve(edges, ids) {
                assert forall|j: int| 0 <= j < prev.len() implies ids.contains(
                    #[trigger] prev[j].from_node@,
                ) && ids.contains(prev[j].to_node@) by {
                    assert(prev[j] == edges[j]);
                }
                assert(ids.contains(edges[edges.len() - 1].from_node@));
            }
            if ends_resolve(prev, ids) && ids.contains(e.from_node@) && ids.contains(e.to_node@) {
                assert forall|j: int| 0 <= j < edges.len() implies ids.contains(
                    #[trigger] edges[j].from_node@,
                ) && ids.contains(edges[j].to_node@) by {
                    if j < prev.len() {
                        assert(prev[j] == edges[j]);
                    }
                }
            }
        }
    } else {
        assert(edge_ids(edges).len() == 0);
    }
}

/// Validation accepts exactly the well-formed documents: `validate` reports
/// no error if and only if node ids are unique, edge ids are unique and every
/// edge end names a node.
pub proof fn lemma_valid_iff_well_formed(c: CanvasView)
    ensures
        validation_errors(c).len() == 0 <==> c.well_formed(),
{
    lemma_node_errors_empty(c.nodes);
    lemma_edge_errors_empty(c.edges, node_ids(c.nodes));
}

/// Every duplicate-id error among nodes names a node whose id an earlier
/// node already has, and carries that node's id.
proof fn lemma_node_errors_sound(nodes: Seq<Node>)
    ensures
        forall|i: int|
            0 <= i < node_errors(nodes).len() ==> exists|j: int, k: int|
                0 <= j < k < nodes.len() && nodes[j].id@ == nodes[k].id@ && #[trigger] node_errors(
                    nodes,
                )[i] == ValidationError::DuplicateNodeId(nodes[k].id),
    decreases nodes.len(),
{
    if nodes.len() > 0 {
        let prev = nodes.drop_last();
        lemma_node_errors_sound(prev);
        let n = nodes.last();
        let e = node_errors(nodes);
        let ep = node_errors(prev);
        assert forall|i: int| 0 <= i < e.len() implies exists|j: int, k: int|
            0 <= j < k < nodes.len() && nodes[j].id@ == nodes[k].id@ && #[trigger] e[i]
                == ValidationError::DuplicateNodeId(nodes[k].id) by {
            if i < ep.len() {
                assert(e[i] == ep[i]);
                let (j, k) = choose|j: int, k: int|
                    0 <= j < k < prev.len() && prev[j].id@ == prev[k].id@ && ep[i]
                        == ValidationError::DuplicateNodeId(prev[k].id);
                assert(prev[j] == nodes[j] && prev[k] == nodes[k]);
            } else {
                assert(node_ids(prev).contains(n.id@));
                let j = choose|j: int| 0 <= j < node_ids(prev).len() && node_ids(prev)[j] == n.id@;
                assert(prev[j] == nodes[j]);
                assert(nodes[j].id@ == nodes[nodes.len() - 1].id@);
            }
        }
    }
}

/// Every node whose id an earlier node already has is reported, with its id.
proof fn lemma_node_errors_complete(nodes: Seq<Node>, j: int, k: int)
    requires
        0 <= j < k < nodes.len(),
        nodes[j].id@ == nodes[k].id@,
    ensures
        node_errors(nodes).contains(ValidationError::DuplicateNodeId(nodes[k].id)),
    decreases nodes.len(),
{
    let prev = nodes.drop_last();
    let e = node_errors(nodes);
    let ep = node_errors(prev);
    if k < nodes.len() - 1 {
        assert(prev[j] == nodes[j] && prev[k] == nodes[k]);
        lemma_node_errors_complete(prev, j, k);
        let i = choose|i: int| 0 <= i < ep.len() && ep[i] == ValidationError::DuplicateNodeId(nodes[k].id);
        assert(e[i] == ep[i]);
    } else {
        assert(node_ids(prev)[j] == nodes[j].id@);
        assert(e[ep.len() as int] == ValidationError::DuplicateNodeId(nodes[k].id));
    }
}

/// Every edge error is a real fault: a duplicate id that an earlier edge
/// already has, or an end of some edge that names no id in `ids`; each
/// carries the ids of the offending edge and end.
proof fn lemma_edge_errors_sound(edges: Seq<Edge>, ids: Seq<Seq<char>>)
    ensures
        forall|i: int|
            0 <= i < edge_errors(edges, ids).len() ==> {
                ||| exists|j: int, k: int|
                    0 <= j < k < edges.len() && edges[j].id@ == edges[k].id@ && #[trigger] edge_errors(
                        edges,
                        ids,
                    )[i] == ValidationError::DuplicateEdgeId(edges[k].id)
                ||| exists|k: int|
                    0 <= k < edges.len() && !ids.contains(edges[k].from_node@) && edge_errors(
                        edges,
                        ids,
                    )[i] == (ValidationError::DanglingEdge {
                        edge: edges[k].id,
                        node: edges[k].from_node,
                    })
                ||| exists|k: int|
                    0 <= k < edges.len() && !ids.contains(edges[k].to_node@) && edge_errors(
                        edges,
                        ids,
                    )[i] == (ValidationError::DanglingEdge {
                        edge: edges[k].id,
                        node: edges[k].to_node,
                    })
            },
    decreases edges.len(),
{
    if edges.len() > 0 {
        let prev = edges.drop_last();
        lemma_edge_errors_sound(prev, ids);
        let n = edges.last();
        let last = edges.len() - 1;
        let e = edge_errors(edges, ids);
        let ep = edge_errors(prev, ids);
        let dup: Seq<ValidationError> = if edge_ids(prev).contains(n.id@) {
            seq![ValidationError::DuplicateEdgeId(n.id)]
        } else {
            Seq::empty()
        };
        let df = dangling(n, n.from_node, ids);
        let dt = dangling(n, n.to_node, ids);
        assert(e == ep + (dup + df + dt));
        assert(forall|k: int| 0 <= k < prev.len() ==> prev[k] == edges[k]);
        assert forall|i: int| 0 <= i < e.len() implies {
            ||| exists|j: int, k: int|
                0 <= j < k < edges.len() && edges[j].id@ == edges[k].id@ && #[trigger] e[i]
                    == ValidationError::DuplicateEdgeId(edges[k].id)
            ||| exists|k: int|
                0 <= k < edges.len() && !ids.contains(edges[k].from_node@) && e[i]
                    == (ValidationError::DanglingEdge { edge: edges[k].id, node: edges[k].from_node })
            ||| exists|k: int|
                0 <= k < edges.len() && !ids.contains(edges[k].to_node@) && e[i]
                    == (ValidationError::DanglingEdge { edge: edges[k].id, node: edges[k].to_node })
        } by {
            if i < ep.len() {
                assert(e[i] == ep[i]);
                assert(ep[i] == ep[i]);
            } else if i < ep.len() + dup.len() {
                let j = choose|j: int| 0 <= j < edge_ids(prev).len() && edge_ids(prev)[j] == n.id@;
                assert(edges[j].id@ == edges[last].id@);
                assert(e[i] == ValidationError::DuplicateEdgeId(edges[last].id));
            } else if i < ep.len() + dup.len() + df.len() {
                assert(e[i] == df[i - ep.len() - dup.len()]);
                assert(!ids.contains(edges[last].from_node@));
            } else {
                assert(e[i] == dt[i - ep.len() - dup.len() - df.len()]);
                assert(!ids.contains(edges[last].to_node@));
            }
        }
    }
}

/// Every duplicate edge id and every end that names no id in `ids` is
/// reported.
proof fn lemma_edge_errors_complete(edges: Seq<Edge>, ids: Seq<Seq<char>>, k: int)
    requires
        0 <= k < edges.len(),
    ensures
        forall|j: int|
            0 <= j < k && edges[j].id@ == edges[k].id@ ==> edge_errors(edges, ids).contains(
                ValidationError::DuplicateEdgeId(edges[k].id),
            ),
        !ids.contains(edges[k].from_node@) ==> edge_errors(edges, ids).contains(
            ValidationError::DanglingEdge { edge: edges[k].id, node: edges[k].from_node },
        ),
        !ids.contains(edges[k].to_node@) ==> edge_errors(edges, ids).contains(
            ValidationError::DanglingEdge { edge: edges[k].id, node: edges[k].to_node },
        ),
    decreases edges.len(),
{
    let prev = edges.drop_last();
    let n = edges.last();
    let e = edge_errors(edges, ids);
    let ep = edge_errors(prev, ids);
    let dup: Seq<ValidationError> = if edge_ids(prev).contains(n.id@) {
        seq![ValidationError::DuplicateEdgeId(n.id)]
    } else {
        Seq::empty()
    };
    let df = dangling(n, n.from_node, ids);
    let dt = dangling(n, n.to_node, ids);
    assert(e == ep + (dup + df + dt));
    assert(forall|m: int| 0 <= m < prev.len() ==> prev[m] == edges[m]);
    if k < edges.len() - 1 {
        lemma_edge_errors_complete(prev, ids, k);
        assert forall|x: ValidationError| ep.contains(x) implies e.contains(x) by {
            let i = choose|i: int| 0 <= i < ep.len() && ep[i] == x;
            assert(e[i] == x);
        }
        assert forall|j: int|
            0 <= j < k && edges[j].id@ == edges[k].id@ implies e.contains(
            ValidationError::DuplicateEdgeId(edges[k].id),
        ) by {
            assert(prev[j] == edges[j]);
        }
    } else {
        assert forall|j: int|
            0 <= j < k && edges[j].id@ == edges[k].id@ implies e.contains(
            ValidationError::DuplicateEdgeId(edges[k].id),
        ) by {
            assert(edge_ids(prev)[j] == edges[j].id@);
            assert(e[ep.len() as int] == ValidationError::DuplicateEdgeId(edges[k].id));
        }
        if !ids.contains(edges[k].from_node@) {
            assert(e[(ep.len() + dup.len()) as int] == df[0]);
        }
        if !ids.contains(edges[k].to_node@) {
            assert(e[(ep.len() + dup.len() + df.len()) as int] == dt[0]);
        }
    }
}

/// `validate` reports exactly the faults of a document and nothing else: an
/// error is among those reported if and only if it names a node whose id an
/// earlier node already has, an edge whose id an earlier edge already has, or
/// an edge together with one of its ends that names no node.
pub proof fn law_validation_reports_exactly_the_faults(c: CanvasView, x: ValidationError)
    ensures
        validation_errors(c).contains(x) <==> {
            ||| exists|j: int, k: int|
                0 <= j < k < c.nodes.len() && c.nodes[j].id@ == c.nodes[k].id@ && x
                    == ValidationError::DuplicateNodeId(c.nodes[k].id)
            ||| exists|j: int, k: int|
                0 <= j < k < c.edges.len() && c.edges[j].id@ == c.edges[k].id@ && x
                    == ValidationError::DuplicateEdgeId(c.edges[k].id)
            ||| exists|k: int|
                0 <= k < c.edges.len() && !node_ids(c.nodes).contains(c.edges[k].from_node@) && x
                    == (ValidationError::DanglingEdge {
                    edge: c.edges[k].id,
                    node: c.edges[k].from_node,
                })
            ||| exists|k: int|
                0 <= k < c.edges.len() && !node_ids(c.nodes).contains(c.edges[k].to_node@) && x
                    == (ValidationError::DanglingEdge {
                    edge: c.edges[k].id,
                    node: c.edges[k].to_node,
                })
        },
{
    let ids = node_ids(c.nodes);
    let ne = node_errors(c.nodes);
    let ee = edge_errors(c.edges, ids);
    let all = validation_errors(c);
    assert(all == ne + ee);
    lemma_node_errors_sound(c.nodes);
    lemma_edge_errors_sound(c.edges, ids);
    if all.contains(x) {
        let i = choose|i: int| 0 <= i < all.len() && all[i] == x;
        if i < ne.len() {
            assert(ne[i] == x);
        } else {
            assert(ee[i - ne.len()] == x);
        }
    }
    assert forall|y: ValidationError| ne.contains(y) implies all.contains(y) by {
        let i = choose|i: int| 0 <= i < ne.len() && ne[i] == y;
        assert(all[i] == y);
    }
    assert forall|y: ValidationError| ee.contains(y) implies all.contains(y) by {
        let i = choose|i: int| 0 <= i < ee.len() && ee[i] == y;
        assert(all[ne.len() + i] == y);
    }
    if exists|j: int, k: int|
        0 <= j < k < c.nodes.len() && c.nodes[j].id@ == c.nodes[k].id@ && x
            == ValidationError::DuplicateNodeId(c.nodes[k].id) {
        let (j, k) = choose|j: int, k: int|
            0 <= j < k < c.nodes.len() && c.nodes[j].id@ == c.nodes[k].id@ && x
                == ValidationError::DuplicateNodeId(c.nodes[k].id);
        lemma_node_errors_complete(c.nodes, j, k);
    }
    if exists|j: int, k: int|
        0 <= j < k < c.edges.len() && c.edges[j].id@ == c.edges[k].id@ && x
            == ValidationError::DuplicateEdgeId(c.edges[k].id) {
        let (j, k) = choose|j: int, k: int|
            0 <= j < k < c.edges.len() && c.edges[j].id@ == c.edges[k].id@ && x
                == ValidationError::DuplicateEdgeId(c.edges[k].id);
        lemma_edge_errors_complete(c.edges, ids, k);
    }
    if exists|k: int|
        0 <= k < c.edges.len() && !ids.contains(c.edges[k].from_node@) && x
            == (ValidationError::DanglingEdge { edge: c.edges[k].id, node: c.edges[k].from_node }) {
        let k = choose|k: int|
            0 <= k < c.edges.len() && !ids.contains(c.edges[k].from_node@) && x
                == (ValidationError::DanglingEdge { edge: c.edges[k].id, node: c.edges[k].from_node });
        lemma_edge_errors_complete(c.edges, ids, k);
    }
    if exists|k: int|
        0 <= k < c.edges.len() && !ids.contains(c.edges[k].to_node@) && x
            == (ValidationError::DanglingEdge { edge: c.edges[k].id, node: c.edges[k].to_node }) {
        let k = choose|k: int|
            0 <= k < c.edges.len() && !ids.contains(c.edges[k].to_node@) && x
                == (ValidationError::DanglingEdge { edge: c.edges[k].id, node: c.edges[k].to_node });
        lemma_edge_errors_complete(c.edges, ids, k);
    }
}

} // verus!
