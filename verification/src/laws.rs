//! What every mutation keeps and what one call undoes, stated over the
//! canvas model that the mutations' own contracts use.
use vstd::prelude::*;

use crate::model::{edge_ids, node_ids, CanvasView, Edge, Node, NodeKind};
use crate::mutate::{
    edge_not_named, edge_not_touching, first_node_at, lemma_first_occurrence, lemma_node_position,
    is_text_at, moved, node_not_named, node_position, resized, retexted, with_edge_added, with_edge_removed,
    with_node_added, with_node_moved, with_node_removed, with_node_resized, with_text_set,
};
use crate::validate::{lemma_no_duplicates_last, lemma_valid_iff_well_formed, validation_errors};

verus! {

/// Whatever a filtered sequence maps to, the whole sequence maps to as well.
proof fn lemma_filter_mapped_contains<A, B>(
    s: Seq<A>,
    p: spec_fn(A) -> bool,
    f: spec_fn(A) -> B,
    x: B,
)
    requires
        s.filter(p).map_values(f).contains(x),
    ensures
        s.map_values(f).contains(x),
{
    let fs = s.filter(p);
    let k = choose|k: int| 0 <= k < fs.map_values(f).len() && fs.map_values(f)[k] == x;
    let a = fs[k];
    assert(fs.contains(a));
    s.lemma_filter_contains_rev(p, a);
    let m = choose|m: int| 0 <= m < s.len() && s[m] == a;
    assert(s.map_values(f)[m] == x);
}

/// Filtering keeps distinct keys distinct.
proof fn lemma_filter_map_no_duplicates<A, B>(s: Seq<A>, p: spec_fn(A) -> bool, f: spec_fn(A) -> B)
    requires
        s.map_values(f).no_duplicates(),
    ensures
        s.filter(p).map_values(f).no_duplicates(),
    decreases s.len(),
{
    reveal(Seq::filter);
    if s.len() > 0 {
        let prev = s.drop_last();
        assert(s.map_values(f).drop_last() =~= prev.map_values(f));
        assert(s.map_values(f).last() == f(s.last()));
        lemma_no_duplicates_last(s.map_values(f));
        lemma_filter_map_no_duplicates(prev, p, f);
        if p(s.last()) {
            let fs = s.filter(p);
            assert(fs == prev.filter(p).push(s.last()));
            assert(fs.map_values(f).drop_last() =~= prev.filter(p).map_values(f));
            assert(fs.map_values(f).last() == f(s.last()));
            if prev.filter(p).map_values(f).contains(f(s.last())) {
                lemma_filter_mapped_contains(prev, p, f, f(s.last()));
            }
            lemma_no_duplicates_last(fs.map_values(f));
        } else {
            assert(s.filter(p) == prev.filter(p));
        }
    } else {
        assert(s.filter(p).map_values(f).len() == 0);
    }
}

/// A filter that every element passes keeps the sequence as it is.
proof fn lemma_filter_all<A>(s: Seq<A>, p: spec_fn(A) -> bool)
    requires
        forall|i: int| 0 <= i < s.len() ==> #[trigger] p(s[i]),
    ensures
        s.filter(p) == s,
    decreases s.len(),
{
    reveal(Seq::filter);
    if s.len() > 0 {
        let prev = s.drop_last();
        assert forall|i: int| 0 <= i < prev.len() implies #[trigger] p(prev[i]) by {
            assert(prev[i] == s[i]);
        }
        lemma_filter_all(prev, p);
        assert(p(s[s.len() - 1]));
        assert(prev.push(s.last()) =~= s);
    }
}

/// An element that passes the filter is still found among the filtered ids.
proof fn lemma_node_kept(nodes: Seq<Node>, id: Seq<char>, x: Seq<char>)
    requires
        node_ids(nodes).contains(x),
        x != id,
    ensures
        node_ids(nodes.filter(node_not_named(id))).contains(x),
{
    let k = choose|k: int| 0 <= k < node_ids(nodes).len() && node_ids(nodes)[k] == x;
    assert(nodes[k].id@ == x);
    nodes.lemma_filter_contains(node_not_named(id), k);
    let fs = nodes.filter(node_not_named(id));
    let m = choose|m: int| 0 <= m < fs.len() && fs[m] == nodes[k];
    assert(node_ids(fs)[m] == x);
}

/// An edge of a filtered edge sequence is an edge of the whole sequence.
proof fn lemma_edge_from_filter(edges: Seq<Edge>, p: spec_fn(Edge) -> bool, j: int) -> (k: int)
    requires
        0 <= j < edges.filter(p).len(),
    ensures
        0 <= k < edges.len(),
        edges[k] == edges.filter(p)[j],
        p(edges.filter(p)[j]),
{
    let fs = edges.filter(p);
    assert(fs.contains(fs[j]));
    edges.lemma_filter_contains_rev(p, fs[j]);
    edges.lemma_filter_pred(p, j);
    choose|k: int| 0 <= k < edges.len() && edges[k] == fs[j]
}

/// Removing a node keeps a valid document valid: the cascade takes every
/// edge attached to the node, so no edge is left dangling, and afterwards no
/// node has that id and no edge starts or ends there.
pub proof fn law_remove_node_keeps_valid(c: CanvasView, id: Seq<char>)
    requires
        validation_errors(c).len() == 0,
    ensures
        validation_errors(with_node_removed(c, id)).len() == 0,
        !with_node_removed(c, id).has_node(id),
        forall|j: int|
            0 <= j < with_node_removed(c, id).edges.len() ==> (#[trigger] with_node_removed(
                c,
                id,
            ).edges[j]).from_node@ != id && with_node_removed(c, id).edges[j].to_node@ != id,
{
    let r = with_node_removed(c, id);
    lemma_valid_iff_well_formed(c);
    lemma_valid_iff_well_formed(r);
    lemma_filter_map_no_duplicates(c.nodes, node_not_named(id), |n: Node| n.id@);
    assert(node_ids(r.nodes) == r.nodes.map_values(|n: Node| n.id@));
    lemma_filter_map_no_duplicates(c.edges, edge_not_touching(id), |e: Edge| e.id@);
    assert(edge_ids(r.edges) == r.edges.map_values(|e: Edge| e.id@));
    assert forall|j: int| #![trigger r.edges[j]] 0 <= j < r.edges.len() implies r.has_node(
        r.edges[j].from_node@,
    ) && r.has_node(r.edges[j].to_node@) && r.edges[j].from_node@ != id && r.edges[j].to_node@
        != id by {
        let k = lemma_edge_from_filter(c.edges, edge_not_touching(id), j);
        assert(c.edges[k] == r.edges[j]);
        lemma_node_kept(c.nodes, id, r.edges[j].from_node@);
        lemma_node_kept(c.nodes, id, r.edges[j].to_node@);
    }
    if r.has_node(id) {
        let m = choose|m: int| 0 <= m < node_ids(r.nodes).len() && node_ids(r.nodes)[m] == id;
        c.nodes.lemma_filter_pred(node_not_named(id), m);
    }
}

/// Validity looks only at the node ids and the edges.
proof fn lemma_same_ids_same_validity(c: CanvasView, d: CanvasView)
    requires
        node_ids(c.nodes) == node_ids(d.nodes),
        c.edges == d.edges,
    ensures
        (validation_errors(c).len() == 0) == (validation_errors(d).len() == 0),
{
    lemma_valid_iff_well_formed(c);
    lemma_valid_iff_well_formed(d);
}

/// Putting a node whose id is new on top keeps a valid document valid.
pub proof fn law_add_node_keeps_valid(c: CanvasView, node: Node)
    requires
        validation_errors(c).len() == 0,
        !c.has_node(node.id@),
    ensures
        validation_errors(with_node_added(c, node)).len() == 0,
        with_node_added(c, node).has_node(node.id@),
{
    let r = with_node_added(c, node);
    lemma_valid_iff_well_formed(c);
    lemma_valid_iff_well_formed(r);
    assert(node_ids(r.nodes).drop_last() =~= node_ids(c.nodes));
    assert(node_ids(r.nodes).last() == node.id@);
    lemma_no_duplicates_last(node_ids(r.nodes));
    assert forall|x: Seq<char>| c.has_node(x) implies r.has_node(x) by {
        let k = choose|k: int| 0 <= k < node_ids(c.nodes).len() && node_ids(c.nodes)[k] == x;
        assert(node_ids(r.nodes)[k] == x);
    }
    assert forall|j: int| #![trigger r.edges[j]] 0 <= j < r.edges.len() implies r.has_node(
        r.edges[j].from_node@,
    ) && r.has_node(r.edges[j].to_node@) by {
        assert(c.edges[j] == r.edges[j]);
    }
    assert(node_ids(r.nodes)[c.nodes.len() as int] == node.id@);
}

/// Appending an edge whose id is new and whose two ends name nodes keeps a
/// valid document valid.
pub proof fn law_add_edge_keeps_valid(c: CanvasView, edge: Edge)
    requires
        validation_errors(c).len() == 0,
        !c.has_edge(edge.id@),
        c.has_node(edge.from_node@),
        c.has_node(edge.to_node@),
    ensures
        validation_errors(with_edge_added(c, edge)).len() == 0,
{
    let r = with_edge_added(c, edge);
    lemma_valid_iff_well_formed(c);
    lemma_valid_iff_well_formed(r);
    assert(edge_ids(r.edges).drop_last() =~= edge_ids(c.edges));
    assert(edge_ids(r.edges).last() == edge.id@);
    lemma_no_duplicates_last(edge_ids(r.edges));
    assert forall|j: int| #![trigger r.edges[j]] 0 <= j < r.edges.len() implies r.has_node(
        r.edges[j].from_node@,
    ) && r.has_node(r.edges[j].to_node@) by {
        if j < c.edges.len() {
            assert(c.edges[j] == r.edges[j]);
        }
    }
}

/// Removing an edge keeps a valid document valid and leaves no edge with
/// that id.
pub proof fn law_remove_edge_keeps_valid(c: CanvasView, id: Seq<char>)
    requires
        validation_errors(c).len() == 0,
    ensures
        validation_errors(with_edge_removed(c, id)).len() == 0,
        !with_edge_removed(c, id).has_edge(id),
{
    let r = with_edge_removed(c, id);
    lemma_valid_iff_well_formed(c);
    lemma_valid_iff_well_formed(r);
    lemma_filter_map_no_duplicates(c.edges, edge_not_named(id), |e: Edge| e.id@);
    assert(edge_ids(r.edges) == r.edges.map_values(|e: Edge| e.id@));
    assert forall|j: int| #![trigger r.edges[j]] 0 <= j < r.edges.len() implies r.has_node(
        r.edges[j].from_node@,
    ) && r.has_node(r.edges[j].to_node@) by {
        let k = lemma_edge_from_filter(c.edges, edge_not_named(id), j);
        assert(c.edges[k] == r.edges[j]);
    }
    if r.has_edge(id) {
        let m = choose|m: int| 0 <= m < edge_ids(r.edges).len() && edge_ids(r.edges)[m] == id;
        c.edges.lemma_filter_pred(edge_not_named(id), m);
    }
}

/// Replacing the node at `p` by one with the same id keeps the id sequence.
proof fn lemma_update_same_id(nodes: Seq<Node>, p: int, n: Node)
    requires
        0 <= p < nodes.len(),
        n.id@ == nodes[p].id@,
    ensures
        node_ids(nodes.update(p, n)) == node_ids(nodes),
{
    assert(node_ids(nodes.update(p, n)) =~= node_ids(nodes));
}

/// Moving, resizing or retexting a node changes neither the node ids nor
/// their order (the z-order) nor any edge, so a valid document stays valid.
pub proof fn law_node_edits_keep_ids_and_validity(
    c: CanvasView,
    id: Seq<char>,
    x: i64,
    y: i64,
    width: i64,
    height: i64,
    text: String,
)
    requires
        c.has_node(id),
    ensures
        node_ids(with_node_moved(c, id, x, y).nodes) == node_ids(c.nodes),
        node_ids(with_node_resized(c, id, width, height).nodes) == node_ids(c.nodes),
        node_ids(with_text_set(c, id, text).nodes) == node_ids(c.nodes),
        with_node_moved(c, id, x, y).edges == c.edges,
        with_node_resized(c, id, width, height).edges == c.edges,
        with_text_set(c, id, text).edges == c.edges,
        validation_errors(c).len() == 0 ==> validation_errors(with_node_moved(c, id, x, y)).len()
            == 0,
        validation_errors(c).len() == 0 ==> validation_errors(
            with_node_resized(c, id, width, height),
        ).len() == 0,
        validation_errors(c).len() == 0 ==> validation_errors(with_text_set(c, id, text)).len()
            == 0,
{
    let k = choose|k: int| 0 <= k < node_ids(c.nodes).len() && node_ids(c.nodes)[k] == id;
    assert(c.nodes[k].id@ == id);
    lemma_first_occurrence(c.nodes, id, k);
    let p = node_position(c.nodes, id);
    lemma_update_same_id(c.nodes, p, moved(c.nodes[p], x, y));
    lemma_update_same_id(c.nodes, p, resized(c.nodes[p], width, height));
    lemma_update_same_id(c.nodes, p, retexted(c.nodes[p], text));
    lemma_same_ids_same_validity(c, with_node_moved(c, id, x, y));
    lemma_same_ids_same_validity(c, with_node_resized(c, id, width, height));
    lemma_same_ids_same_validity(c, with_text_set(c, id, text));
}

/// Moving a node and then moving it back to where it was restores the
/// document exactly.
pub proof fn law_move_back_restores(c: CanvasView, id: Seq<char>, x: i64, y: i64)
    requires
        c.has_node(id),
    ensures
        with_node_moved(
            with_node_moved(c, id, x, y),
            id,
            c.nodes[node_position(c.nodes, id)].x,
            c.nodes[node_position(c.nodes, id)].y,
        ) == c,
{
    let k = choose|k: int| 0 <= k < node_ids(c.nodes).len() && node_ids(c.nodes)[k] == id;
    assert(c.nodes[k].id@ == id);
    lemma_first_occurrence(c.nodes, id, k);
    let p = node_position(c.nodes, id);
    let m = with_node_moved(c, id, x, y);
    assert(first_node_at(m.nodes, id, p));
    lemma_node_position(m.nodes, id, p);
    let back = with_node_moved(m, id, c.nodes[p].x, c.nodes[p].y);
    assert(back.nodes =~= c.nodes);
}

/// Adding a node whose id is new to a valid document and then removing that
/// id gives back the document exactly: no edge can be attached to the new
/// node, so the cascade takes nothing.
pub proof fn law_remove_node_undoes_add_node(c: CanvasView, node: Node)
    requires
        validation_errors(c).len() == 0,
        !c.has_node(node.id@),
    ensures
        with_node_removed(with_node_added(c, node), node.id@) == c,
{
    let id = node.id@;
    let a = with_node_added(c, node);
    lemma_valid_iff_well_formed(c);
    assert forall|i: int| 0 <= i < c.nodes.len() implies #[trigger] node_not_named(id)(
        c.nodes[i],
    ) by {
        assert(node_ids(c.nodes)[i] == c.nodes[i].id@);
    }
    lemma_filter_all(c.nodes, node_not_named(id));
    reveal(Seq::filter);
    assert(a.nodes.drop_last() =~= c.nodes);
    assert(a.nodes.filter(node_not_named(id)) == c.nodes.filter(node_not_named(id)));
    assert forall|j: int| 0 <= j < c.edges.len() implies #[trigger] edge_not_touching(id)(
        c.edges[j],
    ) by {
        assert(c.has_node(c.edges[j].from_node@));
    }
    lemma_filter_all(c.edges, edge_not_touching(id));
}

/// Appending an edge whose id is new and then removing that id gives back
/// the document exactly.
pub proof fn law_remove_edge_undoes_add_edge(c: CanvasView, edge: Edge)
    requires
        !c.has_edge(edge.id@),
    ensures
        with_edge_removed(with_edge_added(c, edge), edge.id@) == c,
{
    let id = edge.id@;
    let a = with_edge_added(c, edge);
    assert forall|i: int| 0 <= i < c.edges.len() implies #[trigger] edge_not_named(id)(
        c.edges[i],
    ) by {
        assert(edge_ids(c.edges)[i] == c.edges[i].id@);
    }
    lemma_filter_all(c.edges, edge_not_named(id));
    reveal(Seq::filter);
    assert(a.edges.drop_last() =~= c.edges);
}

/// A filter picks out exactly the elements that pass, in their original
/// order: `g` maps each position of the result to the position it came from,
/// strictly increasing, onto every passing position.
proof fn lemma_filter_selects<A>(s: Seq<A>, p: spec_fn(A) -> bool) -> (g: spec_fn(int) -> int)
    ensures
        forall|i: int|
            0 <= i < s.filter(p).len() ==> 0 <= #[trigger] g(i) < s.len() && s.filter(p)[i] == s[g(
                i,
            )] && p(s[g(i)]),
        forall|i: int, j: int| 0 <= i < j < s.filter(p).len() ==> #[trigger] g(i) < #[trigger] g(j),
        forall|k: int|
            0 <= k < s.len() && p(#[trigger] s[k]) ==> exists|i: int|
                0 <= i < s.filter(p).len() && #[trigger] g(i) == k,
    decreases s.len(),
{
    reveal(Seq::filter);
    if s.len() == 0 {
        |i: int| 0
    } else {
        let prev = s.drop_last();
        let g0 = lemma_filter_selects(prev, p);
        let fp = prev.filter(p);
        let n = fp.len() as int;
        assert(forall|k: int| 0 <= k < prev.len() ==> prev[k] == s[k]);
        if p(s.last()) {
            let g = |i: int|
                if i < n {
                    g0(i)
                } else {
                    s.len() - 1
                };
            assert(s.filter(p) == fp.push(s.last()));
            assert forall|i: int| 0 <= i < s.filter(p).len() implies 0 <= #[trigger] g(i) < s.len()
                && s.filter(p)[i] == s[g(i)] && p(s[g(i)]) by {
                if i < n {
                    assert(g(i) == g0(i));
                    assert(s.filter(p)[i] == fp[i]);
                }
            }
            assert forall|i: int, j: int| 0 <= i < j < s.filter(p).len() implies #[trigger] g(i)
                < #[trigger] g(j) by {
                if j < n {
                    assert(g0(i) < g0(j));
                } else {
                    assert(g0(i) < prev.len());
                }
            }
            assert forall|k: int| 0 <= k < s.len() && p(#[trigger] s[k]) implies exists|i: int|
                0 <= i < s.filter(p).len() && #[trigger] g(i) == k by {
                if k < s.len() - 1 {
                    assert(p(prev[k]));
                    let i0 = choose|i: int| 0 <= i < fp.len() && #[trigger] g0(i) == k;
                    assert(g(i0) == k);
                } else {
                    assert(g(n) == k);
                }
            }
            g
        } else {
            assert(s.filter(p) == fp);
            assert forall|k: int| 0 <= k < s.len() && p(#[trigger] s[k]) implies exists|i: int|
                0 <= i < s.filter(p).len() && #[trigger] g0(i) == k by {
                assert(k < s.len() - 1);
                assert(p(prev[k]));
            }
            g0
        }
    }
}

/// Removing a node keeps every other node, in the same relative (z-)order,
/// and drops exactly the nodes with that id; it keeps every edge that does
/// not touch the id, in order, and drops exactly the ones that do; the
/// top-level keys are untouched.
pub proof fn law_remove_node_keeps_the_rest_in_order(c: CanvasView, id: Seq<char>) -> (g: (
    spec_fn(int) -> int,
    spec_fn(int) -> int,
))
    ensures
        forall|i: int|
            0 <= i < with_node_removed(c, id).nodes.len() ==> 0 <= #[trigger] (g.0)(i)
                < c.nodes.len() && with_node_removed(c, id).nodes[i] == c.nodes[(g.0)(i)]
                && c.nodes[(g.0)(i)].id@ != id,
        forall|i: int, j: int|
            0 <= i < j < with_node_removed(c, id).nodes.len() ==> #[trigger] (g.0)(i)
                < #[trigger] (g.0)(j),
        forall|k: int|
            0 <= k < c.nodes.len() && (#[trigger] c.nodes[k]).id@ != id ==> exists|i: int|
                0 <= i < with_node_removed(c, id).nodes.len() && #[trigger] (g.0)(i) == k,
        forall|i: int|
            0 <= i < with_node_removed(c, id).edges.len() ==> 0 <= #[trigger] (g.1)(i)
                < c.edges.len() && with_node_removed(c, id).edges[i] == c.edges[(g.1)(i)]
                && c.edges[(g.1)(i)].from_node@ != id && c.edges[(g.1)(i)].to_node@ != id,
        forall|i: int, j: int|
            0 <= i < j < with_node_removed(c, id).edges.len() ==> #[trigger] (g.1)(i)
                < #[trigger] (g.1)(j),
        forall|k: int|
            0 <= k < c.edges.len() && (#[trigger] c.edges[k]).from_node@ != id
                && c.edges[k].to_node@ != id ==> exists|i: int|
                0 <= i < with_node_removed(c, id).edges.len() && #[trigger] (g.1)(i) == k,
        with_node_removed(c, id).extra == c.extra,
{
    let r = with_node_removed(c, id);
    let gn = lemma_filter_selects(c.nodes, node_not_named(id));
    assert(r.nodes == c.nodes.filter(node_not_named(id)));
    assert forall|k: int| 0 <= k < c.nodes.len() && (#[trigger] c.nodes[k]).id@ != id implies exists|
        i: int,
    | 0 <= i < r.nodes.len() && #[trigger] gn(i) == k by {
        assert(node_not_named(id)(c.nodes[k]));
    }
    let ge = lemma_filter_selects(c.edges, edge_not_touching(id));
    assert(r.edges == c.edges.filter(edge_not_touching(id)));
    assert forall|k: int|
        0 <= k < c.edges.len() && (#[trigger] c.edges[k]).from_node@ != id && c.edges[k].to_node@
            != id implies exists|i: int| 0 <= i < r.edges.len() && #[trigger] ge(i) == k by {
        assert(edge_not_touching(id)(c.edges[k]));
    }
    (gn, ge)
}

/// The node an edit of `id` applies to: the first node with that id.
proof fn lemma_edit_target(c: CanvasView, id: Seq<char>) -> (p: int)
    requires
        c.has_node(id),
    ensures
        p == node_position(c.nodes, id),
        0 <= p < c.nodes.len(),
        c.nodes[p].id@ == id,
        forall|k: int| 0 <= k < p ==> c.nodes[k].id@ != id,
{
    let k = choose|k: int| 0 <= k < node_ids(c.nodes).len() && node_ids(c.nodes)[k] == id;
    assert(c.nodes[k].id@ == id);
    lemma_first_occurrence(c.nodes, id, k);
    node_position(c.nodes, id)
}

/// Moving a node changes the position of the first node with that id and
/// nothing else: its id, size, color, kind and unmodelled keys stay, every
/// other node stays where it is in the z-order, and the edges stay.
pub proof fn law_move_node_changes_only_the_position(c: CanvasView, id: Seq<char>, x: i64, y: i64) -> (p: int)
    requires
        c.has_node(id),
    ensures
        0 <= p < c.nodes.len(),
        c.nodes[p].id@ == id,
        forall|k: int| 0 <= k < p ==> c.nodes[k].id@ != id,
        with_node_moved(c, id, x, y).nodes.len() == c.nodes.len(),
        forall|k: int|
            0 <= k < c.nodes.len() && k != p ==> #[trigger] with_node_moved(c, id, x, y).nodes[k]
                == c.nodes[k],
        with_node_moved(c, id, x, y).nodes[p].x == x,
        with_node_moved(c, id, x, y).nodes[p].y == y,
        with_node_moved(c, id, x, y).nodes[p].id == c.nodes[p].id,
        with_node_moved(c, id, x, y).nodes[p].width == c.nodes[p].width,
        with_node_moved(c, id, x, y).nodes[p].height == c.nodes[p].height,
        with_node_moved(c, id, x, y).nodes[p].color == c.nodes[p].color,
        with_node_moved(c, id, x, y).nodes[p].kind == c.nodes[p].kind,
        with_node_moved(c, id, x, y).nodes[p].extra == c.nodes[p].extra,
        with_node_moved(c, id, x, y).edges == c.edges,
        with_node_moved(c, id, x, y).extra == c.extra,
{
    lemma_edit_target(c, id)
}

/// Resizing a node changes the size of the first node with that id and
/// nothing else: its id, position, color, kind and unmodelled keys stay,
/// every other node stays, and the edges stay.
pub proof fn law_resize_node_changes_only_the_size(
    c: CanvasView,
    id: Seq<char>,
    width: i64,
    height: i64,
) -> (p: int)
    requires
        c.has_node(id),
    ensures
        0 <= p < c.nodes.len(),
        c.nodes[p].id@ == id,
        forall|k: int| 0 <= k < p ==> c.nodes[k].id@ != id,
        with_node_resized(c, id, width, height).nodes.len() == c.nodes.len(),
        forall|k: int|
            0 <= k < c.nodes.len() && k != p ==> #[trigger] with_node_resized(
                c,
                id,
                width,
                height,
            ).nodes[k] == c.nodes[k],
        with_node_resized(c, id, width, height).nodes[p].width == width,
        with_node_resized(c, id, width, height).nodes[p].height == height,
        with_node_resized(c, id, width, height).nodes[p].id == c.nodes[p].id,
        with_node_resized(c, id, width, height).nodes[p].x == c.nodes[p].x,
        with_node_resized(c, id, width, height).nodes[p].y == c.nodes[p].y,
        with_node_resized(c, id, width, height).nodes[p].color == c.nodes[p].color,
        with_node_resized(c, id, width, height).nodes[p].kind == c.nodes[p].kind,
        with_node_resized(c, id, width, height).nodes[p].extra == c.nodes[p].extra,
        with_node_resized(c, id, width, height).edges == c.edges,
        with_node_resized(c, id, width, height).extra == c.extra,
{
    lemma_edit_target(c, id)
}

/// Setting the text of a node is accepted exactly when the first node with
/// that id is a text node, and then replaces its kind by a text body holding
/// exactly `text`, and nothing else: its id, position, size, color and
/// unmodelled keys stay, every other node stays, and the edges stay.
pub proof fn law_set_text_changes_only_the_body(c: CanvasView, id: Seq<char>, text: String) -> (p:
    int)
    requires
        c.has_node(id),
    ensures
        0 <= p < c.nodes.len(),
        c.nodes[p].id@ == id,
        forall|k: int| 0 <= k < p ==> c.nodes[k].id@ != id,
        is_text_at(c, node_position(c.nodes, id)) <==> c.nodes[p].kind is Text,
        with_text_set(c, id, text).nodes.len() == c.nodes.len(),
        forall|k: int|
            0 <= k < c.nodes.len() && k != p ==> #[trigger] with_text_set(c, id, text).nodes[k]
                == c.nodes[k],
        with_text_set(c, id, text).nodes[p].kind == (NodeKind::Text { text: text }),
        with_text_set(c, id, text).nodes[p].id == c.nodes[p].id,
        with_text_set(c, id, text).nodes[p].x == c.nodes[p].x,
        with_text_set(c, id, text).nodes[p].y == c.nodes[p].y,
        with_text_set(c, id, text).nodes[p].width == c.nodes[p].width,
        with_text_set(c, id, text).nodes[p].height == c.nodes[p].height,
        with_text_set(c, id, text).nodes[p].color == c.nodes[p].color,
        with_text_set(c, id, text).nodes[p].extra == c.nodes[p].extra,
        with_text_set(c, id, text).edges == c.edges,
        with_text_set(c, id, text).extra == c.extra,
{
    lemma_edit_target(c, id)
}

/// Adding a node puts exactly that node, every field as given, on top of
/// the others, which keep their order; the edges stay.
pub proof fn law_add_node_puts_it_on_top(c: CanvasView, node: Node)
    ensures
        with_node_added(c, node).nodes.len() == c.nodes.len() + 1,
        forall|k: int|
            0 <= k < c.nodes.len() ==> #[trigger] with_node_added(c, node).nodes[k] == c.nodes[k],
        with_node_added(c, node).nodes[c.nodes.len() as int] == node,
        with_node_added(c, node).edges == c.edges,
        with_node_added(c, node).extra == c.extra,
{
}

/// Adding an edge appends exactly that edge after the others, which keep
/// their order; the nodes stay.
pub proof fn law_add_edge_appends_it(c: CanvasView, edge: Edge)
    ensures
        with_edge_added(c, edge).edges.len() == c.edges.len() + 1,
        forall|k: int|
            0 <= k < c.edges.len() ==> #[trigger] with_edge_added(c, edge).edges[k] == c.edges[k],
        with_edge_added(c, edge).edges[c.edges.len() as int] == edge,
        with_edge_added(c, edge).nodes == c.nodes,
        with_edge_added(c, edge).extra == c.extra,
{
}

/// Removing an edge keeps every edge with another id, in order, and drops
/// exactly the ones with that id; the nodes stay.
pub proof fn law_remove_edge_keeps_the_rest_in_order(c: CanvasView, id: Seq<char>) -> (g: spec_fn(
    int,
) -> int)
    ensures
        forall|i: int|
            0 <= i < with_edge_removed(c, id).edges.len() ==> 0 <= #[trigger] g(i) < c.edges.len()
                && with_edge_removed(c, id).edges[i] == c.edges[g(i)] && c.edges[g(i)].id@ != id,
        forall|i: int, j: int|
            0 <= i < j < with_edge_removed(c, id).edges.len() ==> #[trigger] g(i) < #[trigger] g(j),
        forall|k: int|
            0 <= k < c.edges.len() && (#[trigger] c.edges[k]).id@ != id ==> exists|i: int|
                0 <= i < with_edge_removed(c, id).edges.len() && #[trigger] g(i) == k,
        with_edge_removed(c, id).nodes == c.nodes,
        with_edge_removed(c, id).extra == c.extra,
{
    let r = with_edge_removed(c, id);
    let g = lemma_filter_selects(c.edges, edge_not_named(id));
    assert(r.edges == c.edges.filter(edge_not_named(id)));
    assert forall|k: int| 0 <= k < c.edges.len() && (#[trigger] c.edges[k]).id@ != id implies exists|
        i: int,
    | 0 <= i < r.edges.len() && #[trigger] g(i) == k by {
        assert(edge_not_named(id)(c.edges[k]));
    }
    g
}

/// A canvas has a node (or an edge) with an id exactly when one of its
/// nodes (or edges) carries that id.
pub proof fn law_lookup_is_by_id(c: CanvasView, id: Seq<char>)
    ensures
        c.has_node(id) <==> exists|k: int| 0 <= k < c.nodes.len() && (#[trigger] c.nodes[k]).id@ == id,
        c.has_edge(id) <==> exists|k: int| 0 <= k < c.edges.len() && (#[trigger] c.edges[k]).id@ == id,
{
    if c.has_node(id) {
        let k = choose|k: int| 0 <= k < node_ids(c.nodes).len() && node_ids(c.nodes)[k] == id;
        assert(c.nodes[k].id@ == id);
    }
    if exists|k: int| 0 <= k < c.nodes.len() && (#[trigger] c.nodes[k]).id@ == id {
        let k = choose|k: int| 0 <= k < c.nodes.len() && (#[trigger] c.nodes[k]).id@ == id;
        assert(node_ids(c.nodes)[k] == id);
    }
    if c.has_edge(id) {
        let k = choose|k: int| 0 <= k < edge_ids(c.edges).len() && edge_ids(c.edges)[k] == id;
        assert(c.edges[k].id@ == id);
    }
    if exists|k: int| 0 <= k < c.edges.len() && (#[trigger] c.edges[k]).id@ == id {
        let k = choose|k: int| 0 <= k < c.edges.len() && (#[trigger] c.edges[k]).id@ == id;
        assert(edge_ids(c.edges)[k] == id);
    }
}

} // verus!
