//! Laws of graphs: edges, paths and cycles.
use vstd::prelude::*;

use crate::graph::{has_edge, is_closed_walk, is_cycle, is_path, Adjacency};

verus! {

/// There is an edge exactly where the list of the one node names the other.
pub proof fn law_edges_are_listed(adj: Adjacency, from: Seq<char>, to: Seq<char>)
    ensures
        has_edge(adj, from, to) <==> adj.dom().contains(from) && exists|i: int|
            0 <= i < adj[from]@.len() && (#[trigger] adj[from]@[i])@ == to,
{
    let list = adj[from]@;
    let names = crate::text::texts(list);
    if has_edge(adj, from, to) {
        let i = choose|i: int| 0 <= i < names.len() && names[i] == to;
        assert(list[i]@ == to);
    }
    if adj.dom().contains(from) && exists|i: int|
        0 <= i < list.len() && (#[trigger] list[i])@ == to {
        let i = choose|i: int| 0 <= i < list.len() && (#[trigger] list[i])@ == to;
        assert(names[i] == to);
    }
}

/// A single node is a path, and two paths with an edge between them are one.
pub proof fn law_paths_are_joined_by_edges(
    adj: Adjacency,
    node: Seq<char>,
    a: Seq<Seq<char>>,
    b: Seq<Seq<char>>,
)
    ensures
        is_path(adj, seq![node]),
        a.len() > 0 && b.len() > 0 ==> (is_path(adj, a + b) <==> is_path(adj, a) && is_path(adj, b)
            && has_edge(adj, a.last(), b[0])),
{
    let both = a + b;
    if a.len() > 0 && b.len() > 0 {
        if is_path(adj, both) {
            assert forall|i: int| 0 <= i < a.len() - 1 implies has_edge(
                adj,
                #[trigger] a[i],
                a[i + 1],
            ) by {
                assert(has_edge(adj, both[i], both[i + 1]));
            }
            assert forall|i: int| 0 <= i < b.len() - 1 implies has_edge(
                adj,
                #[trigger] b[i],
                b[i + 1],
            ) by {
                assert(has_edge(adj, both[a.len() + i], both[a.len() + i + 1]));
            }
            assert(has_edge(adj, both[a.len() - 1], both[a.len() - 1 + 1]));
        }
        if is_path(adj, a) && is_path(adj, b) && has_edge(adj, a.last(), b[0]) {
            assert forall|i: int| 0 <= i < both.len() - 1 implies has_edge(
                adj,
                #[trigger] both[i],
                both[i + 1],
            ) by {
                if i < a.len() - 1 {
                    assert(has_edge(adj, a[i], a[i + 1]));
                } else if i >= a.len() {
                    assert(has_edge(adj, b[i - a.len()], b[i - a.len() + 1]));
                }
            }
        }
    }
}

/// A path from a node that an edge leads back to from its end is closed by the edge;
/// also an edge from a node to itself is a cycle.
pub proof fn law_edge_back_closes_a_cycle(adj: Adjacency, path: Seq<Seq<char>>, node: Seq<char>)
    ensures
        has_edge(adj, node, node) <==> is_cycle(adj, seq![node, node]),
        path.len() > 0 && is_path(adj, path) && has_edge(adj, path.last(), path[0])
            ==> is_closed_walk(adj, path.push(path[0])) && (path.no_duplicates() ==> is_cycle(
            adj,
            path.push(path[0]),
        )),
{
    let pair = seq![node, node];
    if is_cycle(adj, pair) {
        let i: int = 0;
        assert(has_edge(adj, pair[i], pair[i + 1]));
    }
    assert(pair.drop_last() =~= seq![node]);
    if path.len() > 0 && is_path(adj, path) && has_edge(adj, path.last(), path[0]) {
        law_paths_are_joined_by_edges(adj, path[0], path, seq![path[0]]);
        assert(path + seq![path[0]] =~= path.push(path[0]));
        assert(path.push(path[0]).drop_last() =~= path);
    }
}

} // verus!
