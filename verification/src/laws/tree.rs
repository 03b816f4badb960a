//! Laws of the influence tree: its nodes are the seeds and the edges below them.
use vstd::prelude::*;

use crate::display::{
    child_node, children, influence_tree, influenced, is_first_showing, known_siblings,
    law_tree_shows_each_crate_once, lemma_children_known, lemma_fewer_unseen,
    lemma_influenced_finite, seed_tree, seed_trees, shown_before, shows_once, subtree, Influence,
};
use crate::names::{ascending, lemma_ascending_of};
use crate::order::{lemma_sort_by, sorted_by, strictly_sorted};
use crate::report::event::{TreeNodeKind, TreeNodeView};
use crate::semver::Bump;
use crate::types::TreeEdgeView;

verus! {

/// The edge that leads to a node: the crate that it shows and the bump.
pub open spec fn edge_to(node: TreeNodeView) -> TreeEdgeView {
    TreeEdgeView {
        child: node.name,
        bump: match node.kind {
            TreeNodeKind::Child { bump, .. } => bump,
            TreeNodeKind::Seed => Bump::Unchanged,
        },
    }
}

/// The edges to the nodes at depth `depth` from position `from` on, up to the next
/// node that is less deep.
pub open spec fn edges_at(nodes: Seq<TreeNodeView>, from: int, depth: nat) -> Seq<TreeEdgeView>
    decreases nodes.len() - from,
{
    if from < 0 || from >= nodes.len() || nodes[from].depth < depth {
        Seq::empty()
    } else if nodes[from].depth == depth {
        seq![edge_to(nodes[from])] + edges_at(nodes, from + 1, depth)
    } else {
        edges_at(nodes, from + 1, depth)
    }
}

/// The edges to the nodes directly below the node at `k`.
pub open spec fn edges_below(nodes: Seq<TreeNodeView>, k: int) -> Seq<TreeEdgeView> {
    edges_at(nodes, k + 1, nodes[k].depth + 1)
}

/// The edges to the nodes beside the node at `k` and after it.
pub open spec fn edges_beside(nodes: Seq<TreeNodeView>, k: int) -> Seq<TreeEdgeView> {
    edges_at(nodes, k + 1, nodes[k].depth)
}

/// The node shows what is below it: it is a seed, or shows its crate for the first
/// time.
pub open spec fn is_open(node: TreeNodeView) -> bool {
    match node.kind {
        TreeNodeKind::Seed => true,
        TreeNodeKind::Child { already_shown, .. } => !already_shown,
    }
}

/// The node at `k` is directly below that at `p`.
pub open spec fn is_below(nodes: Seq<TreeNodeView>, p: int, k: int) -> bool {
    &&& 0 <= p < k < nodes.len()
    &&& nodes[k].depth == nodes[p].depth + 1
    &&& forall|j: int| p < j < k ==> (#[trigger] nodes[j]).depth > nodes[p].depth
}

/// Directly below a seed, and below a crate that is shown for the first time, stand
/// exactly the edges that leave the crate, each with its own bump, in the order of
/// the names. Below a crate that was shown already stands nothing.
pub proof fn law_nodes_below_are_the_edges(edges: Influence, seeds: Set<Seq<char>>, k: int)
    requires
        edges.dom().finite(),
        0 <= k < influence_tree(edges, seeds).len(),
    ensures
        ({
            let nodes = influence_tree(edges, seeds);
            let name = nodes[k].name;
            let below = edges_below(nodes, k);
            &&& sorted_by(below, |e: TreeEdgeView| e.child)
            &&& is_open(nodes[k]) && edges.dom().contains(name) ==> below.to_multiset()
                == edges[name].to_multiset()
            &&& !is_open(nodes[k]) || !edges.dom().contains(name) ==> below.len() == 0
        }),
{
    let list = ascending(seeds);
    let nodes = influence_tree(edges, seeds);
    lemma_seed_trees(edges, list, list.len());
    assert(fits(nodes, k, edges));
    let name = nodes[k].name;
    if edges.dom().contains(name) {
        lemma_sort_by(edges[name], |e: TreeEdgeView| e.child);
    }
}

/// Each node directly below another has the name and the bump of one edge that
/// leaves the crate above.
pub proof fn law_node_has_the_bump_of_its_edge(
    edges: Influence,
    seeds: Set<Seq<char>>,
    p: int,
    k: int,
)
    requires
        edges.dom().finite(),
        is_below(influence_tree(edges, seeds), p, k),
    ensures
        ({
            let nodes = influence_tree(edges, seeds);
            &&& edges.dom().contains(nodes[p].name)
            &&& nodes[k].kind matches TreeNodeKind::Child { bump, .. }
                && edges[nodes[p].name].contains((TreeEdgeView { child: nodes[k].name, bump }))
        }),
{
    broadcast use vstd::seq_lib::group_to_multiset_ensures;

    let list = ascending(seeds);
    let nodes = influence_tree(edges, seeds);
    let edge = edge_to(nodes[k]);
    law_nodes_below_are_the_edges(edges, seeds, p);
    lemma_in_edges(nodes, p + 1, k, nodes[p].depth + 1);
    let below = edges_below(nodes, p);
    let name = nodes[p].name;
    assert(below.contains(edge));
    assert(edges.dom().contains(name));
    assert(below.to_multiset().count(edge) > 0);
    assert(edges[name].to_multiset().count(edge) > 0);
    assert(edges[name].contains(edge));
    lemma_seed_trees(edges, list, list.len());
    assert(is_seed_iff_top(nodes[k]));
}

/// Each edge that leaves a seed, or a crate shown for the first time, has a node
/// directly below.
pub proof fn law_each_edge_has_a_node(
    edges: Influence,
    seeds: Set<Seq<char>>,
    p: int,
    edge: TreeEdgeView,
)
    requires
        edges.dom().finite(),
        0 <= p < influence_tree(edges, seeds).len(),
        is_open(influence_tree(edges, seeds)[p]),
        edges.dom().contains(influence_tree(edges, seeds)[p].name),
        edges[influence_tree(edges, seeds)[p].name].contains(edge),
    ensures
        exists|k: int| #[trigger]
            is_below(influence_tree(edges, seeds), p, k) && edge_to(
                influence_tree(edges, seeds)[k],
            ) == edge,
{
    broadcast use vstd::seq_lib::group_to_multiset_ensures;

    let nodes = influence_tree(edges, seeds);
    law_nodes_below_are_the_edges(edges, seeds, p);
    let below = edges_below(nodes, p);
    assert(edges[nodes[p].name].to_multiset().count(edge) > 0);
    assert(below.to_multiset().count(edge) > 0);
    assert(below.contains(edge));
    lemma_from_edges(nodes, p + 1, nodes[p].depth + 1, edge);
    let k = choose|k: int| #[trigger] stands_at(nodes, p + 1, k, nodes[p].depth + 1, edge);
    assert(is_below(nodes, p, k));
}

/// A node is marked as the last of its siblings exactly where no node follows it
/// beside it.
pub proof fn law_last_sibling_is_marked(edges: Influence, seeds: Set<Seq<char>>, k: int)
    requires
        edges.dom().finite(),
        0 <= k < influence_tree(edges, seeds).len(),
    ensures
        influence_tree(edges, seeds)[k].is_last_sibling <==> edges_beside(
            influence_tree(edges, seeds),
            k,
        ).len() == 0,
{
    let list = ascending(seeds);
    lemma_seed_trees(edges, list, list.len());
    assert(fits(influence_tree(edges, seeds), k, edges));
}

/// The nodes at the top are the seeds, each once and in the order of the names.
pub proof fn law_tops_are_the_seeds(edges: Influence, seeds: Set<Seq<char>>)
    requires
        edges.dom().finite(),
        seeds.finite(),
    ensures
        ({
            let nodes = influence_tree(edges, seeds);
            let tops = edges_at(nodes, 0, 0).map_values(|e: TreeEdgeView| e.child);
            &&& strictly_sorted(tops)
            &&& tops.to_set() == seeds
            &&& forall|k: int|
                0 <= k < nodes.len() ==> ((#[trigger] nodes[k]).depth == 0 <==> nodes[k].kind
                    == TreeNodeKind::Seed)
        }),
{
    let list = ascending(seeds);
    lemma_seed_trees(edges, list, list.len());
    lemma_ascending_of(seeds);
    let nodes = influence_tree(edges, seeds);
    let tops = edges_at(nodes, 0, 0).map_values(|e: TreeEdgeView| e.child);
    assert(list.take(list.len() as int) =~= list);
    assert(tops =~= list);
    assert forall|k: int| 0 <= k < nodes.len() implies ((#[trigger] nodes[k]).depth == 0
        <==> nodes[k].kind == TreeNodeKind::Seed) by {
        assert(is_seed_iff_top(nodes[k]));
    }
}

/// A node says that its crate was shown already exactly where an earlier node of the
/// same seed shows the crate for the first time.
pub proof fn law_already_shown_is_marked(edges: Influence, seeds: Set<Seq<char>>, k: int)
    requires
        edges.dom().finite(),
        0 <= k < influence_tree(edges, seeds).len(),
    ensures
        ({
            let nodes = influence_tree(edges, seeds);
            nodes[k].kind matches TreeNodeKind::Child { already_shown, .. } ==> (already_shown
                <==> shown_since_seed(nodes, k))
        }),
{
    let list = ascending(seeds);
    lemma_shown(edges, list, list.len());
    assert(marks(influence_tree(edges, seeds), k));
}

/// An earlier node, with no seed after it, shows the crate of the node at `k` for the
/// first time.
pub open spec fn shown_since_seed(nodes: Seq<TreeNodeView>, k: int) -> bool {
    exists|j: int| #[trigger] shows_earlier(nodes, j, k)
}

/// The node at `j` shows the crate of the later node at `k` for the first time, and no
/// seed stands between them.
pub open spec fn shows_earlier(nodes: Seq<TreeNodeView>, j: int, k: int) -> bool {
    &&& 0 <= j < k
    &&& is_first_showing(nodes[j])
    &&& nodes[j].name == nodes[k].name
    &&& forall|i: int| j < i < k ==> (#[trigger] nodes[i]).kind != TreeNodeKind::Seed
}

/// What holds of each node: what is below it and whether it is the last.
spec fn fits(nodes: Seq<TreeNodeView>, k: int, edges: Influence) -> bool {
    &&& edges_below(nodes, k) == if is_open(nodes[k]) {
        children(edges, nodes[k].name)
    } else {
        Seq::empty()
    }
    &&& nodes[k].is_last_sibling == (edges_beside(nodes, k).len() == 0)
}

spec fn is_seed_iff_top(node: TreeNodeView) -> bool {
    node.depth == 0 <==> node.kind == TreeNodeKind::Seed
}

/// A run of siblings at depth `depth` with what is below them.
spec fn is_run(nodes: Seq<TreeNodeView>, edges: Influence, depth: nat) -> bool {
    &&& nodes.len() > 0 ==> nodes[0].depth == depth
    &&& forall|k: int| 0 <= k < nodes.len() ==> (#[trigger] nodes[k]).depth >= depth
    &&& forall|k: int| 0 <= k < nodes.len() ==> #[trigger] fits(nodes, k, edges)
    &&& forall|k: int| 0 <= k < nodes.len() ==> #[trigger] is_seed_iff_top(nodes[k])
}

proof fn lemma_shift(a: Seq<TreeNodeView>, b: Seq<TreeNodeView>, j: int, depth: nat)
    requires
        0 <= j,
    ensures
        edges_at(a + b, a.len() + j, depth) == edges_at(b, j, depth),
    decreases b.len() - j,
{
    let both = a + b;
    if j < b.len() {
        assert(both[a.len() + j] == b[j]);
        lemma_shift(a, b, j + 1, depth);
    }
}

proof fn lemma_stop(a: Seq<TreeNodeView>, b: Seq<TreeNodeView>, j: int, depth: nat)
    requires
        0 <= j <= a.len(),
        b.len() > 0 ==> b[0].depth < depth,
    ensures
        edges_at(a + b, j, depth) == edges_at(a, j, depth),
    decreases a.len() - j,
{
    let both = a + b;
    if j < a.len() {
        assert(both[j] == a[j]);
        lemma_stop(a, b, j + 1, depth);
    } else if b.len() > 0 {
        assert(both[j] == b[0]);
    }
}

proof fn lemma_through(a: Seq<TreeNodeView>, b: Seq<TreeNodeView>, j: int, depth: nat)
    requires
        0 <= j <= a.len(),
        forall|k: int| j <= k < a.len() ==> (#[trigger] a[k]).depth >= depth,
    ensures
        edges_at(a + b, j, depth) == edges_at(a, j, depth) + edges_at(b, 0, depth),
    decreases a.len() - j,
{
    let both = a + b;
    if j < a.len() {
        assert(both[j] == a[j]);
        lemma_through(a, b, j + 1, depth);
        assert(edges_at(both, j, depth) =~= edges_at(a, j, depth) + edges_at(b, 0, depth));
    } else {
        lemma_shift(a, b, 0, depth);
        assert(edges_at(both, j, depth) =~= edges_at(a, j, depth) + edges_at(b, 0, depth));
    }
}

proof fn lemma_deeper(a: Seq<TreeNodeView>, j: int, depth: nat)
    requires
        0 <= j,
        forall|k: int| j <= k < a.len() ==> (#[trigger] a[k]).depth > depth,
    ensures
        edges_at(a, j, depth).len() == 0,
    decreases a.len() - j,
{
    if j < a.len() {
        lemma_deeper(a, j + 1, depth);
    }
}

/// A node, the run below it and the run of its siblings after it are one run.
proof fn lemma_join(
    edges: Influence,
    node: TreeNodeView,
    below: Seq<TreeNodeView>,
    rest: Seq<TreeNodeView>,
)
    requires
        is_run(below, edges, node.depth + 1),
        is_run(rest, edges, node.depth),
        is_seed_iff_top(node),
        edges_at(below, 0, node.depth + 1) == if is_open(node) {
            children(edges, node.name)
        } else {
            Seq::empty()
        },
        node.is_last_sibling == (rest.len() == 0),
    ensures
        is_run(seq![node] + below + rest, edges, node.depth),
        edges_at(seq![node] + below + rest, 0, node.depth) == seq![edge_to(node)] + edges_at(
            rest,
            0,
            node.depth,
        ),
{
    let first = seq![node];
    let depth = node.depth;
    let nodes = first + below + rest;
    let after = below + rest;
    assert(nodes =~= first + after);
    assert(nodes[0] == node);
    assert forall|k: int| 0 <= k < nodes.len() implies (#[trigger] nodes[k]).depth >= depth by {
        if 0 < k <= below.len() {
            assert(nodes[k] == below[k - 1]);
        } else if k > below.len() {
            assert(nodes[k] == rest[k - 1 - below.len()]);
        }
    }
    assert forall|k: int| 0 <= k < nodes.len() implies #[trigger] is_seed_iff_top(nodes[k]) by {
        if 0 < k <= below.len() {
            assert(nodes[k] == below[k - 1]);
            assert(is_seed_iff_top(below[k - 1]));
        } else if k > below.len() {
            assert(nodes[k] == rest[k - 1 - below.len()]);
            assert(is_seed_iff_top(rest[k - 1 - below.len()]));
        }
    }
    lemma_shift(first, after, 0, depth);
    lemma_through(below, rest, 0, depth);
    lemma_deeper(below, 0, depth);
    assert(edges_at(nodes, 1, depth) =~= edges_at(rest, 0, depth));
    assert forall|k: int| 0 <= k < nodes.len() implies #[trigger] fits(nodes, k, edges) by {
        if k == 0 {
            lemma_shift(first, after, 0, depth + 1);
            lemma_stop(below, rest, 0, depth + 1);
            if rest.len() > 0 {
                assert(edges_at(rest, 0, depth).len() > 0);
            }
        } else if k <= below.len() {
            let j = k - 1;
            assert(fits(below, j, edges));
            assert(nodes[k] == below[j]);
            lemma_shift(first, after, j + 1, below[j].depth + 1);
            lemma_stop(below, rest, j + 1, below[j].depth + 1);
            lemma_shift(first, after, j + 1, below[j].depth);
            lemma_stop(below, rest, j + 1, below[j].depth);
        } else {
            let j = k - 1 - below.len();
            assert(fits(rest, j, edges));
            assert(nodes[k] == rest[j]);
            lemma_shift(first + below, rest, j + 1, rest[j].depth + 1);
            lemma_shift(first + below, rest, j + 1, rest[j].depth);
        }
    }
}

proof fn lemma_subtree(
    edges: Influence,
    siblings: Seq<TreeEdgeView>,
    i: int,
    depth: nat,
    shown: Set<Seq<char>>,
)
    requires
        influenced(edges).finite(),
        known_siblings(edges, siblings),
        0 <= i <= siblings.len(),
        depth >= 1,
    ensures
        is_run(subtree(edges, siblings, i, depth, shown).0, edges, depth),
        edges_at(subtree(edges, siblings, i, depth, shown).0, 0, depth) == siblings.skip(i),
    decreases influenced(edges).difference(shown).len(), siblings.len() - i,
{
    let nodes = subtree(edges, siblings, i, depth, shown).0;
    if i < siblings.len() {
        let child = siblings[i].child;
        let node = child_node(siblings, i, depth, shown);
        assert(edge_to(node) == siblings[i]);
        if shown.contains(child) {
            lemma_subtree(edges, siblings, i + 1, depth, shown);
            let rest = subtree(edges, siblings, i + 1, depth, shown).0;
            let none = Seq::<TreeNodeView>::empty();
            lemma_count(rest, depth);
            lemma_join(edges, node, none, rest);
            assert(nodes =~= seq![node] + none + rest);
        } else {
            lemma_children_known(edges, child);
            let more = shown.insert(child);
            let below = subtree(edges, children(edges, child), 0, depth + 1, more);
            assert(influenced(edges).contains(siblings[i].child));
            lemma_fewer_unseen(influenced(edges), shown, more, child);
            lemma_fewer_unseen(influenced(edges), shown, more.union(below.1), child);
            lemma_subtree(edges, children(edges, child), 0, depth + 1, more);
            lemma_subtree(edges, siblings, i + 1, depth, more.union(below.1));
            let rest = subtree(edges, siblings, i + 1, depth, more.union(below.1)).0;
            assert(children(edges, child).skip(0) =~= children(edges, child));
            lemma_count(rest, depth);
            lemma_join(edges, node, below.0, rest);
            assert(nodes == seq![node] + below.0 + rest);
        }
        assert(siblings.skip(i) =~= seq![siblings[i]] + siblings.skip(i + 1));
    } else {
        assert(siblings.skip(i) =~= Seq::empty());
    }
}

/// A run without edges at its depth has no node.
proof fn lemma_count(nodes: Seq<TreeNodeView>, depth: nat)
    requires
        nodes.len() > 0 ==> nodes[0].depth == depth,
    ensures
        edges_at(nodes, 0, depth).len() == 0 <==> nodes.len() == 0,
{
}

proof fn lemma_seed_tree(edges: Influence, seeds: Seq<Seq<char>>, i: int)
    requires
        edges.dom().finite(),
        0 <= i < seeds.len(),
    ensures
        ({
            let below = subtree(edges, children(edges, seeds[i]), 0, 1, Set::empty()).0;
            &&& is_run(below, edges, 1)
            &&& edges_at(below, 0, 1) == children(edges, seeds[i])
        }),
{
    lemma_influenced_finite(edges);
    lemma_children_known(edges, seeds[i]);
    lemma_subtree(edges, children(edges, seeds[i]), 0, 1, Set::empty());
    assert(children(edges, seeds[i]).skip(0) =~= children(edges, seeds[i]));
}

/// The trees of the seeds from position `i` on.
spec fn trees_from(edges: Influence, seeds: Seq<Seq<char>>, i: int) -> Seq<TreeNodeView>
    decreases seeds.len() - i,
{
    if i < 0 || i >= seeds.len() {
        Seq::empty()
    } else {
        seed_tree(edges, seeds, i) + trees_from(edges, seeds, i + 1)
    }
}

proof fn lemma_trees_from(edges: Influence, seeds: Seq<Seq<char>>, i: int)
    requires
        edges.dom().finite(),
        0 <= i <= seeds.len(),
    ensures
        is_run(trees_from(edges, seeds, i), edges, 0),
        edges_at(trees_from(edges, seeds, i), 0, 0).map_values(|e: TreeEdgeView| e.child)
            == seeds.skip(i),
    decreases seeds.len() - i,
{
    let names = |e: TreeEdgeView| e.child;
    let nodes = trees_from(edges, seeds, i);
    if i < seeds.len() {
        lemma_trees_from(edges, seeds, i + 1);
        lemma_seed_tree(edges, seeds, i);
        let below = subtree(edges, children(edges, seeds[i]), 0, 1, Set::empty()).0;
        let rest = trees_from(edges, seeds, i + 1);
        let node = seed_tree(edges, seeds, i)[0];
        assert(node.name == seeds[i] && node.depth == 0 && node.kind == TreeNodeKind::Seed);
        lemma_count(rest, 0);
        assert(edges_at(rest, 0, 0).map_values(names).len() == edges_at(rest, 0, 0).len());
        lemma_join(edges, node, below, rest);
        assert(nodes =~= seq![node] + below + rest);
        assert(edges_at(nodes, 0, 0).map_values(names) =~= seq![seeds[i]] + edges_at(
            rest,
            0,
            0,
        ).map_values(names));
        assert(seeds.skip(i) =~= seq![seeds[i]] + seeds.skip(i + 1));
    } else {
        assert(seeds.skip(i) =~= Seq::empty());
        assert(edges_at(nodes, 0, 0).map_values(names) =~= Seq::empty());
    }
}

proof fn lemma_trees_split(edges: Influence, seeds: Seq<Seq<char>>, n: nat)
    requires
        n <= seeds.len(),
    ensures
        trees_from(edges, seeds, 0) == seed_trees(edges, seeds, n) + trees_from(
            edges,
            seeds,
            n as int,
        ),
    decreases n,
{
    if n > 0 {
        lemma_trees_split(edges, seeds, (n - 1) as nat);
        assert(seed_trees(edges, seeds, (n - 1) as nat) + (seed_tree(edges, seeds, n - 1)
            + trees_from(edges, seeds, n as int)) =~= (seed_trees(edges, seeds, (n - 1) as nat)
            + seed_tree(edges, seeds, n - 1)) + trees_from(edges, seeds, n as int));
    } else {
        assert(seed_trees(edges, seeds, 0) + trees_from(edges, seeds, 0) =~= trees_from(
            edges,
            seeds,
            0,
        ));
    }
}

proof fn lemma_seed_trees(edges: Influence, seeds: Seq<Seq<char>>, n: nat)
    requires
        edges.dom().finite(),
        n == seeds.len(),
    ensures
        is_run(seed_trees(edges, seeds, n), edges, 0),
        edges_at(seed_trees(edges, seeds, n), 0, 0).map_values(|e: TreeEdgeView| e.child) == seeds,
{
    lemma_trees_split(edges, seeds, n);
    lemma_trees_from(edges, seeds, 0);
    assert(seed_trees(edges, seeds, n) + trees_from(edges, seeds, n as int) =~= seed_trees(
        edges,
        seeds,
        n,
    ));
    assert(seeds.skip(0) =~= seeds);
}

/// A node at the depth, before which no node is less deep, has its edge in the list.
proof fn lemma_in_edges(nodes: Seq<TreeNodeView>, from: int, k: int, depth: nat)
    requires
        0 <= from <= k < nodes.len(),
        nodes[k].depth == depth,
        forall|j: int| from <= j < k ==> (#[trigger] nodes[j]).depth >= depth,
    ensures
        edges_at(nodes, from, depth).contains(edge_to(nodes[k])),
    decreases k - from,
{
    let list = edges_at(nodes, from, depth);
    if from < k {
        lemma_in_edges(nodes, from + 1, k, depth);
        let rest = edges_at(nodes, from + 1, depth);
        let i = choose|i: int| 0 <= i < rest.len() && rest[i] == edge_to(nodes[k]);
        if nodes[from].depth == depth {
            assert(list[i + 1] == rest[i]);
        } else {
            assert(list == rest);
        }
    } else {
        assert(list[0] == edge_to(nodes[k]));
    }
}

/// The node at `k` is at the depth, with this edge, and none from `from` up to it is
/// less deep.
spec fn stands_at(
    nodes: Seq<TreeNodeView>,
    from: int,
    k: int,
    depth: nat,
    edge: TreeEdgeView,
) -> bool {
    &&& from <= k < nodes.len()
    &&& nodes[k].depth == depth
    &&& edge_to(nodes[k]) == edge
    &&& forall|j: int| from <= j < k ==> (#[trigger] nodes[j]).depth >= depth
}

/// An edge in the list is that of a node at the depth, before which no node is less
/// deep.
proof fn lemma_from_edges(nodes: Seq<TreeNodeView>, from: int, depth: nat, edge: TreeEdgeView)
    requires
        0 <= from,
        edges_at(nodes, from, depth).contains(edge),
    ensures
        exists|k: int| #[trigger] stands_at(nodes, from, k, depth, edge),
    decreases nodes.len() - from,
{
    let list = edges_at(nodes, from, depth);
    let i = choose|i: int| 0 <= i < list.len() && list[i] == edge;
    let rest = edges_at(nodes, from + 1, depth);
    if nodes[from].depth == depth && i == 0 {
        assert(stands_at(nodes, from, from, depth, edge));
    } else {
        if nodes[from].depth == depth {
            assert(rest[i - 1] == edge);
        } else {
            assert(rest[i] == edge);
        }
        lemma_from_edges(nodes, from + 1, depth, edge);
        let k = choose|k: int| #[trigger] stands_at(nodes, from + 1, k, depth, edge);
        assert(stands_at(nodes, from, k, depth, edge));
    }
}

spec fn marks(nodes: Seq<TreeNodeView>, k: int) -> bool {
    nodes[k].kind matches TreeNodeKind::Child { already_shown, .. } ==> (already_shown
        <==> shown_since_seed(nodes, k))
}

/// What is said of a node depends on the nodes up to it alone.
proof fn lemma_marks_kept(a: Seq<TreeNodeView>, b: Seq<TreeNodeView>, k: int)
    requires
        0 <= k < a.len(),
        marks(a, k),
    ensures
        marks(a + b, k),
{
    let both = a + b;
    if shown_since_seed(both, k) {
        let j = choose|j: int| #[trigger] shows_earlier(both, j, k);
        assert forall|i: int| j < i < k implies (#[trigger] a[i]).kind != TreeNodeKind::Seed by {
            assert(both[i] == a[i]);
        }
        assert(shows_earlier(a, j, k));
    }
    if shown_since_seed(a, k) {
        let j = choose|j: int| #[trigger] shows_earlier(a, j, k);
        assert forall|i: int| j < i < k implies (#[trigger] both[i]).kind != TreeNodeKind::Seed by {
            assert(both[i] == a[i]);
        }
        assert(shows_earlier(both, j, k));
    }
}

/// What is said of a node below a seed depends on the nodes below the seed alone.
proof fn lemma_marks_below(
    before: Seq<TreeNodeView>,
    below: Seq<TreeNodeView>,
    after: Set<Seq<char>>,
    i: int,
)
    requires
        before.len() > 0,
        before.last().kind == TreeNodeKind::Seed,
        shows_once(below, Set::empty(), after),
        forall|j: int| 0 <= j < below.len() ==> (#[trigger] below[j]).kind != TreeNodeKind::Seed,
        0 <= i < below.len(),
    ensures
        marks(before + below, before.len() + i),
{
    let nodes = before + below;
    let start = before.len() as int;
    let k = start + i;
    let name = below[i].name;
    assert(nodes[k] == below[i]);
    assert(nodes[start - 1] == before.last());
    assert(is_first_showing(below[i]) ==> !shown_before(below, i, name));
    assert(!is_first_showing(below[i]) ==> shown_before(below, i, name));
    if shown_since_seed(nodes, k) {
        let j = choose|j: int| #[trigger] shows_earlier(nodes, j, k);
        assert(j >= start);
        assert(is_first_showing(below[j - start]));
        assert(shown_before(below, i, name));
    }
    if shown_before(below, i, name) {
        let j = choose|j: int|
            0 <= j < i && is_first_showing(#[trigger] below[j]) && below[j].name == name;
        assert(nodes[start + j] == below[j]);
        assert forall|h: int| start + j < h < k implies (#[trigger] nodes[h]).kind
            != TreeNodeKind::Seed by {
            assert(nodes[h] == below[h - start]);
        }
        assert(shows_earlier(nodes, start + j, k));
    }
}

proof fn lemma_shown(edges: Influence, seeds: Seq<Seq<char>>, n: nat)
    requires
        edges.dom().finite(),
        n <= seeds.len(),
    ensures
        forall|k: int|
            0 <= k < seed_trees(edges, seeds, n).len() ==> #[trigger] marks(
                seed_trees(edges, seeds, n),
                k,
            ),
    decreases n,
{
    if n > 0 {
        let m = (n - 1) as nat;
        lemma_shown(edges, seeds, m);
        lemma_seed_tree(edges, seeds, n - 1);
        law_tree_shows_each_crate_once(edges, seeds[n - 1]);
        let (below, after) = subtree(edges, children(edges, seeds[n - 1]), 0, 1, Set::empty());
        let before = seed_trees(edges, seeds, m);
        let tree = seed_tree(edges, seeds, n - 1);
        let nodes = seed_trees(edges, seeds, n);
        let seed = tree[0];
        assert(nodes =~= before + tree);
        assert(nodes =~= before.push(seed) + below);
        assert forall|j: int| 0 <= j < below.len() implies (#[trigger] below[j]).kind
            != TreeNodeKind::Seed by {
            assert(is_seed_iff_top(below[j]));
        }
        assert forall|k: int| 0 <= k < nodes.len() implies #[trigger] marks(nodes, k) by {
            if k < before.len() {
                assert(marks(before, k));
                lemma_marks_kept(before, tree, k);
            } else if k > before.len() {
                lemma_marks_below(before.push(seed), below, after, k - before.len() - 1);
            } else {
                assert(nodes[k] == seed);
            }
        }
    }
}

} // verus!
