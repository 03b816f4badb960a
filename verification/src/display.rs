//! The influence tree, which shows how bumps spread from the seeds, and the names
//! of items and types in reports.
use vstd::prelude::*;

use crate::laws::tree::{is_below, law_node_has_the_bump_of_its_edge};
use crate::names::{ascending, NameMap, NameSet};
use crate::order::{lemma_sort_by, lemma_sort_by_map, sort_by, stable_sort, Keyed};
use crate::report::event::{Event, EventView, TreeNode, TreeNodeKind, TreeNodeView};
use crate::report::sink::EventSink;
use crate::rustdoc::{DocItem, DocKind, DocType, KindView, TypeView};
use crate::text::texts;
use crate::types::{CrateName, TreeEdge, TreeEdgeView};

verus! {

/// Each crate with the crates that it influences.
pub type Influence = Map<Seq<char>, Seq<TreeEdgeView>>;

/// What a map of tree edges says.
pub open spec fn influence(edges: Map<Seq<char>, Vec<TreeEdge>>) -> Influence {
    edges.map_values(|v: Vec<TreeEdge>| v.deep_view())
}

/// The crates that `parent` influences, by name.
pub open spec fn children(edges: Influence, parent: Seq<char>) -> Seq<TreeEdgeView> {
    if edges.dom().contains(parent) {
        sort_by(edges[parent], |e: TreeEdgeView| e.child)
    } else {
        Seq::empty()
    }
}

/// The crates that some crate influences.
pub open spec fn influenced(edges: Influence) -> Set<Seq<char>> {
    Set::new(
        |name: Seq<char>|
            exists|parent: Seq<char>, i: int|
                edges.dom().contains(parent) && 0 <= i < edges[parent].len()
                    && #[trigger] edges[parent][i].child == name,
    )
}

/// Every sibling is a crate that some crate influences.
pub open spec fn known_siblings(edges: Influence, siblings: Seq<TreeEdgeView>) -> bool {
    forall|i: int|
        0 <= i < siblings.len() ==> influenced(edges).contains((#[trigger] siblings[i]).child)
}

/// The tree node of a child at position `i` among its siblings.
pub open spec fn child_node(
    siblings: Seq<TreeEdgeView>,
    i: int,
    depth: nat,
    shown: Set<Seq<char>>,
) -> TreeNodeView {
    TreeNodeView {
        depth,
        is_last_sibling: i == siblings.len() - 1,
        name: siblings[i].child,
        kind: TreeNodeKind::Child {
            bump: siblings[i].bump,
            already_shown: shown.contains(siblings[i].child),
        },
    }
}

/// The nodes of the siblings from position `i` on, each followed by its own
/// subtree unless the crate was shown before; and the crates shown afterwards.
pub open spec fn subtree(
    edges: Influence,
    siblings: Seq<TreeEdgeView>,
    i: int,
    depth: nat,
    shown: Set<Seq<char>>,
) -> (Seq<TreeNodeView>, Set<Seq<char>>)
    decreases influenced(edges).difference(shown).len(), siblings.len() - i,
    when influenced(edges).finite() && known_siblings(edges, siblings) && 0 <= i
    via subtree_decreases
{
    if i >= siblings.len() {
        (Seq::empty(), shown)
    } else {
        let child = siblings[i].child;
        let node = child_node(siblings, i, depth, shown);
        if shown.contains(child) {
            let rest = subtree(edges, siblings, i + 1, depth, shown);
            (seq![node] + rest.0, rest.1)
        } else {
            let below = subtree(edges, children(edges, child), 0, depth + 1, shown.insert(child));
            let rest = subtree(
                edges,
                siblings,
                i + 1,
                depth,
                shown.insert(child).union(below.1),
            );
            (seq![node] + below.0 + rest.0, rest.1)
        }
    }
}

/// Showing one more of the crates leaves fewer of them unseen.
pub proof fn lemma_fewer_unseen(
    all: Set<Seq<char>>,
    shown: Set<Seq<char>>,
    more: Set<Seq<char>>,
    name: Seq<char>,
)
    requires
        all.finite(),
        all.contains(name),
        !shown.contains(name),
        shown.insert(name).subset_of(more),
    ensures
        all.difference(more).len() < all.difference(shown).len(),
{
    let before = all.difference(shown);
    let after = all.difference(more);
    assert(before.contains(name));
    assert(after.subset_of(before.remove(name)));
    vstd::set_lib::lemma_len_subset(after, before.remove(name));
}

#[via_fn]
proof fn subtree_decreases(
    edges: Influence,
    siblings: Seq<TreeEdgeView>,
    i: int,
    depth: nat,
    shown: Set<Seq<char>>,
) {
    if 0 <= i < siblings.len() && !shown.contains(siblings[i].child) {
        let child = siblings[i].child;
        assert(influenced(edges).contains(siblings[i].child));
        lemma_fewer_unseen(influenced(edges), shown, shown.insert(child), child);
        assert forall|more: Set<Seq<char>>|
            influenced(edges).difference(#[trigger] shown.insert(child).union(more)).len()
                < influenced(edges).difference(shown).len() by {
            lemma_fewer_unseen(influenced(edges), shown, shown.insert(child).union(more), child);
        }
    }
}

/// A seed followed by everything that it influences.
pub open spec fn seed_tree(edges: Influence, seeds: Seq<Seq<char>>, i: int) -> Seq<TreeNodeView> {
    seq![
        TreeNodeView {
            depth: 0,
            is_last_sibling: i == seeds.len() - 1,
            name: seeds[i],
            kind: TreeNodeKind::Seed,
        },
    ] + subtree(edges, children(edges, seeds[i]), 0, 1, Set::empty()).0
}

/// The trees of the first `n` seeds, one after the other.
pub open spec fn seed_trees(edges: Influence, seeds: Seq<Seq<char>>, n: nat) -> Seq<TreeNodeView>
    decreases n,
{
    if n == 0 {
        Seq::empty()
    } else {
        seed_trees(edges, seeds, (n - 1) as nat) + seed_tree(edges, seeds, n - 1)
    }
}

/// The influence tree of a set of seeds.
pub open spec fn influence_tree(edges: Influence, seeds: Set<Seq<char>>) -> Seq<TreeNodeView> {
    seed_trees(edges, ascending(seeds), ascending(seeds).len())
}

/// Finitely many crates influence finitely many crates.
pub proof fn lemma_influenced_finite(edges: Influence)
    requires
        edges.dom().finite(),
    ensures
        influenced(edges).finite(),
    decreases edges.dom().len(),
{
    if edges.dom().len() == 0 {
        assert(edges.dom() =~= Set::empty());
        assert(influenced(edges) =~= Set::<Seq<char>>::empty());
    } else {
        let p = edges.dom().choose();
        let fewer = edges.remove(p);
        assert(fewer.dom() =~= edges.dom().remove(p));
        lemma_influenced_finite(fewer);
        let mine = edges[p].map_values(|e: TreeEdgeView| e.child);
        vstd::seq_lib::seq_to_set_is_finite(mine);
        let both = influenced(fewer).union(mine.to_set());
        assert forall|name: Seq<char>| influenced(edges).contains(name) implies both.contains(
            name,
        ) by {
            let (parent, i) = choose|parent: Seq<char>, i: int|
                edges.dom().contains(parent) && 0 <= i < edges[parent].len()
                    && #[trigger] edges[parent][i].child == name;
            if parent == p {
                assert(mine[i] == name);
            } else {
                assert(fewer[parent][i].child == name);
            }
        }
        assert(influenced(edges).subset_of(both));
        vstd::set_lib::lemma_set_subset_finite(both, influenced(edges));
    }
}

/// A parent's children are crates that some crate influences.
pub proof fn lemma_children_known(edges: Influence, parent: Seq<char>)
    ensures
        known_siblings(edges, children(edges, parent)),
{
    broadcast use vstd::seq_lib::group_to_multiset_ensures;

    if edges.dom().contains(parent) {
        let list = edges[parent];
        let sorted = children(edges, parent);
        lemma_sort_by(list, |e: TreeEdgeView| e.child);
        assert forall|i: int| 0 <= i < sorted.len() implies influenced(edges).contains(
            (#[trigger] sorted[i]).child,
        ) by {
            assert(sorted.contains(sorted[i]));
            assert(sorted.to_multiset().contains(sorted[i]));
            assert(list.to_multiset().contains(sorted[i]));
            assert(list.contains(sorted[i]));
            let j = choose|j: int| 0 <= j < list.len() && list[j] == sorted[i];
            assert(edges[parent][j].child == sorted[i].child);
        }
    }
}

/// What is shown before a subtree is still shown after it.
pub proof fn lemma_subtree_keeps_shown(
    edges: Influence,
    siblings: Seq<TreeEdgeView>,
    i: int,
    depth: nat,
    shown: Set<Seq<char>>,
)
    requires
        influenced(edges).finite(),
        known_siblings(edges, siblings),
        0 <= i,
    ensures
        shown.subset_of(subtree(edges, siblings, i, depth, shown).1),
    decreases influenced(edges).difference(shown).len(), siblings.len() - i,
{
    if i < siblings.len() {
        let child = siblings[i].child;
        let result = subtree(edges, siblings, i, depth, shown);
        if shown.contains(child) {
            lemma_subtree_keeps_shown(edges, siblings, i + 1, depth, shown);
            assert(result.1 == subtree(edges, siblings, i + 1, depth, shown).1);
        } else {
            lemma_children_known(edges, child);
            let below = subtree(edges, children(edges, child), 0, depth + 1, shown.insert(child));
            assert(influenced(edges).contains(siblings[i].child));
            lemma_fewer_unseen(
                influenced(edges),
                shown,
                shown.insert(child).union(below.1),
                child,
            );
            lemma_subtree_keeps_shown(
                edges,
                siblings,
                i + 1,
                depth,
                shown.insert(child).union(below.1),
            );
            assert(result.1 == subtree(
                edges,
                siblings,
                i + 1,
                depth,
                shown.insert(child).union(below.1),
            ).1);
        }
    }
}

fn sorted_children(children_of: &Vec<TreeEdge>) -> (sorted: Vec<TreeEdge>)
    ensures
        sorted.deep_view() == sort_by(children_of.deep_view(), |e: TreeEdgeView| e.child),
{
    let mut copy: Vec<TreeEdge> = Vec::new();
    for i in 0..children_of.len()
        invariant
            copy@ == children_of@.take(i as int),
    {
        copy.push(children_of[i].clone());
        assert(children_of@.take(i + 1) =~= children_of@.take(i as int).push(
            children_of@[i as int],
        ));
    }
    assert(children_of@.take(children_of.len() as int) =~= children_of@);
    let sorted = stable_sort(copy);
    proof {
        let view = |e: TreeEdge| e.deep_view();
        lemma_sort_by_map(
            children_of@,
            |e: TreeEdge| e.key(),
            view,
            |e: TreeEdgeView| e.child,
        );
        assert(children_of.deep_view() =~= children_of@.map_values(view));
        assert(sorted.deep_view() =~= sorted@.map_values(view));
    }
    sorted
}

fn push_children(
    parent: &str,
    tree_edges: &NameMap<Vec<TreeEdge>>,
    depth: usize,
    nodes: &mut Vec<TreeNode>,
    visited: &mut NameSet,
)
    requires
        influenced(influence(tree_edges@)).finite(),
        depth <= old(nodes)@.len(),
    ensures
        ({
            let edges = influence(tree_edges@);
            let below = subtree(
                edges,
                children(edges, parent@),
                0,
                depth as nat,
                old(visited)@,
            );
            &&& final(nodes).deep_view() == old(nodes).deep_view() + below.0
            &&& final(visited)@ == below.1
        }),
    decreases influenced(influence(tree_edges@)).difference(old(visited)@).len(),
{
    let ghost edges = influence(tree_edges@);
    let ghost nodes0 = nodes.deep_view();
    let ghost visited0 = visited@;
    proof {
        lemma_children_known(edges, parent@);
    }
    let Some(children_of) = tree_edges.get(parent) else {
        assert(nodes.deep_view() =~= nodes0 + Seq::<TreeNodeView>::empty());
        return ;
    };
    let sorted = sorted_children(children_of);
    let ghost siblings = sorted.deep_view();
    assert(siblings == children(edges, parent@));
    let ghost mut added: Seq<TreeNodeView> = Seq::empty();
    assert(nodes.deep_view() =~= nodes0 + added);
    for i in 0..sorted.len()
        invariant
            edges == influence(tree_edges@),
            influenced(edges).finite(),
            siblings == sorted.deep_view(),
            known_siblings(edges, siblings),
            depth <= nodes@.len(),
            nodes0 == old(nodes).deep_view(),
            visited0 == old(visited)@,
            visited0.subset_of(visited@),
            nodes.deep_view() == nodes0 + added,
            ({
                let whole = subtree(edges, siblings, 0, depth as nat, visited0);
                let rest = subtree(edges, siblings, i as int, depth as nat, visited@);
                &&& whole.0 == added + rest.0
                &&& whole.1 == rest.1
            }),
    {
        let edge = &sorted[i];
        let ghost visited1 = visited@;
        let ghost added1 = added;
        let already_shown = visited.contains(edge.child.as_str());
        let ghost node = child_node(siblings, i as int, depth as nat, visited1);
        assert(siblings[i as int] == edge.deep_view());
        let ghost nodes1 = nodes.deep_view();
        nodes.push(
            TreeNode {
                depth,
                is_last_sibling: i == sorted.len() - 1,
                name: edge.child.clone(),
                kind: TreeNodeKind::Child { bump: edge.bump, already_shown },
            },
        );
        proof {
            added = added.push(node);
            assert(nodes.deep_view().last() == node);
            assert(nodes.deep_view() =~= nodes1.push(node));
            assert(nodes.deep_view() =~= nodes0 + added);
            assert(nodes.len() == nodes@.len());
        }
        let ghost rest_before = subtree(edges, siblings, i as int, depth as nat, visited1);
        if already_shown {
            proof {
                let rest = subtree(edges, siblings, i + 1, depth as nat, visited1);
                assert(added1 + (seq![node] + rest.0) =~= added + rest.0);
            }
        } else {
            let _ = visited.insert(edge.child.as_str().to_owned());
            proof {
                assert(influenced(edges).contains(siblings[i as int].child));
                lemma_fewer_unseen(
                    influenced(edges),
                    visited0,
                    visited@,
                    edge.child@,
                );
            }
            push_children(edge.child.as_str(), tree_edges, depth + 1, nodes, visited);
            proof {
                let child = edge.child@;
                let below = subtree(
                    edges,
                    children(edges, child),
                    0,
                    (depth + 1) as nat,
                    visited1.insert(child),
                );
                lemma_children_known(edges, child);
                lemma_subtree_keeps_shown(
                    edges,
                    children(edges, child),
                    0,
                    (depth + 1) as nat,
                    visited1.insert(child),
                );
                assert(visited1.insert(child).union(below.1) =~= below.1);
                let rest = subtree(edges, siblings, i + 1, depth as nat, below.1);
                let added2 = added;
                added = added + below.0;
                assert(nodes.deep_view() =~= nodes0 + added);
                assert(added1 + (seq![node] + below.0 + rest.0) =~= added + rest.0);
            }
        }
    }
    proof {
        let rest = subtree(edges, siblings, siblings.len() as int, depth as nat, visited@);
        assert(added + rest.0 =~= added);
    }
}

/// Report the influence tree of the seeds.
pub fn print_influence_tree<S: EventSink>(
    seeds: &NameSet,
    tree_edges: &NameMap<Vec<TreeEdge>>,
    sink: &mut S,
)
    ensures
        final(sink).emitted() == old(sink).emitted().push(
            EventView::InfluenceTree { nodes: influence_tree(influence(tree_edges@), seeds@) },
        ),
        final(sink).emitted().last() matches EventView::InfluenceTree { nodes } && forall|
            p: int,
            k: int,
        | #[trigger]
            is_below(nodes, p, k) ==> tree_edges@.dom().contains(nodes[p].name) && (
            nodes[k].kind matches TreeNodeKind::Child { bump, .. } && tree_edges@[nodes[p].name]
                .deep_view().contains((TreeEdgeView { child: nodes[k].name, bump }))),
{
    let ghost edges = influence(tree_edges@);
    let _ = tree_edges.names();
    proof {
        assert(edges.dom() =~= tree_edges@.dom());
        lemma_influenced_finite(edges);
    }
    let sorted_seeds = seeds.names();
    let ghost list = ascending(seeds@);
    let mut nodes: Vec<TreeNode> = Vec::new();
    assert(nodes.deep_view() =~= Seq::<TreeNodeView>::empty());
    for i in 0..sorted_seeds.len()
        invariant
            edges == influence(tree_edges@),
            influenced(edges).finite(),
            list == texts(sorted_seeds@),
            nodes.deep_view() == seed_trees(edges, list, i as nat),
    {
        let seed = &sorted_seeds[i];
        let ghost before = nodes.deep_view();
        assert(list[i as int] == seed@);
        nodes.push(
            TreeNode {
                depth: 0,
                is_last_sibling: i == sorted_seeds.len() - 1,
                name: CrateName::from(seed.as_str()),
                kind: TreeNodeKind::Seed,
            },
        );
        let ghost root = TreeNodeView {
            depth: 0,
            is_last_sibling: i == list.len() - 1,
            name: list[i as int],
            kind: TreeNodeKind::Seed,
        };
        assert(nodes.deep_view() =~= before.push(root));
        let mut visited = NameSet::new();
        push_children(seed.as_str(), tree_edges, 1, &mut nodes, &mut visited);
        proof {
            let below = subtree(edges, children(edges, list[i as int]), 0, 1, Set::empty()).0;
            assert(nodes.deep_view() =~= before + (seq![root] + below));
        }
    }
    sink.emit(Event::InfluenceTree { nodes });
    proof {
        let tree = influence_tree(edges, seeds@);
        assert forall|p: int, k: int| #[trigger] is_below(tree, p, k) implies tree_edges@.dom().contains(
            tree[p].name,
        ) && (tree[k].kind matches TreeNodeKind::Child { bump, .. } && tree_edges@[tree[p].name]
            .deep_view().contains((TreeEdgeView { child: tree[k].name, bump }))) by {
            law_node_has_the_bump_of_its_edge(edges, seeds@, p, k);
        }
    }
}

/// The node shows its crate for the first time.
pub open spec fn is_first_showing(node: TreeNodeView) -> bool {
    node.kind matches TreeNodeKind::Child { already_shown, .. } && !already_shown
}

/// Some node before position `k` shows the crate `name` for the first time.
pub open spec fn shown_before(nodes: Seq<TreeNodeView>, k: int, name: Seq<char>) -> bool {
    exists|j: int| 0 <= j < k && is_first_showing(#[trigger] nodes[j]) && nodes[j].name == name
}

/// A run of nodes that starts with the crates in `shown` on display and ends
/// with those in `after`: a crate is shown for the first time once, and marked
/// as already shown only where it was.
pub open spec fn shows_once(
    nodes: Seq<TreeNodeView>,
    shown: Set<Seq<char>>,
    after: Set<Seq<char>>,
) -> bool {
    &&& shown.subset_of(after)
    &&& forall|k: int|
        0 <= k < nodes.len() && is_first_showing(#[trigger] nodes[k]) ==> !shown.contains(
            nodes[k].name,
        ) && after.contains(nodes[k].name) && !shown_before(nodes, k, nodes[k].name)
    &&& forall|k: int|
        0 <= k < nodes.len() && !is_first_showing(#[trigger] nodes[k]) ==> shown.contains(
            nodes[k].name,
        ) || shown_before(nodes, k, nodes[k].name)
    &&& forall|name: Seq<char>| #[trigger]
        after.contains(name) ==> shown.contains(name) || shown_before(
            nodes,
            nodes.len() as int,
            name,
        )
}

/// The depths of a run of siblings at depth `depth` and of what is below them:
/// a step down goes one level down.
pub open spec fn depths_fit(nodes: Seq<TreeNodeView>, depth: nat) -> bool {
    &&& nodes.len() > 0 ==> nodes[0].depth == depth
    &&& forall|k: int| 0 <= k < nodes.len() ==> (#[trigger] nodes[k]).depth >= depth
    &&& forall|j: int, k: int|
        0 <= j < k < nodes.len() && k == j + 1 ==> (#[trigger] nodes[k]).depth
            <= (#[trigger] nodes[j]).depth + 1
}

proof fn lemma_shown_before_grows(a: Seq<TreeNodeView>, b: Seq<TreeNodeView>, name: Seq<char>)
    ensures
        forall|k: int|
            0 <= k <= a.len() ==> shown_before(a + b, k, name) == #[trigger] shown_before(
                a,
                k,
                name,
            ),
        forall|k: int|
            0 <= k <= b.len() ==> shown_before(a + b, a.len() + k, name) == (shown_before(
                a,
                a.len() as int,
                name,
            ) || #[trigger] shown_before(b, k, name)),
{
    let both = a + b;
    assert forall|k: int| 0 <= k <= a.len() implies shown_before(both, k, name)
        == #[trigger] shown_before(a, k, name) by {
        if shown_before(both, k, name) {
            let j = choose|j: int|
                0 <= j < k && is_first_showing(#[trigger] both[j]) && both[j].name == name;
            assert(is_first_showing(a[j]));
        }
        if shown_before(a, k, name) {
            let j = choose|j: int|
                0 <= j < k && is_first_showing(#[trigger] a[j]) && a[j].name == name;
            assert(is_first_showing(both[j]));
        }
    }
    assert forall|k: int| 0 <= k <= b.len() implies shown_before(both, a.len() + k, name) == (
    shown_before(a, a.len() as int, name) || #[trigger] shown_before(b, k, name)) by {
        if shown_before(both, a.len() + k, name) {
            let j = choose|j: int|
                0 <= j < a.len() + k && is_first_showing(#[trigger] both[j]) && both[j].name
                    == name;
            if j < a.len() {
                assert(is_first_showing(a[j]));
            } else {
                assert(is_first_showing(b[j - a.len()]));
            }
        }
        if shown_before(a, a.len() as int, name) {
            let j = choose|j: int|
                0 <= j < a.len() && is_first_showing(#[trigger] a[j]) && a[j].name == name;
            assert(is_first_showing(both[j]));
        }
        if shown_before(b, k, name) {
            let j = choose|j: int|
                0 <= j < k && is_first_showing(#[trigger] b[j]) && b[j].name == name;
            assert(is_first_showing(both[a.len() + j]));
        }
    }
}

proof fn lemma_shows_once_concat(
    a: Seq<TreeNodeView>,
    b: Seq<TreeNodeView>,
    shown: Set<Seq<char>>,
    between: Set<Seq<char>>,
    after: Set<Seq<char>>,
)
    requires
        shows_once(a, shown, between),
        shows_once(b, between, after),
    ensures
        shows_once(a + b, shown, after),
{
    let both = a + b;
    assert forall|k: int| 0 <= k < both.len() && is_first_showing(#[trigger] both[k]) implies {
        &&& !shown.contains(both[k].name)
        &&& after.contains(both[k].name)
        &&& !shown_before(both, k, both[k].name)
    } by {
        let name = both[k].name;
        lemma_shown_before_grows(a, b, name);
        if k < a.len() {
            assert(is_first_showing(a[k]));
            assert(shown_before(both, k, name) == shown_before(a, k, name));
        } else {
            assert(is_first_showing(b[k - a.len()]));
            assert(shown_before(both, a.len() + (k - a.len()), name) == (shown_before(
                a,
                a.len() as int,
                name,
            ) || shown_before(b, k - a.len(), name)));
            if shown_before(a, a.len() as int, name) {
                let j = choose|j: int|
                    0 <= j < a.len() && is_first_showing(#[trigger] a[j]) && a[j].name == name;
                assert(between.contains(a[j].name));
            }
        }
    }
    assert forall|k: int|
        0 <= k < both.len() && !is_first_showing(#[trigger] both[k]) implies shown.contains(
        both[k].name,
    ) || shown_before(both, k, both[k].name) by {
        let name = both[k].name;
        lemma_shown_before_grows(a, b, name);
        if k < a.len() {
            assert(!is_first_showing(a[k]));
            assert(shown_before(both, k, name) == shown_before(a, k, name));
        } else {
            assert(!is_first_showing(b[k - a.len()]));
            assert(shown_before(both, a.len() + (k - a.len()), name) == (shown_before(
                a,
                a.len() as int,
                name,
            ) || shown_before(b, k - a.len(), name)));
            assert(between.contains(name) || shown_before(b, k - a.len(), name));
        }
    }
    assert forall|name: Seq<char>| #[trigger] after.contains(name) implies shown.contains(name)
        || shown_before(both, both.len() as int, name) by {
        lemma_shown_before_grows(a, b, name);
        assert(shown_before(both, a.len() + b.len() as int, name) == (shown_before(
            a,
            a.len() as int,
            name,
        ) || shown_before(b, b.len() as int, name)));
        assert(between.contains(name) || shown_before(b, b.len() as int, name));
    }
}

/// The crate and what it influences are all in `after`, for every crate that is
/// in `after` and not in `shown`.
pub open spec fn closed_below(edges: Influence, shown: Set<Seq<char>>, after: Set<Seq<char>>) -> bool {
    forall|name: Seq<char>, k: int|
        after.contains(name) && !shown.contains(name) && 0 <= k < children(edges, name).len()
            ==> after.contains((#[trigger] children(edges, name)[k]).child)
}

proof fn lemma_depths_concat(
    node: TreeNodeView,
    below: Seq<TreeNodeView>,
    rest: Seq<TreeNodeView>,
    depth: nat,
)
    requires
        node.depth == depth,
        depths_fit(below, depth + 1),
        depths_fit(rest, depth),
    ensures
        depths_fit(seq![node] + below + rest, depth),
{
    let nodes = seq![node] + below + rest;
    let n = 1 + below.len();
    assert(nodes[0] == node);
    assert forall|k: int| 0 <= k < nodes.len() implies (#[trigger] nodes[k]).depth >= depth by {
        if 0 < k < n {
            assert(nodes[k] == below[k - 1]);
        } else if k > 0 {
            assert(nodes[k] == rest[k - n]);
        }
    }
    assert forall|j: int, k: int| 0 <= j < k < nodes.len() && k == j + 1 implies (
    #[trigger] nodes[k]).depth <= (#[trigger] nodes[j]).depth + 1 by {
        if k < n {
            assert(nodes[k] == below[k - 1]);
            if j > 0 {
                assert(nodes[j] == below[j - 1]);
            }
        } else {
            assert(nodes[k] == rest[k - n]);
            if k > n {
                assert(nodes[j] == rest[j - n]);
            }
        }
    }
}

proof fn lemma_subtree_shape(
    edges: Influence,
    siblings: Seq<TreeEdgeView>,
    i: int,
    depth: nat,
    shown: Set<Seq<char>>,
)
    requires
        influenced(edges).finite(),
        known_siblings(edges, siblings),
        0 <= i,
    ensures
        ({
            let (nodes, after) = subtree(edges, siblings, i, depth, shown);
            &&& shows_once(nodes, shown, after)
            &&& depths_fit(nodes, depth)
            &&& closed_below(edges, shown, after)
            &&& forall|k: int|
                i <= k < siblings.len() ==> after.contains((#[trigger] siblings[k]).child)
        }),
    decreases influenced(edges).difference(shown).len(), siblings.len() - i,
{
    let (nodes, after) = subtree(edges, siblings, i, depth, shown);
    if i < siblings.len() {
        let child = siblings[i].child;
        let node = child_node(siblings, i, depth, shown);
        let first = seq![node];
        if shown.contains(child) {
            let rest = subtree(edges, siblings, i + 1, depth, shown);
            lemma_subtree_shape(edges, siblings, i + 1, depth, shown);
            assert(shows_once(first, shown, shown));
            lemma_shows_once_concat(first, rest.0, shown, shown, rest.1);
            lemma_depths_concat(node, Seq::empty(), rest.0, depth);
            assert(first + Seq::<TreeNodeView>::empty() + rest.0 =~= first + rest.0);
            assert(nodes == first + rest.0);
        } else {
            lemma_children_known(edges, child);
            let with_child = shown.insert(child);
            let below = subtree(edges, children(edges, child), 0, depth + 1, with_child);
            assert(influenced(edges).contains(siblings[i].child));
            lemma_fewer_unseen(influenced(edges), shown, with_child, child);
            lemma_fewer_unseen(influenced(edges), shown, with_child.union(below.1), child);
            lemma_subtree_shape(edges, children(edges, child), 0, depth + 1, with_child);
            let rest = subtree(edges, siblings, i + 1, depth, with_child.union(below.1));
            lemma_subtree_shape(edges, siblings, i + 1, depth, with_child.union(below.1));
            assert(with_child.union(below.1) =~= below.1);
            assert(shows_once(first, shown, with_child)) by {
                assert(first[0] == node);
                assert(is_first_showing(first[0]));
                assert(shown_before(first, 1, child));
            }
            lemma_shows_once_concat(first, below.0, shown, with_child, below.1);
            lemma_shows_once_concat(first + below.0, rest.0, shown, below.1, rest.1);
            assert(nodes == first + below.0 + rest.0);
            lemma_depths_concat(node, below.0, rest.0, depth);
            assert forall|name: Seq<char>, k: int|
                after.contains(name) && !shown.contains(name) && 0 <= k < children(
                    edges,
                    name,
                ).len() implies after.contains((#[trigger] children(edges, name)[k]).child) by {
                if name == child {
                    assert(below.1.contains(children(edges, child)[k].child));
                } else if below.1.contains(name) {
                    assert(below.1.contains(children(edges, name)[k].child));
                } else {
                    assert(rest.1.contains(children(edges, name)[k].child));
                }
            }
        }
    }
}

/// Below one seed every crate is expanded once: it is shown for the first time
/// at most once, and is marked as already shown exactly where an earlier node
/// of the same tree has shown it.
pub proof fn law_tree_shows_each_crate_once(edges: Influence, seed: Seq<char>)
    requires
        edges.dom().finite(),
    ensures
        ({
            let (nodes, after) = subtree(edges, children(edges, seed), 0, 1, Set::empty());
            shows_once(nodes, Set::empty(), after)
        }),
{
    lemma_influenced_finite(edges);
    lemma_children_known(edges, seed);
    lemma_subtree_shape(edges, children(edges, seed), 0, 1, Set::empty());
}

/// The tree of a seed is complete: it shows every crate that the seed
/// influences, and every crate that a crate in it influences.
pub proof fn law_tree_is_complete(edges: Influence, seed: Seq<char>)
    requires
        edges.dom().finite(),
    ensures
        ({
            let (nodes, after) = subtree(edges, children(edges, seed), 0, 1, Set::empty());
            &&& forall|name: Seq<char>| #[trigger]
                after.contains(name) ==> shown_before(nodes, nodes.len() as int, name)
            &&& forall|k: int|
                0 <= k < children(edges, seed).len() ==> after.contains(
                    (#[trigger] children(edges, seed)[k]).child,
                )
            &&& closed_below(edges, Set::empty(), after)
        }),
{
    lemma_influenced_finite(edges);
    lemma_children_known(edges, seed);
    lemma_subtree_shape(edges, children(edges, seed), 0, 1, Set::empty());
}

/// In the tree of a seed each node is at most one level below the one before
/// it, and only the seed itself is at level zero.
pub proof fn law_tree_depths(edges: Influence, seeds: Seq<Seq<char>>, i: int)
    requires
        edges.dom().finite(),
        0 <= i < seeds.len(),
    ensures
        ({
            let tree = seed_tree(edges, seeds, i);
            &&& tree[0].depth == 0 && tree[0].name == seeds[i]
            &&& forall|k: int| 0 < k < tree.len() ==> (#[trigger] tree[k]).depth >= 1
            &&& depths_fit(tree, 0)
        }),
{
    lemma_influenced_finite(edges);
    lemma_children_known(edges, seeds[i]);
    lemma_subtree_shape(edges, children(edges, seeds[i]), 0, 1, Set::empty());
    let tree = seed_tree(edges, seeds, i);
    let nodes = subtree(edges, children(edges, seeds[i]), 0, 1, Set::empty()).0;
    assert forall|k: int| 0 < k < tree.len() implies (#[trigger] tree[k]).depth >= 1 by {
        assert(tree[k] == nodes[k - 1]);
    }
    lemma_depths_concat(tree[0], nodes, Seq::empty(), 0);
    assert(seq![tree[0]] + nodes + Seq::<TreeNodeView>::empty() =~= tree);
}

/// The label of what an item is. Rustdoc does not prescribe labels: these are the
/// ones that reports use here.
pub open spec fn kind_label(kind: KindView) -> Seq<char> {
    match kind {
        KindView::Module => "mod"@,
        KindView::ExternCrate => "crate"@,
        KindView::Use(_) => "use"@,
        KindView::Union(_) => "union"@,
        KindView::Struct { .. } => "struct"@,
        KindView::StructField(_) => "field"@,
        KindView::Enum(_) => "enum"@,
        KindView::Variant(_) => "variant"@,
        KindView::Function { .. } => "fn"@,
        KindView::Trait { .. } => "trait"@,
        KindView::TraitAlias { .. } => "trait alias"@,
        KindView::Impl { .. } => "impl"@,
        KindView::TypeAlias { .. } => "type"@,
        KindView::Constant(_) => "const"@,
        KindView::Static(_) => "static"@,
        KindView::ExternType => "foreign type"@,
        KindView::Macro => "macro"@,
        KindView::ProcMacro => "proc macro"@,
        KindView::Primitive => "primitive"@,
        KindView::AssocConst(_) => "assoc const"@,
        KindView::AssocType { .. } => "assoc type"@,
    }
}

/// The label of an item's kind in a report.
pub fn item_kind_label(item: &DocItem) -> (r: &'static str)
    ensures
        r@ == kind_label(item@.inner),
{
    match &item.inner {
        DocKind::Module => "mod",
        DocKind::ExternCrate => "crate",
        DocKind::Use(_) => "use",
        DocKind::Union(_) => "union",
        DocKind::Struct { .. } => "struct",
        DocKind::StructField(_) => "field",
        DocKind::Enum(_) => "enum",
        DocKind::Variant(_) => "variant",
        DocKind::Function { .. } => "fn",
        DocKind::Trait { .. } => "trait",
        DocKind::TraitAlias { .. } => "trait alias",
        DocKind::Impl { .. } => "impl",
        DocKind::TypeAlias { .. } => "type",
        DocKind::Constant(_) => "const",
        DocKind::Static(_) => "static",
        DocKind::ExternType => "foreign type",
        DocKind::Macro => "macro",
        DocKind::ProcMacro => "proc macro",
        DocKind::Primitive => "primitive",
        DocKind::AssocConst(_) => "assoc const",
        DocKind::AssocType { .. } => "assoc type",
    }
}

/// How a type is displayed: by its path or name, a reference or a slice by what it
/// refers to. Any other type is displayed as `_`. Rustdoc does not prescribe how a
/// type is displayed: this is how reports do it here.
pub open spec fn shown_type(ty: TypeView) -> Seq<char>
    decreases ty,
{
    match ty {
        TypeView::ResolvedPath(path) => path.path,
        TypeView::Generic(name) => name,
        TypeView::Primitive(name) => name,
        TypeView::BorrowedRef(inner) => "&"@ + shown_type(*inner),
        TypeView::Slice(inner) => "["@ + shown_type(*inner) + "]"@,
        _ => "_"@,
    }
}

/// The name of a type in a report.
pub fn type_display_name(ty: &DocType) -> (r: String)
    ensures
        r@ == shown_type(ty.tree()),
    decreases *ty,
{
    match ty {
        DocType::ResolvedPath(path) => {
            assert(path.tree().path == path.path@);
            path.path.clone()
        },
        DocType::Generic(name) => name.clone(),
        DocType::Primitive(name) => name.clone(),
        DocType::BorrowedRef(inner) => {
            let mut r = "&".to_owned();
            r.append(type_display_name(inner).as_str());
            r
        },
        DocType::Slice(inner) => {
            let mut r = "[".to_owned();
            r.append(type_display_name(inner).as_str());
            r.append("]");
            r
        },
        _ => "_".to_owned(),
    }
}

} // verus!
