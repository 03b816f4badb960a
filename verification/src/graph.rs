//! Cycles in a graph of named nodes.
use vstd::prelude::*;

use crate::names::{NameMap, NameSet};
use crate::order::text_eq;
use crate::text::texts;

pub use crate::workspace::is_normal_dep;

verus! {

/// A directed graph: each node with the nodes that it points at.
pub type Adjacency = Map<Seq<char>, Vec<String>>;

/// There is an edge from `from` to `to`.
pub open spec fn has_edge(adj: Adjacency, from: Seq<char>, to: Seq<char>) -> bool {
    adj.dom().contains(from) && texts(adj[from]@).contains(to)
}

/// Each two neighbours in `path` are joined by an edge.
pub open spec fn is_path(adj: Adjacency, path: Seq<Seq<char>>) -> bool {
    forall|i: int|
        0 <= i < path.len() - 1 ==> has_edge(adj, #[trigger] path[i], path[i + 1])
}

/// A path with at least one edge that ends where it starts.
pub open spec fn is_closed_walk(adj: Adjacency, walk: Seq<Seq<char>>) -> bool {
    walk.len() >= 2 && walk.first() == walk.last() && is_path(adj, walk)
}

/// A closed walk that comes by each of its nodes once, but for the start, which
/// is also the end.
pub open spec fn is_cycle(adj: Adjacency, cycle: Seq<Seq<char>>) -> bool {
    is_closed_walk(adj, cycle) && cycle.drop_last().no_duplicates()
}

/// `nodes` holds every node that an edge touches.
pub open spec fn covers(nodes: Set<Seq<char>>, adj: Adjacency) -> bool {
    forall|from: Seq<char>, to: Seq<char>| #[trigger]
        has_edge(adj, from, to) ==> nodes.contains(from) && nodes.contains(to)
}

/// Edges lead from `done` into `done` only, and no closed walk starts there.
spec fn settled(adj: Adjacency, done: Set<Seq<char>>) -> bool {
    &&& forall|from: Seq<char>, to: Seq<char>|
        done.contains(from) && #[trigger] has_edge(adj, from, to) ==> done.contains(to)
    &&& forall|walk: Seq<Seq<char>>| #[trigger]
        is_closed_walk(adj, walk) ==> !done.contains(walk[0])
}

/// A closed walk may as well start at its second node.
proof fn lemma_rotate(adj: Adjacency, walk: Seq<Seq<char>>)
    requires
        is_closed_walk(adj, walk),
    ensures
        is_closed_walk(adj, walk.drop_first().push(walk[1])),
{
    let turned = walk.drop_first().push(walk[1]);
    assert forall|i: int| 0 <= i < turned.len() - 1 implies has_edge(
        adj,
        #[trigger] turned[i],
        turned[i + 1],
    ) by {
        if i < turned.len() - 2 {
            assert(turned[i] == walk[i + 1]);
            assert(turned[i + 1] == walk[i + 2]);
            assert(has_edge(adj, walk[i + 1], walk[i + 1 + 1]));
        } else {
            assert(has_edge(adj, walk[0], walk[0int + 1]));
            assert(turned[i] == walk[walk.len() - 1]);
        }
    }
}

proof fn lemma_settle(adj: Adjacency, done: Set<Seq<char>>, node: Seq<char>)
    requires
        settled(adj, done),
        forall|to: Seq<char>| #[trigger] has_edge(adj, node, to) ==> done.contains(to),
    ensures
        settled(adj, done.insert(node)),
{
    let more = done.insert(node);
    assert forall|walk: Seq<Seq<char>>| #[trigger] is_closed_walk(adj, walk) implies !more.contains(
        walk[0],
    ) by {
        if walk[0] == node {
            assert(has_edge(adj, walk[0], walk[0int + 1]));
            lemma_rotate(adj, walk);
            assert(walk.drop_first().push(walk[1])[0] == walk[1]);
        }
    }
}

/// Where `name` stands in `stack`.
fn position(stack: &Vec<String>, name: &str) -> (r: Option<usize>)
    ensures
        match r {
            Some(i) => i < stack.len() && stack@[i as int]@ == name@,
            None => !texts(stack@).contains(name@),
        },
{
    for i in 0..stack.len()
        invariant
            forall|j: int| 0 <= j < i ==> (#[trigger] stack@[j])@ != name@,
    {
        if text_eq(stack[i].as_str(), name) {
            return Some(i);
        }
    }
    None
}

/// The stack holds a path of distinct nodes, none of which is done yet.
spec fn stack_ok(
    adj: Adjacency,
    nodes: Set<Seq<char>>,
    done: Set<Seq<char>>,
    stack: Seq<Seq<char>>,
) -> bool {
    &&& is_path(adj, stack)
    &&& stack.no_duplicates()
    &&& forall|i: int|
        0 <= i < stack.len() ==> nodes.contains(#[trigger] stack[i]) && !done.contains(stack[i])
}

spec fn unvisited(nodes: Set<Seq<char>>, done: Set<Seq<char>>, stack: Seq<Seq<char>>) -> Set<
    Seq<char>,
> {
    nodes.difference(done).difference(stack.to_set())
}

proof fn lemma_unvisited_shrinks(
    nodes: Set<Seq<char>>,
    done: Set<Seq<char>>,
    done2: Set<Seq<char>>,
    stack: Seq<Seq<char>>,
    node: Seq<char>,
)
    requires
        nodes.finite(),
        nodes.contains(node),
        !done.contains(node),
        !stack.contains(node),
        done.subset_of(done2),
    ensures
        unvisited(nodes, done2, stack.push(node)).len() < unvisited(nodes, done, stack).len(),
{
    let before = unvisited(nodes, done, stack);
    let after = unvisited(nodes, done2, stack.push(node));
    assert(before.contains(node));
    assert forall|x: Seq<char>| after.contains(x) implies before.remove(node).contains(x) by {
        assert(!stack.push(node).contains(x));
        assert(stack.push(node)[stack.len() as int] == node);
        if stack.contains(x) {
            let i = choose|i: int| 0 <= i < stack.len() && stack[i] == x;
            assert(stack.push(node)[i] == x);
        }
    }
    vstd::set_lib::lemma_len_subset(after, before.remove(node));
}

/// The part of the stack from `start` on, closed by the edge back to its first node.
fn close_cycle(adj: &NameMap<Vec<String>>, stack: &Vec<String>, start: usize) -> (cycle: Vec<
    String,
>)
    requires
        start < stack.len(),
        is_path(adj@, texts(stack@)),
        texts(stack@).no_duplicates(),
        has_edge(adj@, texts(stack@).last(), texts(stack@)[start as int]),
    ensures
        is_cycle(adj@, texts(cycle@)),
{
    let mut cycle: Vec<String> = Vec::new();
    let ghost all = texts(stack@);
    for i in start..stack.len()
        invariant
            start < stack.len(),
            all == texts(stack@),
            texts(cycle@) == all.subrange(start as int, i as int),
    {
        let ghost before = texts(cycle@);
        cycle.push(stack[i].clone());
        assert(texts(cycle@) =~= before.push(all[i as int]));
        assert(all.subrange(start as int, i + 1) =~= all.subrange(start as int, i as int).push(
            all[i as int],
        ));
    }
    let ghost before = texts(cycle@);
    cycle.push(stack[start].clone());
    proof {
        let found = texts(cycle@);
        assert(found =~= before.push(all[start as int]));
        assert forall|i: int| 0 <= i < found.len() - 1 implies has_edge(
            adj@,
            #[trigger] found[i],
            found[i + 1],
        ) by {
            assert(found[i] == all[start + i]);
            if i < found.len() - 2 {
                assert(found[i + 1] == all[start + i + 1]);
            }
        }
        assert(found.drop_last() =~= all.subrange(start as int, all.len() as int));
        assert forall|i: int, j: int|
            0 <= i < found.len() - 1 && 0 <= j < found.len() - 1 && i
                != j implies found.drop_last()[i] != found.drop_last()[j] by {
            assert(all[start + i] != all[start + j]);
        }
    }
    cycle
}

/// Walk depth first from `node`; the first edge back onto the stack closes a cycle.
fn dfs_cycle(
    node: &String,
    adj: &NameMap<Vec<String>>,
    nodes: &NameSet,
    done: &mut NameSet,
    stack: &mut Vec<String>,
) -> (r: Option<Vec<String>>)
    requires
        covers(nodes@, adj@),
        nodes@.finite(),
        settled(adj@, old(done)@),
        stack_ok(adj@, nodes@, old(done)@, texts(old(stack)@)),
        nodes@.contains(node@),
        !old(done)@.contains(node@),
        !texts(old(stack)@).contains(node@),
        old(stack)@.len() > 0 ==> has_edge(adj@, texts(old(stack)@).last(), node@),
    ensures
        match r {
            Some(cycle) => is_cycle(adj@, texts(cycle@)),
            None => {
                &&& texts(final(stack)@) == texts(old(stack)@)
                &&& old(done)@.insert(node@).subset_of(final(done)@)
                &&& settled(adj@, final(done)@)
                &&& stack_ok(adj@, nodes@, final(done)@, texts(old(stack)@))
            },
        },
    decreases unvisited(nodes@, old(done)@, texts(old(stack)@)).len(),
{
    let ghost path0 = texts(stack@);
    let ghost done0 = done@;
    stack.push(node.clone());
    let ghost path = path0.push(node@);
    proof {
        assert(texts(stack@) =~= path);
        assert forall|i: int| 0 <= i < path.len() - 1 implies has_edge(
            adj@,
            #[trigger] path[i],
            path[i + 1],
        ) by {
            if i < path0.len() - 1 {
                assert(has_edge(adj@, path0[i], path0[i + 1]));
            }
        }
        assert forall|i: int, j: int|
            0 <= i < path.len() && 0 <= j < path.len() && i != j implies path[i] != path[j] by {
            if i == path0.len() {
                assert(path0[j] == path[j]);
            } else if j == path0.len() {
                assert(path0[i] == path[i]);
            } else {
                assert(path0[i] != path0[j]);
            }
        }
    }
    if let Some(neighbors) = adj.get(node.as_str()) {
        for i in 0..neighbors.len()
            invariant
                covers(nodes@, adj@),
                nodes@.finite(),
                adj@.dom().contains(node@),
                adj@[node@] == *neighbors,
                texts(stack@) == path,
                path == path0.push(node@),
                path0 == texts(old(stack)@),
                done0 == old(done)@,
                !done0.contains(node@),
                !path0.contains(node@),
                nodes@.contains(node@),
                done0.subset_of(done@),
                settled(adj@, done@),
                stack_ok(adj@, nodes@, done@, path),
                forall|j: int| 0 <= j < i ==> done@.contains(#[trigger] texts(neighbors@)[j]),
        {
            let next = &neighbors[i];
            proof {
                assert(texts(neighbors@)[i as int] == next@);
                assert(has_edge(adj@, node@, next@));
            }
            if !done.contains(next.as_str()) {
                match position(stack, next.as_str()) {
                    Some(start) => {
                        return Some(close_cycle(adj, stack, start));
                    },
                    None => {
                        proof {
                            lemma_unvisited_shrinks(nodes@, done0, done@, path0, node@);
                        }
                        let ghost done1 = done@;
                        match dfs_cycle(next, adj, nodes, done, stack) {
                            Some(cycle) => {
                                return Some(cycle);
                            },
                            None => {
                                assert(done@.contains(next@));
                                assert(done1.subset_of(done@));
                            },
                        }
                    },
                }
            }
        }
        proof {
            assert forall|to: Seq<char>| #[trigger] has_edge(adj@, node@, to) implies done@.contains(
                to,
            ) by {
                let j = choose|j: int|
                    0 <= j < texts(neighbors@).len() && texts(neighbors@)[j] == to;
                assert(done@.contains(texts(neighbors@)[j]));
            }
        }
    }
    proof {
        lemma_settle(adj@, done@, node@);
    }
    let ghost full = stack@;
    assert(texts(full) == path);
    let _ = stack.pop();
    proof {
        assert(stack@ =~= full.drop_last());
        assert(path.drop_last() =~= path0);
        assert(texts(stack@) =~= texts(full).drop_last());
        assert forall|i: int| 0 <= i < path0.len() implies nodes@.contains(#[trigger] path0[i])
            && !done@.insert(node@).contains(path0[i]) by {
            assert(path[i] == path0[i]);
        }
        assert forall|i: int| 0 <= i < path0.len() - 1 implies has_edge(
            adj@,
            #[trigger] path0[i],
            path0[i + 1],
        ) by {
            assert(has_edge(adj@, path[i], path[i + 1]));
        }
    }
    let _ = done.insert(node.clone());
    None
}

/// Every node that the graph mentions.
fn all_nodes(adj: &NameMap<Vec<String>>) -> (nodes: NameSet)
    ensures
        covers(nodes@, adj@),
{
    let mut nodes = NameSet::new();
    let list = adj.names();
    let count = adj.len();
    for i in 0..count
        invariant
            count == adj@.dom().len(),
            count == crate::names::ascending(adj@.dom()).len(),
            texts(list@) == crate::names::ascending(adj@.dom()),
            texts(list@).to_set() == adj@.dom(),
            forall|k: int, to: Seq<char>|
                0 <= k < i && #[trigger] has_edge(
                    adj@,
                    #[trigger] crate::names::ascending(adj@.dom())[k],
                    to,
                ) ==> nodes@.contains(crate::names::ascending(adj@.dom())[k]) && nodes@.contains(
                    to,
                ),
    {
        let (from, targets) = adj.entry(i);
        let ghost before = nodes@;
        let _ = nodes.insert(from.to_owned());
        for j in 0..targets.len()
            invariant
                before.subset_of(nodes@),
                nodes@.contains(from@),
                forall|k: int| 0 <= k < j ==> nodes@.contains(#[trigger] texts(targets@)[k]),
        {
            assert(texts(targets@)[j as int] == targets@[j as int]@);
            let _ = nodes.insert(targets[j].clone());
        }
        proof {
            assert forall|k: int, to: Seq<char>|
                0 <= k < i + 1 && #[trigger] has_edge(
                    adj@,
                    #[trigger] crate::names::ascending(adj@.dom())[k],
                    to,
                ) implies nodes@.contains(crate::names::ascending(adj@.dom())[k])
                && nodes@.contains(to) by {
                if k == i {
                    let m = choose|m: int|
                        0 <= m < texts(targets@).len() && texts(targets@)[m] == to;
                    assert(nodes@.contains(texts(targets@)[m]));
                }
            }
        }
    }
    proof {
        let keys = crate::names::ascending(adj@.dom());
        assert forall|from: Seq<char>, to: Seq<char>| #[trigger]
            has_edge(adj@, from, to) implies nodes@.contains(from) && nodes@.contains(to) by {
            assert(keys.to_set().contains(from));
            assert(keys.contains(from));
            let k = choose|k: int| 0 <= k < keys.len() && keys[k] == from;
            assert(has_edge(adj@, keys[k], to));
        }
    }
    nodes
}

/// Find a cycle; there is none exactly when the result is `None`.
pub fn find_cycle(adj: &NameMap<Vec<String>>) -> (r: Option<Vec<String>>)
    ensures
        match r {
            Some(cycle) => is_cycle(adj@, texts(cycle@)),
            None => forall|walk: Seq<Seq<char>>| !is_closed_walk(adj@, walk),
        },
{
    let nodes = all_nodes(adj);
    let mut done = NameSet::new();
    let mut stack: Vec<String> = Vec::new();
    let list = nodes.names();
    for i in 0..list.len()
        invariant
            covers(nodes@, adj@),
            nodes@.finite(),
            texts(list@).to_set() == nodes@,
            settled(adj@, done@),
            stack@.len() == 0,
            forall|k: int| 0 <= k < i ==> done@.contains(#[trigger] texts(list@)[k]),
    {
        let start = &list[i];
        proof {
            assert(texts(list@)[i as int] == start@);
            assert(texts(list@).to_set().contains(start@));
            assert(texts(stack@) =~= Seq::empty());
        }
        if !done.contains(start.as_str()) {
            match dfs_cycle(start, adj, &nodes, &mut done, &mut stack) {
                Some(cycle) => {
                    return Some(cycle);
                },
                None => {
                    assert(texts(stack@).len() == 0);
                },
            }
        }
    }
    proof {
        assert forall|walk: Seq<Seq<char>>| !is_closed_walk(adj@, walk) by {
            if is_closed_walk(adj@, walk) {
                assert(has_edge(adj@, walk[0], walk[0int + 1]));
                assert(texts(list@).to_set().contains(walk[0]));
                let k = choose|k: int| 0 <= k < texts(list@).len() && texts(list@)[k] == walk[0];
                assert(done@.contains(texts(list@)[k]));
            }
        }
    }
    None
}

/// Some node of `nodes` that an edge leads to from `from`.
spec fn next_in(adj: Adjacency, nodes: Set<Seq<char>>, from: Seq<char>) -> Seq<char> {
    choose|to: Seq<char>| nodes.contains(to) && #[trigger] has_edge(adj, from, to)
}

/// A path of `n` edges in `nodes`.
spec fn trail(adj: Adjacency, nodes: Set<Seq<char>>, start: Seq<char>, n: nat) -> Seq<Seq<char>>
    decreases n,
{
    if n == 0 {
        seq![start]
    } else {
        let before = trail(adj, nodes, start, (n - 1) as nat);
        before.push(next_in(adj, nodes, before.last()))
    }
}

/// From each node of `nodes` an edge leads to a node of `nodes`.
#[verifier::opaque]
pub open spec fn has_no_end(adj: Adjacency, nodes: Set<Seq<char>>) -> bool {
    forall|from: Seq<char>| #[trigger]
        nodes.contains(from) ==> exists|to: Seq<char>|
            nodes.contains(to) && #[trigger] has_edge(adj, from, to)
}

proof fn lemma_trail(adj: Adjacency, nodes: Set<Seq<char>>, start: Seq<char>, n: nat)
    requires
        nodes.contains(start),
        has_no_end(adj, nodes),
    ensures
        trail(adj, nodes, start, n).len() == n + 1,
        is_path(adj, trail(adj, nodes, start, n)),
        forall|k: int| 0 <= k <= n ==> nodes.contains(#[trigger] trail(adj, nodes, start, n)[k]),
    decreases n,
{
    if n > 0 {
        reveal(has_no_end);
        lemma_trail(adj, nodes, start, (n - 1) as nat);
        let before = trail(adj, nodes, start, (n - 1) as nat);
        let from = before.last();
        assert(nodes.contains(before[n - 1]));
        let to = next_in(adj, nodes, from);
        assert(nodes.contains(to) && has_edge(adj, from, to));
    }
}

proof fn lemma_repeats(t: Seq<Seq<char>>, nodes: Set<Seq<char>>) -> (r: (int, int))
    requires
        nodes.finite(),
        t.len() > nodes.len(),
        forall|k: int| 0 <= k < t.len() ==> nodes.contains(#[trigger] t[k]),
    ensures
        0 <= r.0 < r.1 < t.len(),
        t[r.0] == t[r.1],
{
    if t.no_duplicates() {
        t.unique_seq_to_set();
        assert(t.to_set().subset_of(nodes));
        vstd::set_lib::lemma_len_subset(t.to_set(), nodes);
    }
    let (i, j) = choose|i: int, j: int|
        0 <= i < t.len() && 0 <= j < t.len() && i != j && t[i] == t[j];
    if i < j {
        (i, j)
    } else {
        (j, i)
    }
}

proof fn lemma_part_of_path(adj: Adjacency, path: Seq<Seq<char>>, a: int, b: int)
    requires
        is_path(adj, path),
        0 <= a < b < path.len(),
    ensures
        is_path(adj, path.subrange(a, b + 1)),
{
    let part = path.subrange(a, b + 1);
    assert forall|k: int| 0 <= k < part.len() - 1 implies has_edge(
        adj,
        #[trigger] part[k],
        part[k + 1],
    ) by {
        let j = a + k;
        assert(has_edge(adj, path[j], path[j + 1]));
    }
}

/// Where finitely many nodes have edges among themselves without an end, there
/// is a closed walk.
pub proof fn lemma_no_end_has_closed_walk(adj: Adjacency, nodes: Set<Seq<char>>)
    requires
        nodes.finite(),
        nodes.len() > 0,
        has_no_end(adj, nodes),
    ensures
        exists|walk: Seq<Seq<char>>| is_closed_walk(adj, walk),
{
    let start = nodes.choose();
    let t = trail(adj, nodes, start, nodes.len());
    lemma_trail(adj, nodes, start, nodes.len());
    let (a, b) = lemma_repeats(t, nodes);
    lemma_part_of_path(adj, t, a, b);
    assert(is_closed_walk(adj, t.subrange(a, b + 1)));
}

} // verus!
