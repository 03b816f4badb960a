//! The course of a whole analysis, and why the order of the nodes does not matter
//! to it.
use vstd::prelude::*;

use crate::cli::Cli;
use crate::evaluate::{
    affected, change_of, counts, evaluation, is_known, is_leaked, law_affected_deps_are_reached,
    law_change_is_worst_leaked, lemma_worst_of, relevant_crates, worst_of, AffectedView,
    EvaluationView, RustdocOutcome, WorkspaceContext,
};
use crate::graph::{has_edge, Adjacency};
use crate::leak::leaked_deps;
use crate::propagate::{
    is_acyclic, is_consistent, is_inner_dep, is_ready, lemma_members_found, lemma_some_ready,
    member_positions, node_name, passed, settled, ReachView,
};
use crate::report::lists::{bump_errors, bump_lists};
use crate::run::{
    advance, answers, first_sweep, hands_on, has_own_names, in_order, law_first_sweep_is_in_order,
    law_sweeps_process_every_member, lemma_affected_same, lemma_after_in_order,
    lemma_reached_once_after, pending_names, reached_once, RunStepView, SeedsView, SweepView,
};
use crate::rustdoc_json::rustdoc_document;
use crate::semver::ChangeKind;
use crate::workspace::Node;

verus! {

/// How a wave has reached one crate.
pub struct StatusView {
    pub breaking: bool,
    pub additive: bool,
    pub patch: bool,
    pub failed: bool,
}

/// How the wave has reached the crate `name`.
pub open spec fn status(reach: ReachView, name: Seq<char>) -> StatusView {
    StatusView {
        breaking: reach.breaking.contains(name),
        additive: reach.additive.contains(name),
        patch: reach.patch.contains(name),
        failed: reach.failed.contains(name),
    }
}

/// The set with or without `name`.
pub open spec fn put(set: Set<Seq<char>>, name: Seq<char>, present: bool) -> Set<Seq<char>> {
    if present {
        set.insert(name)
    } else {
        set.remove(name)
    }
}

/// The wave as if it had reached the crate `name` in the given way.
pub open spec fn with_status(reach: ReachView, name: Seq<char>, own: StatusView) -> ReachView {
    ReachView {
        breaking: put(reach.breaking, name, own.breaking),
        additive: put(reach.additive, name, own.additive),
        patch: put(reach.patch, name, own.patch),
        failed: put(reach.failed, name, own.failed),
        edges: reach.edges,
    }
}

/// What came of generating the documentation of the crate `name`, where `docs`
/// has it.
pub open spec fn given(docs: Map<Seq<char>, RustdocOutcome>, name: Seq<char>) -> Option<
    RustdocOutcome,
> {
    if docs.dom().contains(name) {
        Some(docs[name])
    } else {
        None
    }
}

/// How a node is reached that starts out as `own`, once the wave has reached its
/// dependencies as `reach` says; none where its evaluation fails.
pub open spec fn verdict(
    node: Node,
    ctx: WorkspaceContext,
    reach: ReachView,
    own: StatusView,
    cli: Cli,
    docs: Map<Seq<char>, RustdocOutcome>,
) -> Option<StatusView> {
    let name = ctx.names()[node.id@];
    let before = with_status(reach, name, own);
    let (result, failed, _) = evaluation(node, ctx, before.wave(), cli, given(docs, name));
    match result {
        EvaluationView::Done(bump) => Some(
            status(passed(ReachView { failed, ..before }, name, bump), name),
        ),
        _ => None,
    }
}

/// The node at position `j` belongs to the workspace.
pub open spec fn is_member(nodes: Seq<Node>, ctx: WorkspaceContext, j: int) -> bool {
    0 <= j < nodes.len() && ctx.workspace_members@.contains(nodes[j].id@)
}

/// The node at position `j` belongs to the workspace and has been processed.
pub open spec fn is_done(s: SweepView, nodes: Seq<Node>, ctx: WorkspaceContext, j: int) -> bool {
    is_member(nodes, ctx, j) && !s.pending.contains(j as usize)
}

/// Each member that was processed is reached as its dependencies and its
/// documentation demand, and no other crate is reached otherwise than at the
/// start, `first`.
pub open spec fn is_local(
    s: SweepView,
    nodes: Seq<Node>,
    ctx: WorkspaceContext,
    cli: Cli,
    docs: Map<Seq<char>, RustdocOutcome>,
    first: ReachView,
) -> bool {
    &&& forall|j: int| #[trigger]
        is_done(s, nodes, ctx, j) ==> verdict(
            nodes[j],
            ctx,
            s.reach,
            status(first, ctx.names()[nodes[j].id@]),
            cli,
            docs,
        ) == Some(status(s.reach, ctx.names()[nodes[j].id@]))
    &&& forall|name: Seq<char>|
        !s.processed.contains(name) ==> #[trigger] status(s.reach, name) == status(first, name)
    &&& forall|name: Seq<char>| #[trigger]
        s.processed.contains(name) ==> exists|j: int| #[trigger]
            is_done(s, nodes, ctx, j) && ctx.names()[nodes[j].id@] == name
}

/// The verdict on a node depends on the wave only as far as it has reached the
/// node's dependencies.
proof fn lemma_verdict_is_local(
    node: Node,
    ctx: WorkspaceContext,
    one: ReachView,
    other: ReachView,
    own: StatusView,
    cli: Cli,
    docs: Map<Seq<char>, RustdocOutcome>,
)
    requires
        ({
            let name = ctx.names()[node.id@];
            affected(node, ctx, with_status(one, name, own).wave()) == affected(
                node,
                ctx,
                with_status(other, name, own).wave(),
            )
        }),
    ensures
        verdict(node, ctx, one, own, cli, docs) == verdict(node, ctx, other, own, cli, docs),
{
}

/// Two waves that have reached the dependencies of a node in the same way lead to
/// the same verdict on it.
proof fn lemma_same_verdict(
    node: Node,
    ctx: WorkspaceContext,
    one: ReachView,
    other: ReachView,
    own: StatusView,
    cli: Cli,
    docs: Map<Seq<char>, RustdocOutcome>,
)
    requires
        forall|d: int|
            0 <= d < node.deps@.len() && counts(node, #[trigger] node.deps@[d]) ==> status(
                one,
                ctx.names()[node.deps@[d].pkg@],
            ) == status(other, ctx.names()[node.deps@[d].pkg@]),
    ensures
        verdict(node, ctx, one, own, cli, docs) == verdict(node, ctx, other, own, cli, docs),
{
    let name = ctx.names()[node.id@];
    let before = with_status(one, name, own).wave();
    let after = with_status(other, name, own).wave();
    assert forall|d: int|
        0 <= d < node.deps@.len() && counts(node, #[trigger] node.deps@[d]) implies change_of(
        before,
        ctx.names()[node.deps@[d].pkg@],
    ) == change_of(after, ctx.names()[node.deps@[d].pkg@]) by {
        let dep = ctx.names()[node.deps@[d].pkg@];
        assert(status(one, dep) == status(other, dep));
    }
    lemma_affected_same(node, ctx.names(), before, after, node.deps@.len());
    lemma_verdict_is_local(node, ctx, one, other, own, cli, docs);
}

/// No two members have one name.
pub open spec fn has_distinct_names(nodes: Seq<Node>, ctx: WorkspaceContext) -> bool {
    forall|i: int, j: int|
        #[trigger] is_member(nodes, ctx, i) && #[trigger] is_member(nodes, ctx, j) && i != j
            ==> ctx.names()[nodes[i].id@] != ctx.names()[nodes[j].id@]
}

/// The sweeps so far: in order, through members with distinct names, and local.
pub open spec fn is_regular(
    s: SweepView,
    nodes: Seq<Node>,
    ctx: WorkspaceContext,
    cli: Cli,
    docs: Map<Seq<char>, RustdocOutcome>,
    first: ReachView,
) -> bool {
    &&& in_order(s, nodes, ctx)
    &&& reached_once(s, nodes, ctx, Set::full())
    &&& is_local(s, nodes, ctx, cli, docs, first)
}

/// Whether the outcome of generating the documentation is handed over or not does
/// not matter to an evaluation that needs none.
proof fn lemma_evaluation_early(
    node: Node,
    ctx: WorkspaceContext,
    reach: ReachView,
    cli: Cli,
    rustdoc: Option<RustdocOutcome>,
    docs: Map<Seq<char>, RustdocOutcome>,
)
    requires
        rustdoc matches Some(outcome) ==> given(docs, ctx.names()[node.id@]) == Some(outcome),
        !(evaluation(node, ctx, reach.wave(), cli, rustdoc).0 is NeedsRustdoc),
    ensures
        ({
            let (result, failed, _) = evaluation(node, ctx, reach.wave(), cli, rustdoc);
            let (other, lost, _) = evaluation(
                node,
                ctx,
                reach.wave(),
                cli,
                given(docs, ctx.names()[node.id@]),
            );
            result == other && failed == lost
        }),
{
}

proof fn lemma_local_after(
    s: SweepView,
    nodes: Seq<Node>,
    ctx: WorkspaceContext,
    cli: Cli,
    rustdoc: Option<RustdocOutcome>,
    docs: Map<Seq<char>, RustdocOutcome>,
    first: ReachView,
)
    requires
        nodes.len() <= usize::MAX,
        has_own_names(nodes, ctx),
        is_regular(s, nodes, ctx, cli, docs, first),
        answers(s, nodes, ctx, rustdoc, docs),
        s.cursor > 0,
        is_ready(nodes[s.pending[s.cursor - 1] as int], ctx, s.processed),
        evaluation(
            nodes[s.pending[s.cursor - 1] as int],
            ctx,
            s.reach.wave(),
            cli,
            rustdoc,
        ).0 is Done,
    ensures
        ({
            let position = s.pending[s.cursor - 1];
            let (result, failed, _) = evaluation(
                nodes[position as int],
                ctx,
                s.reach.wave(),
                cli,
                rustdoc,
            );
            let next = s.after(node_name(nodes, ctx, position), result->Done_0, failed);
            is_regular(next, nodes, ctx, cli, docs, first)
        }),
{
    let at = s.cursor - 1;
    let position = s.pending[at];
    let here = position as int;
    let node = nodes[here];
    let name = node_name(nodes, ctx, position);
    let (result, failed, _) = evaluation(node, ctx, s.reach.wave(), cli, rustdoc);
    let bump = result->Done_0;
    let next = s.after(name, bump, failed);
    lemma_after_in_order(s, nodes, ctx, bump, failed);
    lemma_reached_once_after(s, nodes, ctx, bump, failed, Set::full());
    let names = pending_names(s.pending, nodes, ctx);
    assert(names[at] == name);
    assert(!s.processed.contains(name));
    assert(ctx.workspace_members@.contains(nodes[s.pending[at] as int].id@));
    assert(is_member(nodes, ctx, here));
    assert forall|n: Seq<char>| n != name implies #[trigger] status(next.reach, n) == status(
        s.reach,
        n,
    ) by {}
    let left = pending_names(next.pending, nodes, ctx);
    assert(left =~= names.remove(at));
    assert(!next.pending.contains(position)) by {
        if next.pending.contains(position) {
            let k = choose|k: int| 0 <= k < next.pending.len() && next.pending[k] == position;
            assert(left[k] == name);
            assert(!next.processed.contains(left[k]));
        }
    }
    assert forall|j: int| #[trigger] is_done(next, nodes, ctx, j) && j != here implies is_done(
        s,
        nodes,
        ctx,
        j,
    ) by {
        if s.pending.contains(j as usize) {
            let k = choose|k: int| 0 <= k < s.pending.len() && s.pending[k] == j as usize;
            if k < at {
                assert(next.pending[k] == j as usize);
            } else {
                assert(k != at);
                assert(next.pending[k - 1] == j as usize);
            }
        }
    }
    assert forall|j: int| #[trigger] is_done(s, nodes, ctx, j) implies is_done(
        next,
        nodes,
        ctx,
        j,
    ) by {
        if next.pending.contains(j as usize) {
            let k = choose|k: int| 0 <= k < next.pending.len() && next.pending[k] == j as usize;
            if k < at {
                assert(s.pending[k] == j as usize);
            } else {
                assert(s.pending[k + 1] == j as usize);
            }
        }
    }
    assert(is_done(next, nodes, ctx, here));
    assert forall|j: int| #[trigger] is_done(next, nodes, ctx, j) implies verdict(
        nodes[j],
        ctx,
        next.reach,
        status(first, ctx.names()[nodes[j].id@]),
        cli,
        docs,
    ) == Some(status(next.reach, ctx.names()[nodes[j].id@])) by {
        let own = ctx.names()[nodes[j].id@];
        if j == here {
            let before = with_status(next.reach, name, status(first, name));
            assert(status(s.reach, name) == status(first, name));
            assert(before.wave() =~= s.reach.wave());
            assert(before.patch =~= s.reach.patch);
            lemma_evaluation_early(node, ctx, s.reach, cli, rustdoc, docs);
        } else {
            assert(is_done(s, nodes, ctx, j));
            assert(ctx.workspace_members@.contains(nodes[j].id@));
            assert(s.processed.contains(node_name(nodes, ctx, j as usize)));
            assert(is_ready(nodes[j], ctx, s.processed));
            assert forall|d: int|
                0 <= d < nodes[j].deps@.len() && counts(
                    nodes[j],
                    #[trigger] nodes[j].deps@[d],
                ) implies status(s.reach, ctx.names()[nodes[j].deps@[d].pkg@]) == status(
                next.reach,
                ctx.names()[nodes[j].deps@[d].pkg@],
            ) by {
                let pkg = nodes[j].deps@[d].pkg@;
                if ctx.workspace_members@.contains(pkg) {
                    assert(s.processed.contains(ctx.names()[pkg]));
                } else {
                    assert(ctx.names()[pkg] != ctx.names()[nodes[here].id@]);
                }
            }
            lemma_same_verdict(nodes[j], ctx, s.reach, next.reach, status(first, own), cli, docs);
        }
    }
    assert forall|n: Seq<char>| !next.processed.contains(n) implies #[trigger] status(
        next.reach,
        n,
    ) == status(first, n) by {
        assert(!s.processed.contains(n));
        assert(status(s.reach, n) == status(first, n));
    }
    assert forall|n: Seq<char>| #[trigger] next.processed.contains(n) implies exists|j: int|
        #[trigger] is_done(next, nodes, ctx, j) && ctx.names()[nodes[j].id@] == n by {
        if n == name {
            assert(is_done(next, nodes, ctx, here));
        } else {
            assert(s.processed.contains(n));
            let j = choose|j: int| #[trigger]
                is_done(s, nodes, ctx, j) && ctx.names()[nodes[j].id@] == n;
            assert(is_done(next, nodes, ctx, j));
        }
    }
}

/// The sweeps stand before a node that is ready and whose evaluation fails.
pub open spec fn is_halted(
    s: SweepView,
    nodes: Seq<Node>,
    ctx: WorkspaceContext,
    cli: Cli,
    docs: Map<Seq<char>, RustdocOutcome>,
    first: ReachView,
) -> bool {
    &&& 0 < s.cursor <= s.pending.len()
    &&& is_ready(nodes[s.pending[s.cursor - 1] as int], ctx, s.processed)
    &&& verdict(
        nodes[s.pending[s.cursor - 1] as int],
        ctx,
        s.reach,
        status(first, node_name(nodes, ctx, s.pending[s.cursor - 1])),
        cli,
        docs,
    ) is None
}

/// What becomes of a crate follows from what becomes of its dependencies and from
/// its documentation alone, at every point of the sweeps. Where the sweeps fail,
/// they do so because the evaluation of a crate fails whose dependencies have been
/// processed. Where they wait for the documentation of a crate, they can go on with
/// what is in `docs` for it, and at least one crate was processed since the last
/// such stop.
pub proof fn law_sweeps_are_local(
    s: SweepView,
    nodes: Seq<Node>,
    ctx: WorkspaceContext,
    cli: Cli,
    rustdoc: Option<RustdocOutcome>,
    docs: Map<Seq<char>, RustdocOutcome>,
    first: ReachView,
)
    requires
        nodes.len() <= usize::MAX,
        has_own_names(nodes, ctx),
        is_regular(s, nodes, ctx, cli, docs, first),
        answers(s, nodes, ctx, rustdoc, docs),
    ensures
        ({
            let (end, step, _) = advance(s, nodes, ctx, cli, rustdoc);
            &&& is_regular(end, nodes, ctx, cli, docs, first)
            &&& step is Finished ==> end.pending.len() == 0
            &&& step is NoManifestPath || step is UnreadableDocs ==> is_halted(
                end,
                nodes,
                ctx,
                cli,
                docs,
                first,
            )
            &&& step matches RunStepView::Build(name, _) ==> {
                &&& 0 < end.cursor <= end.pending.len()
                &&& name == node_name(nodes, ctx, end.pending[end.cursor - 1])
                &&& ctx.pkg_has_lib@.contains(name)
                &&& docs.dom().contains(name) ==> answers(end, nodes, ctx, Some(docs[name]), docs)
                &&& end.pending.len() + if rustdoc is Some {
                    1int
                } else {
                    0
                } <= s.pending.len()
            }
        }),
    decreases
            s.pending.len(),
            if s.made_progress {
                1int
            } else {
                0
            },
            s.cursor,
{
    if s.cursor == 0 {
        if s.pending.len() > 0 && s.made_progress {
            let next = SweepView { cursor: s.pending.len(), made_progress: false, ..s };
            lemma_moved_is_local(s, next, nodes, ctx, cli, docs, first);
            law_sweeps_are_local(next, nodes, ctx, cli, rustdoc, docs, first);
        }
    } else {
        let at = s.cursor - 1;
        let position = s.pending[at];
        let node = nodes[position as int];
        let name = node_name(nodes, ctx, position);
        if !is_ready(node, ctx, s.processed) {
            let next = SweepView { cursor: at as nat, ..s };
            lemma_moved_is_local(s, next, nodes, ctx, cli, docs, first);
            law_sweeps_are_local(next, nodes, ctx, cli, rustdoc, docs, first);
        } else {
            let (result, failed, _) = evaluation(node, ctx, s.reach.wave(), cli, rustdoc);
            match result {
                EvaluationView::Done(bump) => {
                    lemma_local_after(s, nodes, ctx, cli, rustdoc, docs, first);
                    let next = s.after(name, bump, failed);
                    law_sweeps_are_local(next, nodes, ctx, cli, None, docs, first);
                },
                EvaluationView::Failed(_) => {
                    let names = pending_names(s.pending, nodes, ctx);
                    assert(names[at] == name);
                    assert(status(s.reach, name) == status(first, name));
                    let before = with_status(s.reach, name, status(first, name));
                    assert(before.wave() =~= s.reach.wave());
                    lemma_evaluation_early(node, ctx, s.reach, cli, rustdoc, docs);
                },
                EvaluationView::NeedsRustdoc(_) => {},
            }
        }
    }
}

/// Only the cursor and the mark of progress differ between two states.
proof fn lemma_moved_is_local(
    s: SweepView,
    next: SweepView,
    nodes: Seq<Node>,
    ctx: WorkspaceContext,
    cli: Cli,
    docs: Map<Seq<char>, RustdocOutcome>,
    first: ReachView,
)
    requires
        is_local(s, nodes, ctx, cli, docs, first),
        next.pending == s.pending,
        next.processed == s.processed,
        next.reach == s.reach,
    ensures
        is_local(next, nodes, ctx, cli, docs, first),
{
    assert forall|j: int| #[trigger] is_done(next, nodes, ctx, j) implies is_done(
        s,
        nodes,
        ctx,
        j,
    ) by {}
    assert forall|n: Seq<char>| #[trigger] next.processed.contains(n) implies exists|j: int|
        #[trigger] is_done(next, nodes, ctx, j) && ctx.names()[nodes[j].id@] == n by {
        let j = choose|j: int| #[trigger]
            is_done(s, nodes, ctx, j) && ctx.names()[nodes[j].id@] == n;
        assert(is_done(next, nodes, ctx, j));
    }
}

/// The course of an analysis through at most `n` further stops: where a crate's
/// documentation is needed, the analysis goes on with what `docs` has for it.
pub open spec fn course(
    s: SweepView,
    nodes: Seq<Node>,
    ctx: WorkspaceContext,
    cli: Cli,
    rustdoc: Option<RustdocOutcome>,
    docs: Map<Seq<char>, RustdocOutcome>,
    n: nat,
) -> (SweepView, RunStepView)
    decreases n,
{
    let (end, step, _) = advance(s, nodes, ctx, cli, rustdoc);
    match step {
        RunStepView::Build(name, _) if n > 0 && docs.dom().contains(name) => course(
            end,
            nodes,
            ctx,
            cli,
            Some(docs[name]),
            docs,
            (n - 1) as nat,
        ),
        _ => (end, step),
    }
}

/// The outcome of an analysis, with the documentation in `docs`.
pub open spec fn outcome_of(
    seeds: SeedsView,
    nodes: Seq<Node>,
    ctx: WorkspaceContext,
    cli: Cli,
    docs: Map<Seq<char>, RustdocOutcome>,
) -> (SweepView, RunStepView) {
    course(first_sweep(seeds, nodes, ctx), nodes, ctx, cli, None, docs, nodes.len() + 1)
}

/// `docs` has the documentation of every member with a public API.
pub open spec fn has_all_docs(
    nodes: Seq<Node>,
    ctx: WorkspaceContext,
    docs: Map<Seq<char>, RustdocOutcome>,
) -> bool {
    forall|j: int| #[trigger]
        is_member(nodes, ctx, j) && ctx.pkg_has_lib@.contains(ctx.names()[nodes[j].id@])
            ==> docs.dom().contains(ctx.names()[nodes[j].id@])
}

proof fn lemma_course(
    s: SweepView,
    nodes: Seq<Node>,
    ctx: WorkspaceContext,
    cli: Cli,
    rustdoc: Option<RustdocOutcome>,
    docs: Map<Seq<char>, RustdocOutcome>,
    first: ReachView,
    adj: Adjacency,
    n: nat,
)
    requires
        is_acyclic(adj, nodes, ctx),
        has_own_names(nodes, ctx),
        has_all_docs(nodes, ctx, docs),
        is_regular(s, nodes, ctx, cli, docs, first),
        answers(s, nodes, ctx, rustdoc, docs),
        n + if rustdoc is Some {
            1int
        } else {
            0
        } > s.pending.len(),
    ensures
        ({
            let (end, step) = course(s, nodes, ctx, cli, rustdoc, docs, n);
            &&& is_regular(end, nodes, ctx, cli, docs, first)
            &&& step is Finished ==> end.pending.len() == 0
            &&& step is NoManifestPath || step is UnreadableDocs ==> is_halted(
                end,
                nodes,
                ctx,
                cli,
                docs,
                first,
            )
            &&& !(step is Build)
            &&& !(step is Stuck)
        }),
    decreases n,
{
    law_sweeps_are_local(s, nodes, ctx, cli, rustdoc, docs, first);
    law_sweeps_process_every_member(s, nodes, ctx, cli, rustdoc, adj);
    let (end, step, _) = advance(s, nodes, ctx, cli, rustdoc);
    if let RunStepView::Build(name, _) = step {
        let position = end.pending[end.cursor - 1];
        assert(ctx.workspace_members@.contains(nodes[position as int].id@));
        assert(is_member(nodes, ctx, position as int));
        assert(docs.dom().contains(name));
        if n > 0 {
            lemma_course(end, nodes, ctx, cli, Some(docs[name]), docs, first, adj, (n - 1) as nat);
        }
    }
}

/// The two lists hold the same nodes, in any order.
pub open spec fn same_nodes(one: Seq<Node>, other: Seq<Node>) -> bool {
    one.to_multiset() == other.to_multiset()
}

/// Each node of one list is a node of the other.
proof fn lemma_node_found(one: Seq<Node>, other: Seq<Node>, j: int) -> (i: int)
    requires
        same_nodes(one, other),
        0 <= j < other.len(),
    ensures
        0 <= i < one.len(),
        one[i] == other[j],
{
    one.to_multiset_ensures();
    other.to_multiset_ensures();
    assert(other.contains(other[j]));
    assert(other.to_multiset().count(other[j]) > 0);
    assert(one.to_multiset().count(other[j]) > 0);
    assert(one.contains(other[j]));
    choose|i: int| 0 <= i < one.len() && one[i] == other[j]
}

/// The positions less than `n` of the members that were processed in `s` and are
/// reached otherwise in `other`.
spec fn differing(
    other: ReachView,
    s: SweepView,
    nodes: Seq<Node>,
    ctx: WorkspaceContext,
    n: nat,
) -> Seq<usize>
    decreases n,
{
    if n == 0 {
        Seq::empty()
    } else {
        let before = differing(other, s, nodes, ctx, (n - 1) as nat);
        if differs(other, s, nodes, ctx, n - 1) {
            before.push((n - 1) as usize)
        } else {
            before
        }
    }
}

/// The member at position `j` was processed in `s` and is reached otherwise in
/// `other`.
spec fn differs(
    other: ReachView,
    s: SweepView,
    nodes: Seq<Node>,
    ctx: WorkspaceContext,
    j: int,
) -> bool {
    &&& is_done(s, nodes, ctx, j)
    &&& status(other, ctx.names()[nodes[j].id@]) != status(s.reach, ctx.names()[nodes[j].id@])
}

proof fn lemma_differing(
    other: ReachView,
    s: SweepView,
    nodes: Seq<Node>,
    ctx: WorkspaceContext,
    n: nat,
)
    requires
        n <= nodes.len(),
        nodes.len() <= usize::MAX,
    ensures
        forall|k: int|
            0 <= k < differing(other, s, nodes, ctx, n).len() ==> differs(
                other,
                s,
                nodes,
                ctx,
                (#[trigger] differing(other, s, nodes, ctx, n)[k]) as int,
            ),
        forall|j: int|
            0 <= j < n && #[trigger] differs(other, s, nodes, ctx, j) ==> differing(
                other,
                s,
                nodes,
                ctx,
                n,
            ).contains(j as usize),
    decreases n,
{
    if n > 0 {
        lemma_differing(other, s, nodes, ctx, (n - 1) as nat);
        let before = differing(other, s, nodes, ctx, (n - 1) as nat);
        let after = differing(other, s, nodes, ctx, n);
        assert forall|j: int|
            0 <= j < n && #[trigger] differs(other, s, nodes, ctx, j) implies after.contains(
            j as usize,
        ) by {
            if j < n - 1 {
                let k = choose|k: int| 0 <= k < before.len() && before[k] == j as usize;
                assert(after[k] == j as usize);
            } else {
                assert(after[before.len() as int] == j as usize);
            }
        }
    }
}

/// A dependency of a processed node is reached in the same way in both analyses,
/// unless it is a member that differs.
proof fn lemma_same_dep(
    one: SweepView,
    all: Seq<Node>,
    s: SweepView,
    nodes: Seq<Node>,
    ctx: WorkspaceContext,
    cli: Cli,
    docs: Map<Seq<char>, RustdocOutcome>,
    first: ReachView,
    i: int,
    d: int,
)
    requires
        is_regular(one, all, ctx, cli, docs, first),
        is_regular(s, nodes, ctx, cli, docs, first),
        same_nodes(all, nodes),
        has_own_names(nodes, ctx),
        is_member(nodes, ctx, i),
        is_ready(nodes[i], ctx, s.processed),
        0 <= d < nodes[i].deps@.len(),
        counts(nodes[i], nodes[i].deps@[d]),
        forall|j: int|
            #[trigger] is_done(s, nodes, ctx, j) && ctx.names()[nodes[j].id@]
                == ctx.names()[nodes[i].deps@[d].pkg@] ==> !differs(one.reach, s, nodes, ctx, j),
    ensures
        status(one.reach, ctx.names()[nodes[i].deps@[d].pkg@]) == status(
            s.reach,
            ctx.names()[nodes[i].deps@[d].pkg@],
        ),
{
    let pkg = nodes[i].deps@[d].pkg@;
    let dep = ctx.names()[pkg];
    if ctx.workspace_members@.contains(pkg) {
        assert(s.processed.contains(dep));
        let j = choose|j: int| #[trigger]
            is_done(s, nodes, ctx, j) && ctx.names()[nodes[j].id@] == dep;
        assert(!differs(one.reach, s, nodes, ctx, j));
    } else {
        if s.processed.contains(dep) {
            let j = choose|j: int| #[trigger]
                is_done(s, nodes, ctx, j) && ctx.names()[nodes[j].id@] == dep;
            assert(ctx.workspace_members@.contains(nodes[j].id@));
            assert(false);
        }
        if one.processed.contains(dep) {
            let j = choose|j: int| #[trigger]
                is_done(one, all, ctx, j) && ctx.names()[all[j].id@] == dep;
            let k = lemma_node_found(nodes, all, j);
            assert(ctx.workspace_members@.contains(nodes[k].id@));
            assert(false);
        }
        assert(status(one.reach, dep) == status(first, dep));
        assert(status(s.reach, dep) == status(first, dep));
    }
}

/// A member that was processed in one analysis is reached in the same way in any
/// other that has finished.
#[verifier::rlimit(30)]
proof fn lemma_same_status(
    one: SweepView,
    all: Seq<Node>,
    s: SweepView,
    nodes: Seq<Node>,
    ctx: WorkspaceContext,
    cli: Cli,
    docs: Map<Seq<char>, RustdocOutcome>,
    first: ReachView,
    adj: Adjacency,
)
    requires
        is_regular(one, all, ctx, cli, docs, first),
        one.pending.len() == 0,
        is_regular(s, nodes, ctx, cli, docs, first),
        same_nodes(all, nodes),
        has_own_names(nodes, ctx),
        has_distinct_names(nodes, ctx),
        is_consistent(nodes, ctx),
        is_acyclic(adj, nodes, ctx),
    ensures
        forall|j: int| #[trigger]
            is_done(s, nodes, ctx, j) ==> status(one.reach, ctx.names()[nodes[j].id@]) == status(
                s.reach,
                ctx.names()[nodes[j].id@],
            ),
{
    let odd = differing(one.reach, s, nodes, ctx, nodes.len());
    lemma_differing(one.reach, s, nodes, ctx, nodes.len());
    if odd.len() > 0 {
        let rest = Set::new(
            |name: Seq<char>|
                exists|j: int| #[trigger]
                    is_member(nodes, ctx, j) && !odd.contains(j as usize)
                        && ctx.names()[nodes[j].id@] == name,
        );
        assert forall|k: int| 0 <= k < odd.len() implies (#[trigger] odd[k]) < nodes.len()
            && is_known(ctx, nodes[odd[k] as int]) && ctx.workspace_members@.contains(
            nodes[odd[k] as int].id@,
        ) by {
            assert(differs(one.reach, s, nodes, ctx, odd[k] as int));
        }
        assert forall|j: int|
            0 <= j < nodes.len() && ctx.workspace_members@.contains(
                (#[trigger] nodes[j]).id@,
            ) implies odd.contains(j as usize) || rest.contains(
            node_name(nodes, ctx, j as usize),
        ) by {
            assert(is_member(nodes, ctx, j));
        }
        lemma_some_ready(odd, rest, nodes, ctx, adj);
        let k = choose|k: int|
            0 <= k < odd.len() && is_ready(nodes[(#[trigger] odd[k]) as int], ctx, rest);
        let i = odd[k] as int;
        let own = ctx.names()[nodes[i].id@];
        assert(differs(one.reach, s, nodes, ctx, i));
        assert(is_done(s, nodes, ctx, i));
        assert(ctx.workspace_members@.contains(nodes[i].id@));
        assert(is_ready(nodes[i], ctx, s.processed));
        assert forall|d: int|
            0 <= d < nodes[i].deps@.len() && counts(
                nodes[i],
                #[trigger] nodes[i].deps@[d],
            ) implies status(one.reach, ctx.names()[nodes[i].deps@[d].pkg@]) == status(
            s.reach,
            ctx.names()[nodes[i].deps@[d].pkg@],
        ) by {
            let pkg = nodes[i].deps@[d].pkg@;
            assert forall|j: int|
                #[trigger] is_done(s, nodes, ctx, j) && ctx.names()[nodes[j].id@]
                    == ctx.names()[pkg] implies !differs(one.reach, s, nodes, ctx, j) by {
                assert(is_member(nodes, ctx, j));
                if ctx.workspace_members@.contains(pkg) {
                    assert(rest.contains(ctx.names()[pkg]));
                    let m = choose|m: int| #[trigger]
                        is_member(nodes, ctx, m) && !odd.contains(m as usize)
                            && ctx.names()[nodes[m].id@] == ctx.names()[pkg];
                    assert(m == j);
                } else {
                    assert(ctx.workspace_members@.contains(nodes[j].id@));
                    assert(false);
                }
            }
            lemma_same_dep(one, all, s, nodes, ctx, cli, docs, first, i, d);
        }
        lemma_same_verdict(nodes[i], ctx, one.reach, s.reach, status(first, own), cli, docs);
        let m = lemma_node_found(all, nodes, i);
        assert(is_done(one, all, ctx, m));
        assert(false);
    }
    assert forall|j: int| #[trigger] is_done(s, nodes, ctx, j) implies status(
        one.reach,
        ctx.names()[nodes[j].id@],
    ) == status(s.reach, ctx.names()[nodes[j].id@]) by {
        assert(!odd.contains(j as usize));
        assert(!differs(one.reach, s, nodes, ctx, j));
    }
}

/// The first sweep is regular.
proof fn lemma_first_sweep_is_regular(
    seeds: SeedsView,
    nodes: Seq<Node>,
    ctx: WorkspaceContext,
    cli: Cli,
    docs: Map<Seq<char>, RustdocOutcome>,
)
    requires
        nodes.len() <= usize::MAX,
        is_consistent(nodes, ctx),
        has_distinct_names(nodes, ctx),
    ensures
        ({
            let s = first_sweep(seeds, nodes, ctx);
            &&& is_regular(s, nodes, ctx, cli, docs, s.reach)
            &&& s.pending.len() <= nodes.len()
        }),
{
    let s = first_sweep(seeds, nodes, ctx);
    law_first_sweep_is_in_order(seeds, nodes, ctx);
    lemma_members_found(nodes, ctx, nodes.len());
    lemma_member_count(nodes, ctx, nodes.len());
    let names = pending_names(s.pending, nodes, ctx);
    assert(names.no_duplicates()) by {
        assert forall|a: int, b: int| 0 <= a < b < names.len() implies names[a] != names[b] by {
            assert(is_member(nodes, ctx, s.pending[a] as int));
            assert(is_member(nodes, ctx, s.pending[b] as int));
        }
    }
    assert forall|j: int| !(#[trigger] is_done(s, nodes, ctx, j)) by {
        if is_member(nodes, ctx, j) {
            assert(ctx.workspace_members@.contains(nodes[j].id@));
        }
    }
}

proof fn lemma_member_count(nodes: Seq<Node>, ctx: WorkspaceContext, n: nat)
    ensures
        member_positions(nodes, ctx.workspace_members@, n).len() <= n,
    decreases n,
{
    if n > 0 {
        lemma_member_count(nodes, ctx, (n - 1) as nat);
    }
}

/// Two nodes of one list are two nodes of the other.
proof fn lemma_two_found(one: Seq<Node>, other: Seq<Node>, i: int, j: int) -> (r: (int, int))
    requires
        same_nodes(one, other),
        0 <= i < other.len(),
        0 <= j < other.len(),
        i != j,
    ensures
        0 <= r.0 < one.len(),
        0 <= r.1 < one.len(),
        r.0 != r.1,
        one[r.0] == other[i],
        one[r.1] == other[j],
{
    let a = lemma_node_found(one, other, i);
    one.to_multiset_ensures();
    other.to_multiset_ensures();
    let left = one.remove(a);
    let rest = other.remove(i);
    assert(left.to_multiset() =~= rest.to_multiset());
    let k = if j < i {
        j
    } else {
        j - 1
    };
    assert(rest[k] == other[j]);
    let b = lemma_node_found(left, rest, k);
    if b < a {
        (a, b)
    } else {
        (a, b + 1)
    }
}

/// Whatever holds of the nodes of a workspace holds of them in any order.
proof fn lemma_same_workspace(
    one: Seq<Node>,
    other: Seq<Node>,
    ctx: WorkspaceContext,
    docs: Map<Seq<char>, RustdocOutcome>,
    adj: Adjacency,
)
    requires
        same_nodes(one, other),
        is_sound(one, ctx, docs, adj),
    ensures
        is_sound(other, ctx, docs, adj),
{
    one.to_multiset_ensures();
    other.to_multiset_ensures();
    assert forall|i: int, d: int| #[trigger] is_inner_dep(other, ctx, i, d) implies has_edge(
        adj,
        other[i].id@,
        other[i].deps@[d].pkg@,
    ) && exists|j: int|
        0 <= j < other.len() && (#[trigger] other[j]).id@ == other[i].deps@[d].pkg@ by {
        let k = lemma_node_found(one, other, i);
        assert(is_inner_dep(one, ctx, k, d));
        let m = choose|m: int|
            0 <= m < one.len() && (#[trigger] one[m]).id@ == one[k].deps@[d].pkg@;
        let j = lemma_node_found(other, one, m);
        assert(other[j].id@ == other[i].deps@[d].pkg@);
    }
    assert forall|i: int|
        0 <= i < other.len() && ctx.workspace_members@.contains(
            (#[trigger] other[i]).id@,
        ) implies is_known(ctx, other[i]) by {
        let k = lemma_node_found(one, other, i);
        assert(ctx.workspace_members@.contains(one[k].id@));
    }
    assert forall|i: int, d: int, j: int|
        0 <= i < other.len() && ctx.workspace_members@.contains(other[i].id@) && 0 <= d
            < other[i].deps@.len() && counts(other[i], #[trigger] other[i].deps@[d])
            && !ctx.workspace_members@.contains(other[i].deps@[d].pkg@) && 0 <= j < other.len()
            && ctx.workspace_members@.contains((#[trigger] other[j]).id@) implies ctx.names()[
    other[i].deps@[d].pkg@] != ctx.names()[other[j].id@] by {
        let k = lemma_node_found(one, other, i);
        let m = lemma_node_found(one, other, j);
        assert(counts(one[k], one[k].deps@[d]));
        assert(ctx.workspace_members@.contains(one[m].id@));
    }
    assert forall|i: int, j: int|
        #[trigger] is_member(other, ctx, i) && #[trigger] is_member(other, ctx, j) && i
            != j implies ctx.names()[other[i].id@] != ctx.names()[other[j].id@] by {
        let (k, m) = lemma_two_found(one, other, i, j);
        assert(is_member(one, ctx, k));
        assert(is_member(one, ctx, m));
    }
    assert forall|j: int|
        #[trigger] is_member(other, ctx, j) && ctx.pkg_has_lib@.contains(
            ctx.names()[other[j].id@],
        ) implies docs.dom().contains(ctx.names()[other[j].id@]) by {
        let k = lemma_node_found(one, other, j);
        assert(is_member(one, ctx, k));
    }
}

/// A workspace that can be analyzed: its dependencies are acyclic, its members are
/// known and have names of their own, and `docs` has the documentation of each with
/// a public API.
pub open spec fn is_sound(
    nodes: Seq<Node>,
    ctx: WorkspaceContext,
    docs: Map<Seq<char>, RustdocOutcome>,
    adj: Adjacency,
) -> bool {
    &&& is_acyclic(adj, nodes, ctx)
    &&& is_consistent(nodes, ctx)
    &&& has_own_names(nodes, ctx)
    &&& has_distinct_names(nodes, ctx)
    &&& has_all_docs(nodes, ctx, docs)
}

/// Two waves have reached the same crates, and in the same way.
pub open spec fn same_reach(one: ReachView, other: ReachView) -> bool {
    &&& one.breaking == other.breaking
    &&& one.additive == other.additive
    &&& one.patch == other.patch
    &&& one.failed == other.failed
}

/// Where one analysis finishes, another one through the same nodes does not fail,
/// and it reaches the same crates.
proof fn lemma_one_finishes(
    seeds: SeedsView,
    one: Seq<Node>,
    other: Seq<Node>,
    ctx: WorkspaceContext,
    cli: Cli,
    docs: Map<Seq<char>, RustdocOutcome>,
    adj: Adjacency,
)
    requires
        same_nodes(one, other),
        is_sound(one, ctx, docs, adj),
        outcome_of(seeds, one, ctx, cli, docs).1 is Finished,
    ensures
        outcome_of(seeds, other, ctx, cli, docs).1 is Finished,
        same_reach(
            outcome_of(seeds, one, ctx, cli, docs).0.reach,
            outcome_of(seeds, other, ctx, cli, docs).0.reach,
        ),
{
    lemma_same_workspace(one, other, ctx, docs, adj);
    let first = first_sweep(seeds, one, ctx).reach;
    assert(first == first_sweep(seeds, other, ctx).reach);
    lemma_first_sweep_is_regular(seeds, one, ctx, cli, docs);
    lemma_first_sweep_is_regular(seeds, other, ctx, cli, docs);
    let start = first_sweep(seeds, one, ctx);
    lemma_course(start, one, ctx, cli, None, docs, first, adj, one.len() + 1);
    let start = first_sweep(seeds, other, ctx);
    lemma_course(start, other, ctx, cli, None, docs, first, adj, other.len() + 1);
    let (a, _) = outcome_of(seeds, one, ctx, cli, docs);
    let (b, step) = outcome_of(seeds, other, ctx, cli, docs);
    lemma_same_status(a, one, b, other, ctx, cli, docs, first, adj);
    if !(step is Finished) {
        lemma_not_halted(a, one, b, other, ctx, cli, docs, first);
    }
    assert forall|name: Seq<char>| #[trigger] status(a.reach, name) == status(b.reach, name) by {
        if b.processed.contains(name) {
            let j = choose|j: int| #[trigger]
                is_done(b, other, ctx, j) && ctx.names()[other[j].id@] == name;
            assert(is_done(b, other, ctx, j));
        } else {
            if a.processed.contains(name) {
                let j = choose|j: int| #[trigger]
                    is_done(a, one, ctx, j) && ctx.names()[one[j].id@] == name;
                let k = lemma_node_found(other, one, j);
                assert(is_member(other, ctx, k));
                assert(ctx.workspace_members@.contains(other[k].id@));
                assert(b.processed.contains(node_name(other, ctx, k as usize)));
            }
            assert(status(a.reach, name) == status(first, name));
            assert(status(b.reach, name) == status(first, name));
        }
    }
    assert forall|name: Seq<char>|
        a.reach.breaking.contains(name) == b.reach.breaking.contains(name)
            && a.reach.additive.contains(name) == b.reach.additive.contains(name)
            && a.reach.patch.contains(name) == b.reach.patch.contains(name)
            && a.reach.failed.contains(name) == b.reach.failed.contains(name) by {
        assert(status(a.reach, name) == status(b.reach, name));
    }
    assert(a.reach.breaking =~= b.reach.breaking);
    assert(a.reach.additive =~= b.reach.additive);
    assert(a.reach.patch =~= b.reach.patch);
    assert(a.reach.failed =~= b.reach.failed);
}

/// No crate fails whose evaluation has succeeded in another analysis.
proof fn lemma_not_halted(
    one: SweepView,
    all: Seq<Node>,
    s: SweepView,
    nodes: Seq<Node>,
    ctx: WorkspaceContext,
    cli: Cli,
    docs: Map<Seq<char>, RustdocOutcome>,
    first: ReachView,
)
    requires
        is_regular(one, all, ctx, cli, docs, first),
        one.pending.len() == 0,
        is_regular(s, nodes, ctx, cli, docs, first),
        same_nodes(all, nodes),
        has_own_names(nodes, ctx),
        nodes.len() <= usize::MAX,
        forall|j: int| #[trigger]
            is_done(s, nodes, ctx, j) ==> status(one.reach, ctx.names()[nodes[j].id@]) == status(
                s.reach,
                ctx.names()[nodes[j].id@],
            ),
    ensures
        !is_halted(s, nodes, ctx, cli, docs, first),
{
    if is_halted(s, nodes, ctx, cli, docs, first) {
        let i = s.pending[s.cursor - 1] as int;
        let own = ctx.names()[nodes[i].id@];
        assert(ctx.workspace_members@.contains(nodes[s.pending[s.cursor - 1] as int].id@));
        assert(is_member(nodes, ctx, i));
        assert forall|d: int|
            0 <= d < nodes[i].deps@.len() && counts(
                nodes[i],
                #[trigger] nodes[i].deps@[d],
            ) implies status(one.reach, ctx.names()[nodes[i].deps@[d].pkg@]) == status(
            s.reach,
            ctx.names()[nodes[i].deps@[d].pkg@],
        ) by {
            lemma_same_dep(one, all, s, nodes, ctx, cli, docs, first, i, d);
        }
        lemma_same_verdict(nodes[i], ctx, one.reach, s.reach, status(first, own), cli, docs);
        let m = lemma_node_found(all, nodes, i);
        assert(is_done(one, all, ctx, m));
        assert(false);
    }
}

/// The order in which the nodes of a workspace are listed does not matter: with
/// the same documentation, either both analyses finish or neither does, and where
/// they finish, they have the same three lists and report the same errors. The
/// dependencies of the workspace are acyclic, and its members have names of their
/// own.
pub proof fn law_order_of_nodes_does_not_matter(
    seeds: SeedsView,
    one: Seq<Node>,
    other: Seq<Node>,
    ctx: WorkspaceContext,
    cli: Cli,
    docs: Map<Seq<char>, RustdocOutcome>,
    adj: Adjacency,
)
    requires
        same_nodes(one, other),
        is_sound(one, ctx, docs, adj),
    ensures
        ({
            let (a, step) = outcome_of(seeds, one, ctx, cli, docs);
            let (b, stop) = outcome_of(seeds, other, ctx, cli, docs);
            let first = settled(a.reach, seeds.all, seeds.new_crates, seeds.bumps);
            let second = settled(b.reach, seeds.all, seeds.new_crates, seeds.bumps);
            &&& step is Finished <==> stop is Finished
            &&& step is Finished ==> {
                &&& same_reach(a.reach, b.reach)
                &&& bump_lists(ctx, first) == bump_lists(ctx, second)
                &&& bump_errors(
                    bump_lists(ctx, first),
                    seeds.bumps,
                    first.failed,
                    seeds.new_crates,
                ) == bump_errors(
                    bump_lists(ctx, second),
                    seeds.bumps,
                    second.failed,
                    seeds.new_crates,
                )
            }
        }),
{
    let (a, step) = outcome_of(seeds, one, ctx, cli, docs);
    let (b, stop) = outcome_of(seeds, other, ctx, cli, docs);
    if step is Finished {
        lemma_one_finishes(seeds, one, other, ctx, cli, docs, adj);
        let first = settled(a.reach, seeds.all, seeds.new_crates, seeds.bumps);
        let second = settled(b.reach, seeds.all, seeds.new_crates, seeds.bumps);
        assert(bump_lists(ctx, first) == bump_lists(ctx, second));
    } else if stop is Finished {
        lemma_same_workspace(one, other, ctx, docs, adj);
        lemma_one_finishes(seeds, other, one, ctx, cli, docs, adj);
    }
}

/// The analysis of a sound workspace comes to an end: it finishes, or the
/// evaluation of a crate fails.
pub proof fn law_analysis_ends(
    seeds: SeedsView,
    nodes: Seq<Node>,
    ctx: WorkspaceContext,
    cli: Cli,
    docs: Map<Seq<char>, RustdocOutcome>,
    adj: Adjacency,
)
    requires
        is_sound(nodes, ctx, docs, adj),
    ensures
        ({
            let (end, step) = outcome_of(seeds, nodes, ctx, cli, docs);
            let first = first_sweep(seeds, nodes, ctx).reach;
            &&& is_regular(end, nodes, ctx, cli, docs, first)
            &&& step is Finished || is_halted(end, nodes, ctx, cli, docs, first)
            &&& step is Finished ==> end.pending.len() == 0
        }),
{
    let first = first_sweep(seeds, nodes, ctx).reach;
    lemma_first_sweep_is_regular(seeds, nodes, ctx, cli, docs);
    let start = first_sweep(seeds, nodes, ctx);
    lemma_course(start, nodes, ctx, cli, None, docs, first, adj, nodes.len() + 1);
}

/// The crate hands on the breaking change of one of its dependencies.
pub open spec fn hands_a_break_on(
    deps: Seq<AffectedView>,
    outcome: RustdocOutcome,
    breaking: Set<Seq<char>>,
) -> bool {
    exists|i: int|
        0 <= i < deps.len() && #[trigger] hands_on(deps, outcome, i) && breaking.contains(
            deps[i].name,
        )
}

/// Once an analysis has finished, a member with a public API that was no breaking
/// seed counts as breaking if and only if it has a normal dependency that is a
/// breaking seed or counts as breaking itself, and it leaks this dependency or its
/// documentation could not be generated.
pub proof fn law_member_breaks_iff_it_hands_a_break_on(
    seeds: SeedsView,
    nodes: Seq<Node>,
    ctx: WorkspaceContext,
    cli: Cli,
    docs: Map<Seq<char>, RustdocOutcome>,
    adj: Adjacency,
    j: int,
)
    requires
        is_sound(nodes, ctx, docs, adj),
        outcome_of(seeds, nodes, ctx, cli, docs).1 is Finished,
        is_member(nodes, ctx, j),
        ctx.pkg_has_lib@.contains(ctx.names()[nodes[j].id@]),
        !seeds.wave.breaking.contains(ctx.names()[nodes[j].id@]),
    ensures
        ({
            let name = ctx.names()[nodes[j].id@];
            let reach = outcome_of(seeds, nodes, ctx, cli, docs).0.reach;
            let deps = affected(nodes[j], ctx, reach.wave());
            reach.breaking.contains(name) <==> hands_a_break_on(deps, docs[name], reach.breaking)
        }),
{
    law_analysis_ends(seeds, nodes, ctx, cli, docs, adj);
    let (end, _) = outcome_of(seeds, nodes, ctx, cli, docs);
    let first = first_sweep(seeds, nodes, ctx).reach;
    let node = nodes[j];
    let name = ctx.names()[node.id@];
    let own = status(first, name);
    let wave = end.reach.wave();
    let before = with_status(end.reach, name, own).wave();
    let deps = affected(node, ctx, wave);
    assert(is_done(end, nodes, ctx, j));
    assert forall|d: int|
        0 <= d < node.deps@.len() && counts(node, #[trigger] node.deps@[d]) implies change_of(
        before,
        ctx.names()[node.deps@[d].pkg@],
    ) == change_of(wave, ctx.names()[node.deps@[d].pkg@]) by {
        let pkg = node.deps@[d].pkg@;
        if ctx.workspace_members@.contains(pkg) {
            assert(is_inner_dep(nodes, ctx, j, d));
            let k = choose|k: int| 0 <= k < nodes.len() && (#[trigger] nodes[k]).id@ == pkg;
            assert(is_member(nodes, ctx, k));
        } else {
            assert(ctx.workspace_members@.contains(nodes[j].id@));
        }
    }
    lemma_affected_same(node, ctx.names(), before, wave, node.deps@.len());
    law_affected_deps_are_reached(node, ctx, wave);
    match docs[name] {
        RustdocOutcome::Built(json) => {
            if deps.len() > 0 {
                let document = rustdoc_document(json@)->0;
                let leaked = leaked_deps(document, relevant_crates(document.external_crates, deps));
                law_change_is_worst_leaked(
                    name,
                    leaked,
                    deps,
                    ctx.version(name),
                    cli.verbose,
                    deps.len(),
                );
                if hands_a_break_on(deps, docs[name], wave.breaking) {
                    let i = choose|i: int|
                        0 <= i < deps.len() && #[trigger] hands_on(deps, docs[name], i)
                            && wave.breaking.contains(deps[i].name);
                    assert(is_leaked(leaked, deps, i));
                    assert(change_of(wave, deps[i].name) == Some(deps[i].change));
                }
                if wave.breaking.contains(name) {
                    let i = choose|i: int|
                        0 <= i < deps.len() && #[trigger] is_leaked(leaked, deps, i)
                            && deps[i].change == ChangeKind::Breaking;
                    assert(hands_on(deps, docs[name], i));
                    assert(change_of(wave, deps[i].name) == Some(deps[i].change));
                }
            }
        },
        RustdocOutcome::Failed(_) => {
            if deps.len() > 0 {
                lemma_worst_of(deps);
                if hands_a_break_on(deps, docs[name], wave.breaking) {
                    let i = choose|i: int|
                        0 <= i < deps.len() && #[trigger] hands_on(deps, docs[name], i)
                            && wave.breaking.contains(deps[i].name);
                    assert(change_of(wave, deps[i].name) == Some(deps[i].change));
                    assert(deps[i].change.rank() <= worst_of(deps).rank());
                }
                if wave.breaking.contains(name) {
                    let i = choose|i: int|
                        0 <= i < deps.len() && (#[trigger] deps[i]).change == worst_of(deps);
                    assert(hands_on(deps, docs[name], i));
                    assert(change_of(wave, deps[i].name) == Some(deps[i].change));
                }
            }
        },
    }
}

} // verus!
