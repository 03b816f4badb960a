//! Laws of the wave: how it starts, passes crates and comes to rest.
use vstd::prelude::*;

use crate::cli::Cli;
use crate::evaluate::{
    affected_deps, counts, evaluation, is_known, pre_check, pre_check_events, CrateBumpView,
    EvaluationView, InfluenceView, RustdocOutcome, WaveView,
};
use crate::propagate::{
    builds_of, checks_of, conclusion, drive, edges_from, is_ready, lemma_wave_goes_on,
    member_positions, passed, ready_nodes, settled, unprocessed, with_influences, CheckView,
    DocsFault, PropagationView, ReachView, StepView,
};
use crate::report::event::EventView;
use crate::run::{
    advance, first_sweep, named_seeds, seed_events, seeds_among, unknown_seeds, RunStepView,
    SeedsView, SweepView,
};
use crate::seeds::VersionChanges;
use crate::semver::{Bump, ChangeKind};
use crate::types::TreeEdgeView;
use crate::workspace::{DependencyKind, Node, Package, WorkspaceContext};

verus! {

/// A crate that the wave passes is from there on among the crates with its change,
/// and no other crate is touched.
pub proof fn law_passed_crate_is_noted(
    reach: ReachView,
    name: Seq<char>,
    bump: CrateBumpView,
    other: Seq<char>,
)
    ensures
        ({
            let after = passed(reach, name, bump);
            &&& after.breaking.contains(other) <==> reach.breaking.contains(other) || (other == name
                && bump.change == ChangeKind::Breaking)
            &&& after.additive.contains(other) <==> reach.additive.contains(other) || (other == name
                && bump.change == ChangeKind::Additive)
            &&& after.patch.contains(other) <==> reach.patch.contains(other) || (other == name
                && bump.change == ChangeKind::Patch)
            &&& after.failed == reach.failed
        }),
{
}

/// The edges that leave a crate stay, in their order, when the wave passes a crate;
/// after them come those of the influences of that crate on the passed one, in their
/// order, each with its own bump.
pub proof fn law_passed_crate_adds_its_edges(
    reach: ReachView,
    name: Seq<char>,
    bump: CrateBumpView,
    parent: Seq<char>,
)
    ensures
        edges_from(passed(reach, name, bump).edges, parent) == edges_from(reach.edges, parent)
            + bump.influences.filter(|i: InfluenceView| i.dep == parent).map_values(
            |i: InfluenceView| TreeEdgeView { child: name, bump: i.bump },
        ),
        passed(reach, name, bump).edges.dom().contains(parent) <==> reach.edges.dom().contains(
            parent,
        ) || exists|k: int|
            0 <= k < bump.influences.len() && (#[trigger] bump.influences[k]).dep == parent,
{
    let all = bump.influences;
    lemma_edges(reach.edges, name, all, parent, all.len());
    assert(all.take(all.len() as int) =~= all);
}

proof fn lemma_edges(
    edges: Map<Seq<char>, Seq<TreeEdgeView>>,
    child: Seq<char>,
    influences: Seq<InfluenceView>,
    parent: Seq<char>,
    n: nat,
)
    requires
        n <= influences.len(),
    ensures
        edges_from(with_influences(edges, child, influences, n), parent) == edges_from(
            edges,
            parent,
        ) + influences.take(n as int).filter(|i: InfluenceView| i.dep == parent).map_values(
            |i: InfluenceView| TreeEdgeView { child, bump: i.bump },
        ),
        with_influences(edges, child, influences, n).dom().contains(parent)
            <==> edges.dom().contains(parent) || exists|k: int|
            0 <= k < n && (#[trigger] influences[k]).dep == parent,
    decreases n,
{
    reveal(Seq::filter);
    let is_of = |i: InfluenceView| i.dep == parent;
    let edge = |i: InfluenceView| TreeEdgeView { child, bump: i.bump };
    let few = influences.take(n as int);
    if n == 0 {
        assert(few.filter(is_of).map_values(edge) =~= Seq::empty());
    } else {
        let m = (n - 1) as nat;
        lemma_edges(edges, child, influences, parent, m);
        let before = influences.take(m as int);
        let last = influences[n - 1];
        assert(few.drop_last() =~= before);
        assert(few.last() == last);
        if last.dep == parent {
            assert(few.filter(is_of) == before.filter(is_of).push(last));
            assert(few.filter(is_of).map_values(edge) =~= before.filter(is_of).map_values(
                edge,
            ).push(edge(last)));
        } else {
            assert(few.filter(is_of) == before.filter(is_of));
        }
    }
    assert(edges_from(with_influences(edges, child, influences, n), parent) =~= edges_from(
        edges,
        parent,
    ) + few.filter(is_of).map_values(edge));
}

/// Seeds and new crates are never asked for a bump. A breaking change is settled by a
/// major bump of one's own, an additive one by a minor or a major bump, and a patch by
/// any bump.
pub proof fn law_settled_changes(
    reach: ReachView,
    seeds: Set<Seq<char>>,
    new_crates: Set<Seq<char>>,
    bumps: Map<Seq<char>, Bump>,
    name: Seq<char>,
)
    ensures
        ({
            let left = settled(reach, seeds, new_crates, bumps);
            let free = seeds.contains(name) || new_crates.contains(name);
            let own = if bumps.dom().contains(name) {
                bumps[name]
            } else {
                Bump::Unchanged
            };
            &&& left.breaking.contains(name) <==> reach.breaking.contains(name) && !free && own
                != Bump::Major
            &&& left.additive.contains(name) <==> reach.additive.contains(name) && !free && own
                != Bump::Major && own != Bump::Minor
            &&& left.patch.contains(name) <==> reach.patch.contains(name) && !free && own
                == Bump::Unchanged
            &&& left.failed == reach.failed
            &&& left.edges == reach.edges
        }),
{
}

/// A node is ready exactly when each package of the workspace that it has a normal
/// dependency on, itself aside, has been processed.
pub proof fn law_ready_means_deps_are_processed(
    node: Node,
    ctx: WorkspaceContext,
    processed: Set<Seq<char>>,
)
    ensures
        is_ready(node, ctx, processed) <==> forall|i: int|
            0 <= i < node.deps@.len() && (#[trigger] node.deps@[i]).dep_kinds@.contains(
                DependencyKind::Normal,
            ) && node.deps@[i].pkg@ != node.id@ && ctx.workspace_members@.contains(
                node.deps@[i].pkg@,
            ) ==> processed.contains(ctx.names()[node.deps@[i].pkg@]),
{
    if is_ready(node, ctx, processed) {
        assert forall|i: int|
            0 <= i < node.deps@.len() && (#[trigger] node.deps@[i]).dep_kinds@.contains(
                DependencyKind::Normal,
            ) && node.deps@[i].pkg@ != node.id@ && ctx.workspace_members@.contains(
                node.deps@[i].pkg@,
            ) implies processed.contains(ctx.names()[node.deps@[i].pkg@]) by {
            assert(counts(node, node.deps@[i]));
        }
    }
}

/// A node is known exactly where the context has a name for it and for each package
/// that it has a normal dependency on, itself aside.
pub proof fn law_known_means_named(node: Node, ctx: WorkspaceContext)
    ensures
        is_known(ctx, node) <==> ctx.names().dom().contains(node.id@) && forall|i: int|
            0 <= i < node.deps@.len() && (#[trigger] node.deps@[i]).dep_kinds@.contains(
                DependencyKind::Normal,
            ) && node.deps@[i].pkg@ != node.id@ ==> ctx.names().dom().contains(node.deps@[i].pkg@),
{
    if is_known(ctx, node) {
        assert forall|i: int|
            0 <= i < node.deps@.len() && (#[trigger] node.deps@[i]).dep_kinds@.contains(
                DependencyKind::Normal,
            ) && node.deps@[i].pkg@ != node.id@ implies ctx.names().dom().contains(
            node.deps@[i].pkg@,
        ) by {
            assert(counts(node, node.deps@[i]));
        }
    }
}

/// The member positions are those of the nodes that belong to the workspace, in
/// ascending order.
pub proof fn law_member_positions_ascend(nodes: Seq<Node>, members: Set<Seq<char>>, n: nat)
    requires
        n <= nodes.len() <= usize::MAX,
    ensures
        ({
            let found = member_positions(nodes, members, n);
            &&& forall|k: int, l: int| 0 <= k < l < found.len() ==> found[k] < found[l]
            &&& forall|k: int| 0 <= k < found.len() ==> (#[trigger] found[k]) < n
            &&& forall|j: usize|
                j < n ==> (#[trigger] found.contains(j) <==> members.contains(nodes[j as int].id@))
        }),
    decreases n,
{
    if n > 0 {
        let m = (n - 1) as nat;
        law_member_positions_ascend(nodes, members, m);
        let before = member_positions(nodes, members, m);
        let found = member_positions(nodes, members, n);
        assert forall|j: usize| j < n implies (#[trigger] found.contains(j) <==> members.contains(
            nodes[j as int].id@,
        )) by {
            if before.contains(j) {
                let k = choose|k: int| 0 <= k < before.len() && before[k] == j;
                assert(found[k] == j);
            }
            if found.contains(j) && j < m {
                let k = choose|k: int| 0 <= k < found.len() && found[k] == j;
                assert(before[k] == j);
            }
            if j == m && members.contains(nodes[m as int].id@) {
                assert(found[before.len() as int] == j);
            }
            if j == m && found.contains(j) && !members.contains(nodes[m as int].id@) {
                let k = choose|k: int| 0 <= k < found.len() && found[k] == j;
                assert(before[k] < m);
            }
        }
    }
}

/// The pending nodes that are ready, and those that are not processed, keep their
/// order.
pub proof fn law_pending_nodes_keep_their_order(
    pending: Seq<usize>,
    nodes: Seq<Node>,
    ctx: WorkspaceContext,
    processed: Set<Seq<char>>,
    n: nat,
)
    requires
        n <= pending.len(),
    ensures
        ready_nodes(pending, nodes, ctx, processed, n) == pending.take(n as int).filter(
            |p: usize| is_ready(nodes[p as int], ctx, processed),
        ),
        unprocessed(pending, nodes, ctx, processed, n) == pending.take(n as int).filter(
            |p: usize| !processed.contains(ctx.names()[nodes[p as int].id@]),
        ),
    decreases n,
{
    reveal(Seq::filter);
    if n > 0 {
        law_pending_nodes_keep_their_order(pending, nodes, ctx, processed, (n - 1) as nat);
        let few = pending.take(n as int);
        assert(few.drop_last() =~= pending.take(n - 1));
        assert(few.last() == pending[n - 1]);
    }
}

/// Until a crate without a manifest comes, each ready node is checked, in their order;
/// there the checks end, and its name is told.
pub proof fn law_ready_nodes_are_checked(
    ready: Seq<usize>,
    nodes: Seq<Node>,
    ctx: WorkspaceContext,
    wave: WaveView,
    cli: Cli,
    n: nat,
)
    requires
        n <= ready.len(),
    ensures
        ({
            let (checks, events, lost) = checks_of(ready, nodes, ctx, wave, cli, n);
            &&& checks.len() <= n
            &&& forall|k: int|
                0 <= k < checks.len() ==> (#[trigger] checks[k]).position == ready[k]
                    && checks[k].check == pre_check(
                    nodes[ready[k] as int],
                    ctx,
                    wave,
                    cli.tree,
                    cli.include_binaries,
                ) && !(checks[k].check is Failed)
            &&& lost is None <==> checks.len() == n
            &&& n > 0 && checks.len() + 1 >= n ==> events == checks_of(
                ready,
                nodes,
                ctx,
                wave,
                cli,
                (n - 1) as nat,
            ).1 + pre_check_events(
                nodes[ready[n - 1] as int],
                ctx,
                wave,
                cli.tree,
                cli.include_binaries,
            )
            &&& lost matches Some(name) ==> pre_check(
                nodes[ready[checks.len() as int] as int],
                ctx,
                wave,
                cli.tree,
                cli.include_binaries,
            ) is Failed && name == ctx.names()[nodes[ready[checks.len() as int] as int].id@]
        }),
    decreases n,
{
    if n > 0 {
        law_ready_nodes_are_checked(ready, nodes, ctx, wave, cli, (n - 1) as nat);
    }
}

/// The crates that need their documentation are asked for it, in their order, each
/// with its manifest, and no others.
pub proof fn law_needed_documentation_is_asked_for(
    checks: Seq<CheckView>,
    nodes: Seq<Node>,
    ctx: WorkspaceContext,
    n: nat,
)
    requires
        n <= checks.len(),
    ensures
        builds_of(checks, nodes, ctx, n) == checks.take(n as int).filter(
            |c: CheckView| c.check is NeedsRustdoc,
        ).map_values(
            |c: CheckView|
                (ctx.names()[nodes[c.position as int].id@], c.check->NeedsRustdoc_manifest),
        ),
    decreases n,
{
    reveal(Seq::filter);
    let needs = |c: CheckView| c.check is NeedsRustdoc;
    let build = |c: CheckView|
        (ctx.names()[nodes[c.position as int].id@], c.check->NeedsRustdoc_manifest);
    let few = checks.take(n as int);
    if n > 0 {
        law_needed_documentation_is_asked_for(checks, nodes, ctx, (n - 1) as nat);
        let before = checks.take(n - 1);
        assert(few.drop_last() =~= before);
        assert(few.last() == checks[n - 1]);
        if checks[n - 1].check is NeedsRustdoc {
            assert(few.filter(needs) == before.filter(needs).push(checks[n - 1]));
        } else {
            assert(few.filter(needs) == before.filter(needs));
        }
    }
    assert(builds_of(checks, nodes, ctx, n) =~= few.filter(needs).map_values(build));
}

/// A crate that was checked is passed as its evaluation in the wave of the check says,
/// and reported so; where its documentation is missing or cannot be read, the wave
/// stops there, and no crate after it is passed.
pub proof fn law_checked_crates_are_passed(
    reach: ReachView,
    checks: Seq<CheckView>,
    nodes: Seq<Node>,
    ctx: WorkspaceContext,
    cli: Cli,
    built: Map<Seq<char>, RustdocOutcome>,
    wave: WaveView,
    n: nat,
)
    requires
        0 < n <= checks.len(),
        checks[n - 1].check == pre_check(
            nodes[checks[n - 1].position as int],
            ctx,
            wave,
            cli.tree,
            cli.include_binaries,
        ),
        !(checks[n - 1].check is Failed),
    ensures
        ({
            let (before, events, stop) = conclusion(
                reach,
                checks,
                nodes,
                ctx,
                cli,
                built,
                (n - 1) as nat,
            );
            let (after, more, end) = conclusion(reach, checks, nodes, ctx, cli, built, n);
            let node = nodes[checks[n - 1].position as int];
            let name = ctx.names()[node.id@];
            let rustdoc = if built.dom().contains(name) {
                Some(built[name])
            } else {
                None
            };
            let told = evaluation(
                node,
                ctx,
                (WaveView { failed: before.failed, ..wave }),
                cli,
                rustdoc,
            );
            &&& stop is Some ==> after == before && more == events && end == stop
            &&& stop is None ==> match told.0 {
                EvaluationView::Done(bump) => {
                    &&& end is None
                    &&& after == passed(ReachView { failed: told.1, ..before }, name, bump)
                    &&& checks[n - 1].check is NeedsRustdoc ==> more == events + told.2
                    &&& checks[n - 1].check is EarlyReturn ==> more == events
                },
                EvaluationView::NeedsRustdoc(_) => after == before && more == events && end == Some(
                    DocsFault::Missing(name),
                ),
                EvaluationView::Failed(_) => after == before && more == events && end == Some(
                    DocsFault::Unreadable(name),
                ),
            }
        }),
{
    let before = conclusion(reach, checks, nodes, ctx, cli, built, (n - 1) as nat).0;
    let events = conclusion(reach, checks, nodes, ctx, cli, built, (n - 1) as nat).1;
    let node = nodes[checks[n - 1].position as int];
    let name = ctx.names()[node.id@];
    let held = WaveView { failed: before.failed, ..wave };
    lemma_affected_alike(node, ctx.names(), wave, held, node.deps@.len());
    assert(pre_check(node, ctx, wave, cli.tree, cli.include_binaries) == pre_check(
        node,
        ctx,
        held,
        cli.tree,
        cli.include_binaries,
    ));
    let after = conclusion(reach, checks, nodes, ctx, cli, built, n);
    if checks[n - 1].check is NeedsRustdoc && built.dom().contains(name) {
        if let RustdocOutcome::Failed(error) = built[name] {
            let told = evaluation(node, ctx, held, cli, Some(built[name]));
            assert(told.2.len() == 1);
            assert(events.push(told.2[0]) =~= events + told.2);
        }
    }
    assert(ReachView { failed: before.failed, ..before } == before);
}

proof fn lemma_affected_alike(
    node: Node,
    names: Map<Seq<char>, Seq<char>>,
    one: WaveView,
    other: WaveView,
    n: nat,
)
    requires
        one.breaking == other.breaking,
        one.additive == other.additive,
    ensures
        affected_deps(node, names, one, n) == affected_deps(
            node,
            names,
            other,
            n,
        ),
    decreases n,
{
    if n > 0 {
        lemma_affected_alike(node, names, one, other, (n - 1) as nat);
    }
}

/// A sweep that comes by a node leaves it if it is not ready. If it is ready, and its
/// evaluation tells what becomes of it, the node is no longer pending, its crate is
/// processed, and the wave has passed it.
pub proof fn law_sweep_processes_ready_nodes(
    s: SweepView,
    nodes: Seq<Node>,
    ctx: WorkspaceContext,
    cli: Cli,
    rustdoc: Option<RustdocOutcome>,
)
    requires
        0 < s.cursor <= s.pending.len(),
    ensures
        ({
            let at = s.cursor - 1;
            let node = nodes[s.pending[at] as int];
            let name = ctx.names()[node.id@];
            let told = evaluation(node, ctx, s.reach.wave(), cli, rustdoc);
            let (end, step, events) = advance(s, nodes, ctx, cli, rustdoc);
            &&& !is_ready(node, ctx, s.processed) ==> (end, step, events) == advance(
                SweepView { cursor: at as nat, ..s },
                nodes,
                ctx,
                cli,
                rustdoc,
            )
            &&& is_ready(node, ctx, s.processed) ==> match told.0 {
                EvaluationView::Done(bump) => {
                    let next = SweepView {
                        pending: s.pending.remove(at),
                        cursor: at as nat,
                        made_progress: true,
                        processed: s.processed.insert(name),
                        reach: passed(ReachView { failed: told.1, ..s.reach }, name, bump),
                    };
                    let rest = advance(next, nodes, ctx, cli, None);
                    end == rest.0 && step == rest.1 && events == told.2 + rest.2
                },
                EvaluationView::NeedsRustdoc(manifest) => end == s && step == RunStepView::Build(
                    name,
                    manifest,
                ) && events == told.2,
                EvaluationView::Failed(e) => end == s && events == told.2 && (step
                    == RunStepView::NoManifestPath(name) || step == RunStepView::UnreadableDocs(
                    name,
                )),
            }
        }),
{
}

/// The sweeps end where no node is pending; they are stuck exactly where nodes are
/// pending and a whole sweep has processed none; else another sweep begins.
pub proof fn law_sweeps_end_or_go_on(
    s: SweepView,
    nodes: Seq<Node>,
    ctx: WorkspaceContext,
    cli: Cli,
    rustdoc: Option<RustdocOutcome>,
)
    requires
        s.cursor == 0,
    ensures
        ({
            let (end, step, events) = advance(s, nodes, ctx, cli, rustdoc);
            &&& s.pending.len() == 0 ==> step is Finished && end == s && events.len() == 0
            &&& s.pending.len() > 0 && !s.made_progress ==> step is Stuck && end == s
                && events.len() == 0
            &&& s.pending.len() > 0 && s.made_progress ==> (end, step, events) == advance(
                SweepView { cursor: s.pending.len(), made_progress: false, ..s },
                nodes,
                ctx,
                cli,
                rustdoc,
            )
        }),
{
}

/// The crates that the user has named are the seeds, all of them breaking; there are
/// no others, no local bumps and no new crates.
pub proof fn law_named_crates_are_breaking_seeds(names: Set<Seq<char>>, name: Seq<char>)
    ensures
        ({
            let seeds = named_seeds(names);
            &&& seeds.all.contains(name) <==> names.contains(name)
            &&& seeds.wave.breaking.contains(name) <==> names.contains(name)
            &&& !seeds.wave.additive.contains(name)
            &&& !seeds.wave.failed.contains(name)
            &&& !seeds.bumps.dom().contains(name)
            &&& !seeds.new_crates.contains(name)
            &&& seeds.is_direct
        }),
{
}

/// The seeds of detected changes are the breaking and the additive ones; the local
/// bumps and the new crates are handed on.
pub proof fn law_detected_changes_are_the_seeds(changes: VersionChanges, name: Seq<char>)
    ensures
        ({
            let seeds = seeds_among(changes);
            &&& seeds.all.contains(name) <==> changes.breaking_seeds@.contains(name)
                || changes.additive_seeds@.contains(name)
            &&& seeds.wave.breaking == changes.breaking_seeds@
            &&& seeds.wave.additive == changes.additive_seeds@
            &&& !seeds.wave.failed.contains(name)
            &&& seeds.bumps == changes.local_bumps@
            &&& seeds.new_crates == changes.new_crates@
            &&& !seeds.is_direct
        }),
{
}

/// The run tells the breaking seeds and the additive seeds, of each where there are
/// any, in this order; and that nothing changed exactly where there are none at all.
pub proof fn law_seeds_are_told(changes: VersionChanges)
    ensures
        ({
            let breaking = changes.breaking_seeds@;
            let additive = changes.additive_seeds@;
            let none = Set::<Seq<char>>::empty();
            let events = seed_events(changes);
            &&& breaking == none && additive == none ==> events == seq![
                EventView::NoChangesDetected,
            ]
            &&& breaking != none && additive == none ==> events == seq![
                EventView::BreakingSeeds { names: breaking },
            ]
            &&& breaking == none && additive != none ==> events == seq![
                EventView::AdditiveSeeds { names: additive },
            ]
            &&& breaking != none && additive != none ==> events == seq![
                EventView::BreakingSeeds { names: breaking },
                EventView::AdditiveSeeds { names: additive },
            ]
        }),
{
}

/// A seed is unknown exactly where no package has its name.
pub proof fn law_unknown_seeds_are_no_packages(
    seeds: Set<Seq<char>>,
    packages: Seq<Package>,
    name: Seq<char>,
)
    ensures
        unknown_seeds(seeds, packages).contains(name) <==> seeds.contains(name) && forall|i: int|
            0 <= i < packages.len() ==> (#[trigger] packages[i]).name@ != name,
{
}

/// The wave starts with the seeds, each with its change, and with nothing else; all
/// members of the workspace are pending.
pub proof fn law_wave_starts_with_the_seeds(
    seeds: SeedsView,
    nodes: Seq<Node>,
    ctx: WorkspaceContext,
    name: Seq<char>,
    j: usize,
)
    requires
        j < nodes.len() <= usize::MAX,
    ensures
        ({
            let s = first_sweep(seeds, nodes, ctx);
            &&& s.reach.breaking == seeds.wave.breaking
            &&& s.reach.additive == seeds.wave.additive
            &&& s.reach.failed == seeds.wave.failed
            &&& !s.reach.patch.contains(name)
            &&& !s.reach.edges.dom().contains(name)
            &&& !s.processed.contains(name)
            &&& s.pending.contains(j) <==> ctx.workspace_members@.contains(nodes[j as int].id@)
        }),
{
    law_member_positions_ascend(nodes, ctx.workspace_members@, nodes.len());
}

/// What is needed next is told where a wave pauses: the crates that were checked, in
/// what the wave has reached by now, that need their documentation. None is needed
/// exactly where no node is pending.
pub proof fn law_wave_pauses_for_documentation(
    p: PropagationView,
    nodes: Seq<Node>,
    ctx: WorkspaceContext,
    cli: Cli,
    built: Map<Seq<char>, RustdocOutcome>,
)
    requires
        p.well_formed(nodes, ctx),
    ensures
        ({
            let (end, step, events) = drive(p, nodes, ctx, cli, built);
            step matches StepView::Build(builds) ==> {
                &&& builds.len() == 0 <==> end.pending.len() == 0
                &&& builds.len() > 0 ==> builds == builds_of(
                    end.checks,
                    nodes,
                    ctx,
                    end.checks.len(),
                )
                &&& forall|k: int|
                    0 <= k < end.checks.len() ==> (#[trigger] end.checks[k]).check == pre_check(
                        nodes[end.checks[k].position as int],
                        ctx,
                        end.reach.wave(),
                        cli.tree,
                        cli.include_binaries,
                    )
                &&& builds.len() > 0 ==> forall|k: int|
                    0 <= k < end.pending.len() && is_ready(
                        nodes[#[trigger] end.pending[k] as int],
                        ctx,
                        end.processed,
                    ) ==> exists|c: int|
                        0 <= c < end.checks.len() && (#[trigger] end.checks[c]).position
                            == end.pending[k]
            }
        }),
    decreases
            p.pending.len(),
            if p.checks.len() == 0 {
                1int
            } else {
                0
            },
{
    let (reach, events, stop) = conclusion(
        p.reach,
        p.checks,
        nodes,
        ctx,
        cli,
        built,
        p.checks.len(),
    );
    let q = p.after_checks(reach, nodes, ctx);
    let ready = ready_nodes(q.pending, nodes, ctx, q.processed, q.pending.len());
    let (checks, more, lost) = checks_of(ready, nodes, ctx, reach.wave(), cli, ready.len());
    let builds = builds_of(checks, nodes, ctx, checks.len());
    let next = PropagationView { checks, ..q };
    law_ready_nodes_are_checked(ready, nodes, ctx, reach.wave(), cli, ready.len());
    lemma_wave_goes_on(p, reach, nodes, ctx, cli);
    lemma_ready(q.pending, nodes, ctx, q.processed, q.pending.len());
    if stop is None && lost is None && q.pending.len() > 0 && ready.len() > 0 {
        if builds.len() == 0 {
            law_wave_pauses_for_documentation(next, nodes, ctx, cli, Map::empty());
        } else {
            assert forall|k: int|
                0 <= k < q.pending.len() && is_ready(
                    nodes[#[trigger] q.pending[k] as int],
                    ctx,
                    q.processed,
                ) implies exists|c: int|
                0 <= c < checks.len() && (#[trigger] checks[c]).position == q.pending[k] by {
                assert(ready.contains(q.pending[k]));
                let c = choose|c: int| 0 <= c < ready.len() && ready[c] == q.pending[k];
                assert(checks[c].position == q.pending[k]);
            }
        }
    }
}

proof fn lemma_ready(
    pending: Seq<usize>,
    nodes: Seq<Node>,
    ctx: WorkspaceContext,
    processed: Set<Seq<char>>,
    n: nat,
)
    requires
        n <= pending.len(),
    ensures
        forall|k: int|
            0 <= k < n && is_ready(nodes[#[trigger] pending[k] as int], ctx, processed)
                ==> ready_nodes(pending, nodes, ctx, processed, n).contains(pending[k]),
    decreases n,
{
    if n > 0 {
        let m = (n - 1) as nat;
        lemma_ready(pending, nodes, ctx, processed, m);
        let before = ready_nodes(pending, nodes, ctx, processed, m);
        let all = ready_nodes(pending, nodes, ctx, processed, n);
        assert forall|k: int|
            0 <= k < n && is_ready(nodes[#[trigger] pending[k] as int], ctx, processed) implies all.contains(
            pending[k],
        ) by {
            if k < m {
                let j = choose|j: int| 0 <= j < before.len() && before[j] == pending[k];
                assert(all[j] == pending[k]);
            } else {
                assert(all[before.len() as int] == pending[k]);
            }
        }
    }
}

/// A wave goes on with what it has passed: its next round starts where the passed
/// crates are processed and no longer pending. Where it stops at a crate, the crates
/// before that one are passed.
pub proof fn law_wave_passes_what_was_checked(
    p: PropagationView,
    nodes: Seq<Node>,
    ctx: WorkspaceContext,
    cli: Cli,
    built: Map<Seq<char>, RustdocOutcome>,
)
    requires
        p.well_formed(nodes, ctx),
        p.checks.len() > 0,
    ensures
        ({
            let (reach, events, stop) = conclusion(
                p.reach,
                p.checks,
                nodes,
                ctx,
                cli,
                built,
                p.checks.len(),
            );
            let (end, step, told) = drive(p, nodes, ctx, cli, built);
            &&& stop matches Some(fault) ==> {
                &&& step == match fault {
                    DocsFault::Missing(name) => StepView::MissingRustdoc(name),
                    DocsFault::Unreadable(name) => StepView::UnreadableDocs(name),
                }
                &&& end.reach == reach
                &&& end.pending == p.pending
                &&& end.processed == p.processed
                &&& told == events
            }
            &&& stop is None ==> {
                let next = PropagationView {
                    pending: p.pending.filter(
                        |k: usize|
                            !p.processed.contains(ctx.names()[nodes[k as int].id@]) && !exists|
                                c: int,
                            |
                                0 <= c < p.checks.len() && ctx.names()[nodes[(
                                #[trigger] p.checks[c]).position as int].id@]
                                    == ctx.names()[nodes[k as int].id@],
                    ),
                    checks: Seq::empty(),
                    processed: p.processed.union(
                        Set::new(
                            |name: Seq<char>|
                                exists|c: int|
                                    0 <= c < p.checks.len() && ctx.names()[nodes[(
                                    #[trigger] p.checks[c]).position as int].id@] == name,
                        ),
                    ),
                    reach,
                };
                let rest = drive(next, nodes, ctx, cli, Map::empty());
                end == rest.0 && step == rest.1 && told == events + rest.2
            }
        }),
{
    let (reach, events, stop) = conclusion(
        p.reach,
        p.checks,
        nodes,
        ctx,
        cli,
        built,
        p.checks.len(),
    );
    if stop is None {
        let q = p.after_checks(reach, nodes, ctx);
        law_pending_nodes_keep_their_order(p.pending, nodes, ctx, q.processed, p.pending.len());
        assert(p.pending.take(p.pending.len() as int) =~= p.pending);
        let names = Set::new(
            |name: Seq<char>|
                exists|c: int|
                    0 <= c < p.checks.len() && ctx.names()[nodes[(
                    #[trigger] p.checks[c]).position as int].id@] == name,
        );
        let keep = |k: usize|
            !p.processed.contains(ctx.names()[nodes[k as int].id@]) && !exists|c: int|
                0 <= c < p.checks.len() && ctx.names()[nodes[(
                #[trigger] p.checks[c]).position as int].id@] == ctx.names()[nodes[k as int].id@];
        let open = |k: usize| !q.processed.contains(ctx.names()[nodes[k as int].id@]);
        assert(q.processed =~= p.processed.union(names));
        assert forall|k: usize| #[trigger] keep(k) == open(k) by {
            assert(names.contains(ctx.names()[nodes[k as int].id@]) == exists|c: int|
                0 <= c < p.checks.len() && ctx.names()[nodes[(
                #[trigger] p.checks[c]).position as int].id@] == ctx.names()[nodes[k as int].id@]);
        }
        assert(keep =~= open);
        lemma_wave_goes_on(p, reach, nodes, ctx, cli);
        let next = PropagationView {
            pending: p.pending.filter(keep),
            checks: Seq::empty(),
            processed: p.processed.union(names),
            reach,
        };
        assert(next == q);
        lemma_drive_empty(p, q, nodes, ctx, cli, built);
    }
}

/// A wave that has passed its checks goes on as one that has none.
proof fn lemma_drive_empty(
    p: PropagationView,
    q: PropagationView,
    nodes: Seq<Node>,
    ctx: WorkspaceContext,
    cli: Cli,
    built: Map<Seq<char>, RustdocOutcome>,
)
    requires
        p.well_formed(nodes, ctx),
        conclusion(p.reach, p.checks, nodes, ctx, cli, built, p.checks.len()).2 is None,
        q == p.after_checks(
            conclusion(p.reach, p.checks, nodes, ctx, cli, built, p.checks.len()).0,
            nodes,
            ctx,
        ),
        q.well_formed(nodes, ctx),
    ensures
        ({
            let events = conclusion(p.reach, p.checks, nodes, ctx, cli, built, p.checks.len()).1;
            let (end, step, told) = drive(p, nodes, ctx, cli, built);
            let rest = drive(q, nodes, ctx, cli, Map::empty());
            end == rest.0 && step == rest.1 && told == events + rest.2
        }),
{
    let (reach, events, stop) = conclusion(
        p.reach,
        p.checks,
        nodes,
        ctx,
        cli,
        built,
        p.checks.len(),
    );
    let none = Map::<Seq<char>, RustdocOutcome>::empty();
    let again = q.after_checks(q.reach, nodes, ctx);
    assert(crate::propagate::checked_names(q.checks, nodes, ctx) =~= Set::empty());
    assert(again.processed =~= q.processed);
    law_pending_nodes_keep_their_order(p.pending, nodes, ctx, q.processed, p.pending.len());
    law_pending_nodes_keep_their_order(q.pending, nodes, ctx, q.processed, q.pending.len());
    let open = |k: usize| !q.processed.contains(ctx.names()[nodes[k as int].id@]);
    assert(p.pending.take(p.pending.len() as int) =~= p.pending);
    assert(q.pending.take(q.pending.len() as int) =~= q.pending);
    lemma_filter_twice(p.pending, open);
    assert(again.pending == q.pending);
    assert(again == q);
    assert(conclusion(q.reach, q.checks, nodes, ctx, cli, none, 0) == (
        q.reach,
        Seq::<EventView>::empty(),
        None::<DocsFault>,
    ));
    let ready = ready_nodes(q.pending, nodes, ctx, q.processed, q.pending.len());
    let (checks, more, lost) = checks_of(ready, nodes, ctx, reach.wave(), cli, ready.len());
    let next = PropagationView { checks, ..q };
    let far = drive(next, nodes, ctx, cli, none);
    let nothing = Seq::<EventView>::empty();
    assert(events + nothing =~= events);
    assert(nothing + more =~= more);
    assert(events + (nothing + more) =~= events + more);
    assert(events + (nothing + more + far.2) =~= events + more + far.2);
}

proof fn lemma_filter_twice(s: Seq<usize>, keep: spec_fn(usize) -> bool)
    ensures
        s.filter(keep).filter(keep) == s.filter(keep),
    decreases s.len(),
{
    reveal(Seq::filter);
    if s.len() > 0 {
        lemma_filter_twice(s.drop_last(), keep);
        let few = s.drop_last().filter(keep);
        if keep(s.last()) {
            let all = s.filter(keep);
            assert(all == few.push(s.last()));
            assert(all.drop_last() =~= few);
            assert(all.last() == s.last());
        }
    }
}

} // verus!
