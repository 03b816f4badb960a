//! How changes spread through a workspace.
use vstd::prelude::*;

use crate::cli::Cli;
use crate::display::{influence, Influence};
use crate::evaluate::{
    analysis, analyze_rustdoc, change_of, conservative_fallback, counts, fallback, is_known,
    is_normal_dep, name_of, pre_check, pre_check_crate, pre_check_events, pre_check_view,
    CrateBump, CrateBumpView, DepInfluence, InfluenceView, PreCheckResult,
    PreCheckView, RustdocOutcome, WaveState, WaveView, WorkspaceContext,
};
use crate::graph::{has_edge, has_no_end, is_closed_walk, lemma_no_end_has_closed_walk, Adjacency};
use crate::names::{NameMap, NameSet};
use crate::order::text_eq;
use crate::report::event::EventView;
use crate::report::sink::EventSink;
use crate::rustdoc_json::rustdoc_document;
use crate::semver::{Bump, ChangeKind};
use crate::text::texts;
use crate::types::{CrateName, ManifestPath, TreeEdge, TreeEdgeView};
use crate::workspace::Node;

verus! {

/// What the wave has reached, and how.
#[derive(Debug)]
pub struct PropagationResult {
    pub state: WaveState,
    pub patch_crates: NameSet,
    pub tree_edges: NameMap<Vec<TreeEdge>>,
}

/// What the wave has reached, and how.
#[verifier::ext_equal]
pub struct ReachView {
    pub breaking: Set<Seq<char>>,
    pub additive: Set<Seq<char>>,
    pub patch: Set<Seq<char>>,
    pub failed: Set<Seq<char>>,
    pub edges: Influence,
}

impl View for PropagationResult {
    type V = ReachView;

    open spec fn view(&self) -> ReachView {
        ReachView {
            breaking: self.state.breaking_crates@,
            additive: self.state.additive_crates@,
            patch: self.patch_crates@,
            failed: self.state.failed@,
            edges: influence(self.tree_edges@),
        }
    }
}

impl ReachView {
    /// The state of the wave alone.
    pub open spec fn wave(self) -> WaveView {
        WaveView { breaking: self.breaking, additive: self.additive, failed: self.failed }
    }
}

/// The edges that leave a crate.
pub open spec fn edges_from(edges: Influence, parent: Seq<char>) -> Seq<TreeEdgeView> {
    if edges.dom().contains(parent) {
        edges[parent]
    } else {
        Seq::empty()
    }
}

/// `edges` with an edge to `child` for each of the first `n` influences.
pub open spec fn with_influences(
    edges: Influence,
    child: Seq<char>,
    influences: Seq<InfluenceView>,
    n: nat,
) -> Influence
    decreases n,
{
    if n == 0 {
        edges
    } else {
        let before = with_influences(edges, child, influences, (n - 1) as nat);
        let last = influences[n - 1];
        before.insert(
            last.dep,
            edges_from(before, last.dep).push(TreeEdgeView { child, bump: last.bump }),
        )
    }
}

/// Add an edge from each dependency that influences `node_name` to it.
pub fn record_influences(
    tree_edges: &mut NameMap<Vec<TreeEdge>>,
    node_name: &CrateName,
    influences: &Vec<DepInfluence>,
)
    ensures
        influence(final(tree_edges)@) == with_influences(
            influence(old(tree_edges)@),
            node_name@,
            influences.deep_view(),
            influences@.len(),
        ),
{
    let ghost before = influence(tree_edges@);
    let ghost all = influences.deep_view();
    for i in 0..influences.len()
        invariant
            all == influences.deep_view(),
            influence(tree_edges@) == with_influences(before, node_name@, all, i as nat),
    {
        let dep = &influences[i];
        let ghost had = influence(tree_edges@);
        assert(all[i as int] == dep.deep_view());
        let mut edges: Vec<TreeEdge> = match tree_edges.remove(dep.dep_name.as_str()) {
            Some(edges) => edges,
            None => Vec::new(),
        };
        let ghost views = edges.deep_view();
        assert(views =~= edges_from(had, dep.dep_name@));
        let edge = TreeEdge { child: node_name.clone(), bump: dep.bump };
        edges.push(edge);
        assert(edges.deep_view() =~= views.push(edge.deep_view()));
        tree_edges.insert(dep.dep_name.as_str().to_owned(), edges);
        assert(influence(tree_edges@) =~= had.insert(dep.dep_name@, edges.deep_view()));
    }
}

impl WaveState {
    /// Note how a crate changes; one that needs a patch goes to `patch_crates`.
    pub fn record_change(
        &mut self,
        node_name: &CrateName,
        change: ChangeKind,
        patch_crates: &mut NameSet,
    )
        ensures
            final(self)@ == (WaveView {
                breaking: if change == ChangeKind::Breaking {
                    old(self)@.breaking.insert(node_name@)
                } else {
                    old(self)@.breaking
                },
                additive: if change == ChangeKind::Additive {
                    old(self)@.additive.insert(node_name@)
                } else {
                    old(self)@.additive
                },
                failed: old(self)@.failed,
            }),
            final(patch_crates)@ == if change == ChangeKind::Patch {
                old(patch_crates)@.insert(node_name@)
            } else {
                old(patch_crates)@
            },
    {
        let name = node_name.as_str().to_owned();
        match change {
            ChangeKind::Breaking => {
                self.breaking_crates.insert(name);
            },
            ChangeKind::Additive => {
                self.additive_crates.insert(name);
            },
            ChangeKind::Patch => {
                patch_crates.insert(name);
            },
            ChangeKind::Unchanged => {},
        }
    }
}

/// The wave after it has passed the crate `name`.
pub open spec fn passed(reach: ReachView, name: Seq<char>, bump: CrateBumpView) -> ReachView {
    ReachView {
        breaking: if bump.change == ChangeKind::Breaking {
            reach.breaking.insert(name)
        } else {
            reach.breaking
        },
        additive: if bump.change == ChangeKind::Additive {
            reach.additive.insert(name)
        } else {
            reach.additive
        },
        patch: if bump.change == ChangeKind::Patch {
            reach.patch.insert(name)
        } else {
            reach.patch
        },
        failed: reach.failed,
        edges: with_influences(reach.edges, name, bump.influences, bump.influences.len()),
    }
}

impl PropagationResult {
    /// A wave that has passed no crate yet.
    pub fn new(state: WaveState) -> (r: PropagationResult)
        ensures
            r@ == (ReachView {
                breaking: state@.breaking,
                additive: state@.additive,
                patch: Set::empty(),
                failed: state@.failed,
                edges: Map::empty(),
            }),
    {
        let r = PropagationResult {
            state,
            patch_crates: NameSet::new(),
            tree_edges: NameMap::new(),
        };
        assert(r@.edges =~= Map::empty());
        r
    }

    /// Note what becomes of a crate.
    pub fn pass(&mut self, node_name: &CrateName, bump: &CrateBump)
        ensures
            final(self)@ == passed(old(self)@, node_name@, bump@),
    {
        assert(bump@.influences.len() == bump.influences@.len());
        record_influences(&mut self.tree_edges, node_name, &bump.influences);
        self.state.record_change(node_name, bump.change, &mut self.patch_crates);
        assert(self@ =~= passed(old(self)@, node_name@, bump@));
    }

    /// Forget the crates that need no further bump: the seeds, the new crates,
    /// and those whose own bump is large enough.
    pub fn settle(
        &mut self,
        all_seeds: &NameSet,
        new_crates: &NameSet,
        local_bumps: &NameMap<Bump>,
    )
        ensures
            final(self)@ == settled(old(self)@, all_seeds@, new_crates@, local_bumps@),
    {
        let breaking = still_open(
            &self.state.breaking_crates,
            all_seeds,
            new_crates,
            local_bumps,
            Bump::Major,
        );
        let additive = still_open(
            &self.state.additive_crates,
            all_seeds,
            new_crates,
            local_bumps,
            Bump::Minor,
        );
        let patch = still_open(
            &self.patch_crates,
            all_seeds,
            new_crates,
            local_bumps,
            Bump::Patch,
        );
        self.state.breaking_crates = breaking;
        self.state.additive_crates = additive;
        self.patch_crates = patch;
        assert(self@ =~= settled(old(self)@, all_seeds@, new_crates@, local_bumps@));
    }
}

/// The crate `name` needs no bump beyond what is known: it is a seed, it is new,
/// or its own bump is at least `level`.
pub open spec fn is_covered(
    name: Seq<char>,
    seeds: Set<Seq<char>>,
    new_crates: Set<Seq<char>>,
    bumps: Map<Seq<char>, Bump>,
    level: Bump,
) -> bool {
    ||| seeds.contains(name)
    ||| new_crates.contains(name)
    ||| bumps.dom().contains(name) && bumps[name].rank() >= level.rank()
}

/// Those of `names` that need a further bump.
pub open spec fn open_names(
    names: Set<Seq<char>>,
    seeds: Set<Seq<char>>,
    new_crates: Set<Seq<char>>,
    bumps: Map<Seq<char>, Bump>,
    level: Bump,
) -> Set<Seq<char>> {
    Set::new(
        |name: Seq<char>|
            names.contains(name) && !is_covered(name, seeds, new_crates, bumps, level),
    )
}

/// What is left of a wave without the crates that need no further bump: a
/// breaking change is covered by a major bump, an additive one by a minor bump,
/// and a patch by any bump.
pub open spec fn settled(
    reach: ReachView,
    seeds: Set<Seq<char>>,
    new_crates: Set<Seq<char>>,
    bumps: Map<Seq<char>, Bump>,
) -> ReachView {
    ReachView {
        breaking: open_names(reach.breaking, seeds, new_crates, bumps, Bump::Major),
        additive: open_names(reach.additive, seeds, new_crates, bumps, Bump::Minor),
        patch: open_names(reach.patch, seeds, new_crates, bumps, Bump::Patch),
        ..reach
    }
}

fn still_open(
    names: &NameSet,
    seeds: &NameSet,
    new_crates: &NameSet,
    bumps: &NameMap<Bump>,
    level: Bump,
) -> (r: NameSet)
    ensures
        r@ == open_names(names@, seeds@, new_crates@, bumps@, level),
{
    let mut r = NameSet::new();
    let list = names.names();
    let ghost all = texts(list@);
    for i in 0..list.len()
        invariant
            all == texts(list@),
            all.to_set() == names@,
            forall|name: Seq<char>| #[trigger]
                r@.contains(name) <==> !is_covered(name, seeds@, new_crates@, bumps@, level)
                    && exists|k: int| 0 <= k < i && #[trigger] all[k] == name,
    {
        let name = &list[i];
        assert(all[i as int] == name@);
        let bumped = match bumps.get(name.as_str()) {
            Some(bump) => bump.at_least(level),
            None => false,
        };
        if !bumped && !seeds.contains(name.as_str()) && !new_crates.contains(name.as_str()) {
            r.insert(name.clone());
        }
    }
    proof {
        let want = open_names(names@, seeds@, new_crates@, bumps@, level);
        assert forall|name: Seq<char>| r@.contains(name) <==> want.contains(name) by {
            assert(names@.contains(name) <==> all.to_set().contains(name));
            if all.contains(name) {
                let k = choose|k: int| 0 <= k < all.len() && all[k] == name;
                assert(all[k] == name);
            }
        }
        assert(r@ =~= want);
    }
    r
}

/// The crates that a node depends on in the workspace are all in `processed`.
pub open spec fn is_ready(node: Node, ctx: WorkspaceContext, processed: Set<Seq<char>>) -> bool {
    forall|i: int|
        0 <= i < node.deps@.len() && counts(node, #[trigger] node.deps@[i])
            && ctx.workspace_members@.contains(node.deps@[i].pkg@) ==> processed.contains(
            ctx.names()[node.deps@[i].pkg@],
        )
}

/// Whether the crates that a node depends on in the workspace are all processed.
pub fn deps_ready(node: &Node, ctx: &WorkspaceContext, processed: &NameSet) -> (r: bool)
    requires
        is_known(*ctx, *node),
    ensures
        r == is_ready(*node, *ctx, processed@),
{
    for i in 0..node.deps.len()
        invariant
            is_known(*ctx, *node),
            forall|j: int|
                0 <= j < i && counts(*node, #[trigger] node.deps@[j])
                    && ctx.workspace_members@.contains(node.deps@[j].pkg@) ==> processed@.contains(
                    ctx.names()[node.deps@[j].pkg@],
                ),
    {
        let dep = &node.deps[i];
        if is_normal_dep(dep) && !text_eq(dep.pkg.as_str(), node.id.as_str())
            && ctx.workspace_members.contains(dep.pkg.as_str()) {
            assert(counts(*node, node.deps@[i as int]));
            if !processed.contains(name_of(ctx, dep.pkg.as_str()).as_str()) {
                return false;
            }
        }
    }
    true
}

/// The positions of those of the first `n` nodes that belong to the workspace.
pub open spec fn member_positions(nodes: Seq<Node>, members: Set<Seq<char>>, n: nat) -> Seq<usize>
    decreases n,
{
    if n == 0 {
        Seq::empty()
    } else {
        let before = member_positions(nodes, members, (n - 1) as nat);
        if members.contains(nodes[n - 1].id@) {
            before.push((n - 1) as usize)
        } else {
            before
        }
    }
}

/// The positions of the nodes that belong to the workspace.
pub fn find_members(nodes: &Vec<Node>, ctx: &WorkspaceContext) -> (r: Vec<usize>)
    ensures
        r@ == member_positions(nodes@, ctx.workspace_members@, nodes@.len()),
{
    let mut r: Vec<usize> = Vec::new();
    for i in 0..nodes.len()
        invariant
            r@ == member_positions(nodes@, ctx.workspace_members@, i as nat),
    {
        if ctx.workspace_members.contains(nodes[i].id.as_str()) {
            r.push(i);
        }
    }
    r
}

/// Each of the positions is that of a node that the context knows.
pub open spec fn are_known(
    positions: Seq<usize>,
    nodes: Seq<Node>,
    ctx: WorkspaceContext,
) -> bool {
    forall|k: int|
        0 <= k < positions.len() ==> (#[trigger] positions[k]) < nodes.len() && is_known(
            ctx,
            nodes[positions[k] as int],
        )
}

/// The context knows each node that belongs to the workspace.
pub open spec fn is_consistent(nodes: Seq<Node>, ctx: WorkspaceContext) -> bool {
    forall|i: int|
        0 <= i < nodes.len() && ctx.workspace_members@.contains((#[trigger] nodes[i]).id@)
            ==> is_known(ctx, nodes[i])
}

/// Whether the context knows each node that belongs to the workspace.
pub fn check_consistent(nodes: &Vec<Node>, ctx: &WorkspaceContext) -> (r: bool)
    ensures
        r == is_consistent(nodes@, *ctx),
{
    for i in 0..nodes.len()
        invariant
            forall|j: int|
                0 <= j < i && ctx.workspace_members@.contains((#[trigger] nodes@[j]).id@)
                    ==> is_known(*ctx, nodes@[j]),
    {
        if ctx.workspace_members.contains(nodes[i].id.as_str()) && !check_known(&nodes[i], ctx) {
            return false;
        }
    }
    true
}

/// Whether the context has a name for a node and for each dependency that
/// counts.
pub fn check_known(node: &Node, ctx: &WorkspaceContext) -> (r: bool)
    ensures
        r == is_known(*ctx, *node),
{
    if !ctx.pkg_names.contains_key(node.id.as_str()) {
        return false;
    }
    for i in 0..node.deps.len()
        invariant
            forall|j: int|
                0 <= j < i && counts(*node, #[trigger] node.deps@[j])
                    ==> ctx.names().dom().contains(node.deps@[j].pkg@),
    {
        let dep = &node.deps[i];
        if is_normal_dep(dep) && !text_eq(dep.pkg.as_str(), node.id.as_str())
            && !ctx.pkg_names.contains_key(dep.pkg.as_str()) {
            assert(counts(*node, node.deps@[i as int]));
            return false;
        }
    }
    true
}

/// In a consistent workspace each member is known.
pub proof fn lemma_members_known(nodes: Seq<Node>, ctx: WorkspaceContext, n: nat)
    requires
        is_consistent(nodes, ctx),
        n <= nodes.len(),
        nodes.len() <= usize::MAX,
    ensures
        are_known(member_positions(nodes, ctx.workspace_members@, n), nodes, ctx),
    decreases n,
{
    if n > 0 {
        lemma_members_known(nodes, ctx, (n - 1) as nat);
    }
}

/// What is known of a crate of the current wave.
#[derive(Debug)]
pub struct WaveCheck {
    /// The position of the crate's node.
    pub position: usize,
    pub check: PreCheckResult,
}

/// What is known of a crate of the current wave.
pub struct CheckView {
    pub position: usize,
    pub check: PreCheckView,
}

impl DeepView for WaveCheck {
    type V = CheckView;

    open spec fn deep_view(&self) -> CheckView {
        CheckView { position: self.position, check: pre_check_view(Ok(self.check)) }
    }
}

/// The name of the node at a position.
pub open spec fn node_name(nodes: Seq<Node>, ctx: WorkspaceContext, position: usize) -> Seq<char> {
    ctx.names()[nodes[position as int].id@]
}

/// Those of the first `n` pending nodes that are ready.
pub open spec fn ready_nodes(
    pending: Seq<usize>,
    nodes: Seq<Node>,
    ctx: WorkspaceContext,
    processed: Set<Seq<char>>,
    n: nat,
) -> Seq<usize>
    decreases n,
{
    if n == 0 {
        Seq::empty()
    } else {
        let before = ready_nodes(pending, nodes, ctx, processed, (n - 1) as nat);
        if is_ready(nodes[pending[n - 1] as int], ctx, processed) {
            before.push(pending[n - 1])
        } else {
            before
        }
    }
}

/// Those of the first `n` pending nodes that are not in `processed`.
pub open spec fn unprocessed(
    pending: Seq<usize>,
    nodes: Seq<Node>,
    ctx: WorkspaceContext,
    processed: Set<Seq<char>>,
    n: nat,
) -> Seq<usize>
    decreases n,
{
    if n == 0 {
        Seq::empty()
    } else {
        let before = unprocessed(pending, nodes, ctx, processed, (n - 1) as nat);
        if processed.contains(node_name(nodes, ctx, pending[n - 1])) {
            before
        } else {
            before.push(pending[n - 1])
        }
    }
}

/// The checks of the first `n` ready nodes, what is reported of them, and the
/// first crate without a manifest, where the checks end.
pub open spec fn checks_of(
    ready: Seq<usize>,
    nodes: Seq<Node>,
    ctx: WorkspaceContext,
    wave: WaveView,
    cli: Cli,
    n: nat,
) -> (Seq<CheckView>, Seq<EventView>, Option<Seq<char>>)
    decreases n,
{
    if n == 0 {
        (Seq::empty(), Seq::empty(), None)
    } else {
        let (checks, events, lost) = checks_of(ready, nodes, ctx, wave, cli, (n - 1) as nat);
        let position = ready[n - 1];
        let node = nodes[position as int];
        let check = pre_check(node, ctx, wave, cli.tree, cli.include_binaries);
        let more = events + pre_check_events(node, ctx, wave, cli.tree, cli.include_binaries);
        if lost is Some {
            (checks, events, lost)
        } else if check is Failed {
            (checks, more, Some(node_name(nodes, ctx, position)))
        } else {
            (checks.push(CheckView { position, check }), more, None)
        }
    }
}

/// The crates among the first `n` checks whose documentation is needed, each
/// with its manifest.
pub open spec fn builds_of(
    checks: Seq<CheckView>,
    nodes: Seq<Node>,
    ctx: WorkspaceContext,
    n: nat,
) -> Seq<(Seq<char>, Seq<char>)>
    decreases n,
{
    if n == 0 {
        Seq::empty()
    } else {
        let before = builds_of(checks, nodes, ctx, (n - 1) as nat);
        match checks[n - 1].check {
            PreCheckView::NeedsRustdoc { manifest, .. } => before.push(
                (node_name(nodes, ctx, checks[n - 1].position), manifest),
            ),
            _ => before,
        }
    }
}

/// Why a wave cannot pass a crate that was checked.
pub enum DocsFault {
    /// The documentation of this crate is not there.
    Missing(Seq<char>),
    /// The documentation of this crate is not rustdoc's JSON.
    Unreadable(Seq<char>),
}

impl DocsFault {
    /// Where the wave stops.
    pub open spec fn step(self) -> StepView {
        match self {
            DocsFault::Missing(name) => StepView::MissingRustdoc(name),
            DocsFault::Unreadable(name) => StepView::UnreadableDocs(name),
        }
    }
}

/// The wave after it has passed the first `n` crates that were checked, what is
/// reported of them, and where the wave stops: at the first crate whose
/// documentation is not in `built` or cannot be read.
pub open spec fn conclusion(
    reach: ReachView,
    checks: Seq<CheckView>,
    nodes: Seq<Node>,
    ctx: WorkspaceContext,
    cli: Cli,
    built: Map<Seq<char>, RustdocOutcome>,
    n: nat,
) -> (ReachView, Seq<EventView>, Option<DocsFault>)
    decreases n,
{
    if n == 0 {
        (reach, Seq::empty(), None)
    } else {
        let (before, events, stop) = conclusion(
            reach,
            checks,
            nodes,
            ctx,
            cli,
            built,
            (n - 1) as nat,
        );
        let name = node_name(nodes, ctx, checks[n - 1].position);
        if stop is Some {
            (before, events, stop)
        } else {
            match checks[n - 1].check {
                PreCheckView::EarlyReturn(bump) => (passed(before, name, bump), events, None),
                PreCheckView::NeedsRustdoc { deps, .. } => if !built.dom().contains(name) {
                    (before, events, Some(DocsFault::Missing(name)))
                } else {
                    match built[name] {
                        RustdocOutcome::Built(json) => match rustdoc_document(json@) {
                            Some(docs) => {
                                let (bump, more) = analysis(
                                    name,
                                    docs,
                                    deps,
                                    ctx.version(name),
                                    cli.verbose,
                                );
                                (passed(before, name, bump), events + more, None)
                            },
                            None => (before, events, Some(DocsFault::Unreadable(name))),
                        },
                        RustdocOutcome::Failed(error) => {
                            let bump = fallback(deps, ctx.version(name));
                            let event = EventView::RustdocFailed {
                                crate_name: name,
                                error: error@,
                                conservative_bump: bump.bump,
                            };
                            let failed = ReachView {
                                failed: before.failed.insert(name),
                                ..before
                            };
                            (passed(failed, name, bump), events.push(event), None)
                        },
                    }
                },
                PreCheckView::Failed(_) => (before, events, None),
            }
        }
    }
}

/// The names of the nodes that were checked.
pub open spec fn checked_names(
    checks: Seq<CheckView>,
    nodes: Seq<Node>,
    ctx: WorkspaceContext,
) -> Set<Seq<char>> {
    Set::new(
        |name: Seq<char>|
            exists|k: int|
                0 <= k < checks.len() && node_name(
                    nodes,
                    ctx,
                    (#[trigger] checks[k]).position,
                ) == name,
    )
}

fn check_ready<S: EventSink>(
    ready: &Vec<usize>,
    nodes: &Vec<Node>,
    ctx: &WorkspaceContext,
    state: &WaveState,
    cli: &Cli,
    sink: &mut S,
) -> (r: Result<Vec<WaveCheck>, CrateName>)
    requires
        are_known(ready@, nodes@, *ctx),
    ensures
        ({
            let (checks, events, lost) = checks_of(
                ready@,
                nodes@,
                *ctx,
                state@,
                *cli,
                ready@.len(),
            );
            &&& final(sink).emitted() == old(sink).emitted() + events
            &&& match r {
                Ok(list) => lost is None && list.deep_view() == checks,
                Err(name) => lost == Some(name@),
            }
        }),
{
    let ghost before = sink.emitted();
    let mut list: Vec<WaveCheck> = Vec::new();
    assert(list.deep_view() =~= Seq::empty());
    assert(before + Seq::empty() =~= before);
    for i in 0..ready.len()
        invariant
            before == old(sink).emitted(),
            are_known(ready@, nodes@, *ctx),
            ({
                let (checks, events, lost) = checks_of(
                    ready@,
                    nodes@,
                    *ctx,
                    state@,
                    *cli,
                    i as nat,
                );
                &&& sink.emitted() == before + events
                &&& lost is None
                &&& list.deep_view() == checks
            }),
    {
        let position = ready[i];
        let node = &nodes[position];
        let ghost (checks, events, _) = checks_of(
            ready@,
            nodes@,
            *ctx,
            state@,
            *cli,
            i as nat,
        );
        let ghost more = pre_check_events(
            *node,
            *ctx,
            state@,
            cli.tree,
            cli.include_binaries,
        );
        let checked = pre_check_crate(node, ctx, state, cli, sink);
        assert(before + (events + more) =~= (before + events) + more);
        match checked {
            Ok(check) => {
                let entry = WaveCheck { position, check };
                list.push(entry);
                assert(list.deep_view() =~= checks.push(entry.deep_view()));
            },
            Err(_) => {
                proof {
                    lemma_lost_stays(
                        ready@,
                        nodes@,
                        *ctx,
                        state@,
                        *cli,
                        (i + 1) as nat,
                        ready@.len(),
                    );
                }
                return Err(name_of(ctx, node.id.as_str()).clone());
            },
        }
    }
    Ok(list)
}

proof fn lemma_lost_stays(
    ready: Seq<usize>,
    nodes: Seq<Node>,
    ctx: WorkspaceContext,
    wave: WaveView,
    cli: Cli,
    n: nat,
    m: nat,
)
    requires
        n <= m,
        checks_of(ready, nodes, ctx, wave, cli, n).2 is Some,
    ensures
        checks_of(ready, nodes, ctx, wave, cli, m) == checks_of(ready, nodes, ctx, wave, cli, n),
    decreases m - n,
{
    if n < m {
        lemma_lost_stays(ready, nodes, ctx, wave, cli, n, (m - 1) as nat);
    }
}

/// Each check is that of a node that the context knows.
pub open spec fn checks_known(
    checks: Seq<CheckView>,
    nodes: Seq<Node>,
    ctx: WorkspaceContext,
) -> bool {
    forall|k: int|
        0 <= k < checks.len() ==> (#[trigger] checks[k]).position < nodes.len() && is_known(
            ctx,
            nodes[checks[k].position as int],
        )
}

proof fn lemma_stop_stays(
    reach: ReachView,
    checks: Seq<CheckView>,
    nodes: Seq<Node>,
    ctx: WorkspaceContext,
    cli: Cli,
    built: Map<Seq<char>, RustdocOutcome>,
    n: nat,
    m: nat,
)
    requires
        n <= m,
        conclusion(reach, checks, nodes, ctx, cli, built, n).2 is Some,
    ensures
        conclusion(reach, checks, nodes, ctx, cli, built, m) == conclusion(
            reach,
            checks,
            nodes,
            ctx,
            cli,
            built,
            n,
        ),
    decreases m - n,
{
    if n < m {
        lemma_stop_stays(reach, checks, nodes, ctx, cli, built, n, (m - 1) as nat);
    }
}

fn conclude<S: EventSink>(
    result: &mut PropagationResult,
    checks: &Vec<WaveCheck>,
    nodes: &Vec<Node>,
    ctx: &WorkspaceContext,
    cli: &Cli,
    built: &NameMap<RustdocOutcome>,
    sink: &mut S,
) -> (r: Result<(), PropagateError>)
    requires
        checks_known(checks.deep_view(), nodes@, *ctx),
    ensures
        ({
            let (reach, events, stop) = conclusion(
                old(result)@,
                checks.deep_view(),
                nodes@,
                *ctx,
                *cli,
                built@,
                checks@.len(),
            );
            &&& final(result)@ == reach
            &&& final(sink).emitted() == old(sink).emitted() + events
            &&& match r {
                Ok(_) => stop is None,
                Err(e) => stop matches Some(fault) && error_view(e) == fault.step(),
            }
        }),
{
    let ghost start = result@;
    let ghost before = sink.emitted();
    let ghost views = checks.deep_view();
    assert(before + Seq::empty() =~= before);
    for i in 0..checks.len()
        invariant
            start == old(result)@,
            before == old(sink).emitted(),
            views == checks.deep_view(),
            checks_known(views, nodes@, *ctx),
            ({
                let (reach, events, stop) = conclusion(
                    start,
                    views,
                    nodes@,
                    *ctx,
                    *cli,
                    built@,
                    i as nat,
                );
                &&& result@ == reach
                &&& sink.emitted() == before + events
                &&& stop is None
            }),
    {
        let entry = &checks[i];
        let ghost had = result@;
        let ghost (_, events, _) = conclusion(
            start,
            views,
            nodes@,
            *ctx,
            *cli,
            built@,
            i as nat,
        );
        assert(views[i as int] == entry.deep_view());
        let name = name_of(ctx, nodes[entry.position].id.as_str());
        match &entry.check {
            PreCheckResult::EarlyReturn(bump) => {
                result.pass(name, bump);
            },
            PreCheckResult::NeedsRustdoc { affected_deps, .. } => {
                let version = ctx.pkg_versions.get(name.as_str());
                match built.get(name.as_str()) {
                    Some(RustdocOutcome::Built(json)) => {
                        match analyze_rustdoc(
                            name.as_str(),
                            json.as_str(),
                            affected_deps,
                            version,
                            cli.verbose,
                            sink,
                        ) {
                            Ok(bump) => {
                                let ghost more = analysis(
                                    name@,
                                    rustdoc_document(json@)->0,
                                    affected_deps.deep_view(),
                                    ctx.version(name@),
                                    cli.verbose,
                                ).1;
                                assert(before + (events + more) =~= (before + events) + more);
                                result.pass(name, &bump);
                            },
                            Err(_) => {
                                proof {
                                    lemma_stop_stays(
                                        start,
                                        views,
                                        nodes@,
                                        *ctx,
                                        *cli,
                                        built@,
                                        (i + 1) as nat,
                                        checks@.len(),
                                    );
                                }
                                return Err(PropagateError::UnreadableDocs(name.clone()));
                            },
                        }
                    },
                    Some(RustdocOutcome::Failed(error)) => {
                        result.state.failed.insert(name.as_str().to_owned());
                        assert(result@ =~= (ReachView { failed: had.failed.insert(name@), ..had }));
                        let bump = conservative_fallback(
                            name.as_str(),
                            affected_deps,
                            version,
                            error.as_str(),
                            sink,
                        );
                        let ghost event = EventView::RustdocFailed {
                            crate_name: name@,
                            error: error@,
                            conservative_bump: bump.bump,
                        };
                        assert(before + events.push(event) =~= (before + events).push(event));
                        result.pass(name, &bump);
                    },
                    None => {
                        proof {
                            lemma_stop_stays(
                                start,
                                views,
                                nodes@,
                                *ctx,
                                *cli,
                                built@,
                                (i + 1) as nat,
                                checks@.len(),
                            );
                        }
                        return Err(PropagateError::MissingRustdoc(name.clone()));
                    },
                }
            },
        }
    }
    Ok(())
}

/// A crate whose documentation has to be generated.
#[derive(Debug)]
pub struct Build {
    pub name: CrateName,
    pub manifest: ManifestPath,
}

impl DeepView for Build {
    type V = (Seq<char>, Seq<char>);

    open spec fn deep_view(&self) -> (Seq<char>, Seq<char>) {
        (self.name@, self.manifest@)
    }
}

fn list_builds(checks: &Vec<WaveCheck>, nodes: &Vec<Node>, ctx: &WorkspaceContext) -> (r: Vec<
    Build,
>)
    requires
        checks_known(checks.deep_view(), nodes@, *ctx),
    ensures
        r.deep_view() == builds_of(checks.deep_view(), nodes@, *ctx, checks@.len()),
{
    let ghost views = checks.deep_view();
    let mut r: Vec<Build> = Vec::new();
    assert(r.deep_view() =~= Seq::empty());
    for i in 0..checks.len()
        invariant
            views == checks.deep_view(),
            checks_known(views, nodes@, *ctx),
            r.deep_view() == builds_of(views, nodes@, *ctx, i as nat),
    {
        let entry = &checks[i];
        let ghost had = r.deep_view();
        assert(views[i as int] == entry.deep_view());
        if let PreCheckResult::NeedsRustdoc { manifest, .. } = &entry.check {
            let name = name_of(ctx, nodes[entry.position].id.as_str());
            let build = Build { name: name.clone(), manifest: manifest.clone() };
            r.push(build);
            assert(r.deep_view() =~= had.push(build.deep_view()));
        }
    }
    r
}

fn find_ready(
    pending: &Vec<usize>,
    nodes: &Vec<Node>,
    ctx: &WorkspaceContext,
    processed: &NameSet,
) -> (r: Vec<usize>)
    requires
        are_known(pending@, nodes@, *ctx),
    ensures
        r@ == ready_nodes(pending@, nodes@, *ctx, processed@, pending@.len()),
        are_known(r@, nodes@, *ctx),
{
    let mut r: Vec<usize> = Vec::new();
    for i in 0..pending.len()
        invariant
            are_known(pending@, nodes@, *ctx),
            are_known(r@, nodes@, *ctx),
            r@ == ready_nodes(pending@, nodes@, *ctx, processed@, i as nat),
    {
        let position = pending[i];
        if deps_ready(&nodes[position], ctx, processed) {
            r.push(position);
        }
    }
    r
}

fn drop_processed(
    pending: &Vec<usize>,
    nodes: &Vec<Node>,
    ctx: &WorkspaceContext,
    processed: &NameSet,
) -> (r: Vec<usize>)
    requires
        are_known(pending@, nodes@, *ctx),
    ensures
        r@ == unprocessed(pending@, nodes@, *ctx, processed@, pending@.len()),
        are_known(r@, nodes@, *ctx),
{
    let mut r: Vec<usize> = Vec::new();
    for i in 0..pending.len()
        invariant
            are_known(pending@, nodes@, *ctx),
            are_known(r@, nodes@, *ctx),
            r@ == unprocessed(pending@, nodes@, *ctx, processed@, i as nat),
    {
        let position = pending[i];
        if !processed.contains(name_of(ctx, nodes[position].id.as_str()).as_str()) {
            r.push(position);
        }
    }
    r
}

fn add_checked(
    processed: &mut NameSet,
    checks: &Vec<WaveCheck>,
    nodes: &Vec<Node>,
    ctx: &WorkspaceContext,
)
    requires
        checks_known(checks.deep_view(), nodes@, *ctx),
    ensures
        final(processed)@ == old(processed)@.union(
            checked_names(checks.deep_view(), nodes@, *ctx),
        ),
{
    let ghost before = processed@;
    let ghost views = checks.deep_view();
    for i in 0..checks.len()
        invariant
            views == checks.deep_view(),
            checks_known(views, nodes@, *ctx),
            forall|name: Seq<char>| #[trigger]
                processed@.contains(name) <==> before.contains(name) || exists|k: int|
                    0 <= k < i && node_name(nodes@, *ctx, (#[trigger] views[k]).position) == name,
    {
        assert(views[i as int] == checks[i as int].deep_view());
        let name = name_of(ctx, nodes[checks[i].position].id.as_str());
        processed.insert(name.as_str().to_owned());
    }
    assert(processed@ =~= before.union(checked_names(views, nodes@, *ctx)));
}

/// A wave under way: the nodes that it has still to pass, the checks of those it
/// is about to pass, the names of those it has passed, and what it has reached.
#[derive(Debug)]
pub struct Propagation {
    pub pending: Vec<usize>,
    pub checks: Vec<WaveCheck>,
    pub processed: NameSet,
    pub result: PropagationResult,
}

/// A wave under way.
#[verifier::ext_equal]
pub struct PropagationView {
    pub pending: Seq<usize>,
    pub checks: Seq<CheckView>,
    pub processed: Set<Seq<char>>,
    pub reach: ReachView,
}

impl View for Propagation {
    type V = PropagationView;

    open spec fn view(&self) -> PropagationView {
        PropagationView {
            pending: self.pending@,
            checks: self.checks.deep_view(),
            processed: self.processed@,
            reach: self.result@,
        }
    }
}

impl PropagationView {
    /// The pending nodes are known, and those that were checked are pending.
    pub open spec fn well_formed(self, nodes: Seq<Node>, ctx: WorkspaceContext) -> bool {
        &&& are_known(self.pending, nodes, ctx)
        &&& forall|k: int|
            0 <= k < self.checks.len() ==> self.pending.contains(
                (#[trigger] self.checks[k]).position,
            )
    }

    /// The wave after it has passed the nodes that were checked.
    pub open spec fn after_checks(
        self,
        reach: ReachView,
        nodes: Seq<Node>,
        ctx: WorkspaceContext,
    ) -> PropagationView {
        let processed = self.processed.union(checked_names(self.checks, nodes, ctx));
        PropagationView {
            pending: unprocessed(self.pending, nodes, ctx, processed, self.pending.len()),
            checks: Seq::empty(),
            processed,
            reach,
        }
    }
}

/// Where a wave stops.
pub enum StepView {
    /// The documentation of these crates is needed; of none at the end.
    Build(Seq<(Seq<char>, Seq<char>)>),
    MissingRustdoc(Seq<char>),
    UnreadableDocs(Seq<char>),
    NoManifestPath(Seq<char>),
    NothingReady,
}

/// Why a wave cannot go on.
#[derive(Debug)]
pub enum PropagateError {
    /// The documentation of this crate was asked for and is not there.
    MissingRustdoc(CrateName),
    /// The generated documentation of this crate is not rustdoc's JSON.
    UnreadableDocs(CrateName),
    /// This crate has no manifest in the workspace.
    NoManifestPath(CrateName),
    /// The pending nodes depend on each other.
    NothingReady,
}

/// What an error says.
pub open spec fn error_view(e: PropagateError) -> StepView {
    match e {
        PropagateError::MissingRustdoc(name) => StepView::MissingRustdoc(name@),
        PropagateError::UnreadableDocs(name) => StepView::UnreadableDocs(name@),
        PropagateError::NoManifestPath(name) => StepView::NoManifestPath(name@),
        PropagateError::NothingReady => StepView::NothingReady,
    }
}

/// What the outcome of a step says.
pub open spec fn step_view(r: Result<Vec<Build>, PropagateError>) -> StepView {
    match r {
        Ok(builds) => StepView::Build(builds.deep_view()),
        Err(e) => error_view(e),
    }
}

/// The course of a wave: it passes the nodes that were checked, with the
/// documentation in `built`, and then checks all pending nodes that are ready;
/// it goes on until the documentation of some of these is needed or no node is
/// pending.
pub open spec fn drive(
    p: PropagationView,
    nodes: Seq<Node>,
    ctx: WorkspaceContext,
    cli: Cli,
    built: Map<Seq<char>, RustdocOutcome>,
) -> (PropagationView, StepView, Seq<EventView>)
    decreases
            p.pending.len(),
            if p.checks.len() == 0 {
                1int
            } else {
                0
            },
    when p.well_formed(nodes, ctx)
{
    let (reach, events, stop) = conclusion(
        p.reach,
        p.checks,
        nodes,
        ctx,
        cli,
        built,
        p.checks.len(),
    );
    let q = p.after_checks(reach, nodes, ctx);
    let ready = ready_nodes(q.pending, nodes, ctx, q.processed, q.pending.len());
    let (checks, more, lost) = checks_of(ready, nodes, ctx, reach.wave(), cli, ready.len());
    let builds = builds_of(checks, nodes, ctx, checks.len());
    let next = PropagationView { checks, ..q };
    match (stop, lost) {
        (Some(fault), _) => (PropagationView { reach, ..p }, fault.step(), events),
        (None, Some(name)) => (q, StepView::NoManifestPath(name), events + more),
        (None, None) => if q.pending.len() == 0 {
            (q, StepView::Build(Seq::empty()), events)
        } else if ready.len() == 0 {
            (q, StepView::NothingReady, events)
        } else if builds.len() > 0 {
            (next, StepView::Build(builds), events + more)
        } else {
            proof {
                lemma_wave_goes_on(p, reach, nodes, ctx, cli);
            }
            let (end, step, rest) = drive(next, nodes, ctx, cli, Map::empty());
            (end, step, events + more + rest)
        },
    }
}

proof fn lemma_unprocessed(
    pending: Seq<usize>,
    nodes: Seq<Node>,
    ctx: WorkspaceContext,
    processed: Set<Seq<char>>,
    n: nat,
)
    requires
        n <= pending.len(),
        are_known(pending, nodes, ctx),
    ensures
        ({
            let left = unprocessed(pending, nodes, ctx, processed, n);
            &&& are_known(left, nodes, ctx)
            &&& left.len() <= n
            &&& (exists|k: int|
                0 <= k < n && processed.contains(node_name(nodes, ctx, #[trigger] pending[k])))
                ==> left.len() < n
            &&& forall|k: int|
                0 <= k < left.len() ==> pending.contains(#[trigger] left[k])
                    && !processed.contains(node_name(nodes, ctx, left[k]))
            &&& forall|k: int|
                0 <= k < n && !processed.contains(node_name(nodes, ctx, #[trigger] pending[k]))
                    ==> left.contains(pending[k])
        }),
    decreases n,
{
    if n > 0 {
        lemma_unprocessed(pending, nodes, ctx, processed, (n - 1) as nat);
        let before = unprocessed(pending, nodes, ctx, processed, (n - 1) as nat);
        let left = unprocessed(pending, nodes, ctx, processed, n);
        assert forall|k: int|
            0 <= k < n && !processed.contains(
                node_name(nodes, ctx, #[trigger] pending[k]),
            ) implies left.contains(pending[k]) by {
            if k < n - 1 {
                let j = choose|j: int| 0 <= j < before.len() && before[j] == pending[k];
                assert(left[j] == pending[k]);
            } else {
                assert(left.last() == pending[k]);
            }
        }
    }
}

proof fn lemma_ready(
    pending: Seq<usize>,
    nodes: Seq<Node>,
    ctx: WorkspaceContext,
    processed: Set<Seq<char>>,
    n: nat,
)
    requires
        n <= pending.len(),
    ensures
        ({
            let ready = ready_nodes(pending, nodes, ctx, processed, n);
            forall|k: int|
                0 <= k < ready.len() ==> pending.contains(#[trigger] ready[k]) && is_ready(
                    nodes[ready[k] as int],
                    ctx,
                    processed,
                )
        }),
    decreases n,
{
    if n > 0 {
        lemma_ready(pending, nodes, ctx, processed, (n - 1) as nat);
        let before = ready_nodes(pending, nodes, ctx, processed, (n - 1) as nat);
        let ready = ready_nodes(pending, nodes, ctx, processed, n);
        assert(pending.contains(pending[n - 1]));
        assert forall|k: int| 0 <= k < ready.len() implies pending.contains(#[trigger] ready[k])
            && is_ready(nodes[ready[k] as int], ctx, processed) by {
            if k < before.len() {
                assert(ready[k] == before[k]);
            }
        }
    }
}

proof fn lemma_checks(
    ready: Seq<usize>,
    nodes: Seq<Node>,
    ctx: WorkspaceContext,
    wave: WaveView,
    cli: Cli,
    n: nat,
)
    requires
        n <= ready.len(),
    ensures
        ({
            let (checks, _, lost) = checks_of(ready, nodes, ctx, wave, cli, n);
            &&& forall|k: int|
                0 <= k < checks.len() ==> ready.contains((#[trigger] checks[k]).position)
            &&& lost is None ==> checks.len() == n
        }),
    decreases n,
{
    if n > 0 {
        lemma_checks(ready, nodes, ctx, wave, cli, (n - 1) as nat);
    }
}

/// The nodes that are checked next are pending, and fewer are pending once some
/// were passed.
pub proof fn lemma_wave_goes_on(
    p: PropagationView,
    reach: ReachView,
    nodes: Seq<Node>,
    ctx: WorkspaceContext,
    cli: Cli,
)
    requires
        p.well_formed(nodes, ctx),
    ensures
        ({
            let q = p.after_checks(reach, nodes, ctx);
            let ready = ready_nodes(q.pending, nodes, ctx, q.processed, q.pending.len());
            let (checks, _, lost) = checks_of(ready, nodes, ctx, reach.wave(), cli, ready.len());
            &&& q.pending.len() <= p.pending.len()
            &&& p.checks.len() > 0 ==> q.pending.len() < p.pending.len()
            &&& lost is None ==> checks.len() == ready.len()
            &&& PropagationView { checks, ..q }.well_formed(nodes, ctx)
            &&& q.well_formed(nodes, ctx)
            &&& are_known(ready, nodes, ctx)
        }),
{
    let q = p.after_checks(reach, nodes, ctx);
    lemma_unprocessed(p.pending, nodes, ctx, q.processed, p.pending.len());
    if p.checks.len() > 0 {
        let position = p.checks[0].position;
        let k = choose|k: int| 0 <= k < p.pending.len() && p.pending[k] == position;
        assert(checked_names(p.checks, nodes, ctx).contains(node_name(nodes, ctx, position)));
        assert(q.processed.contains(node_name(nodes, ctx, p.pending[k])));
    }
    lemma_ready(q.pending, nodes, ctx, q.processed, q.pending.len());
    let ready = ready_nodes(q.pending, nodes, ctx, q.processed, q.pending.len());
    lemma_checks(ready, nodes, ctx, reach.wave(), cli, ready.len());
    assert forall|k: int| 0 <= k < ready.len() implies (#[trigger] ready[k]) < nodes.len()
        && is_known(ctx, nodes[ready[k] as int]) by {
        let j = choose|j: int| 0 <= j < q.pending.len() && q.pending[j] == ready[k];
        assert(q.pending[j] < nodes.len());
    }
    let (checks, _, _) = checks_of(ready, nodes, ctx, reach.wave(), cli, ready.len());
    assert forall|k: int| 0 <= k < checks.len() implies q.pending.contains(
        (#[trigger] checks[k]).position,
    ) by {
        let j = choose|j: int| 0 <= j < ready.len() && ready[j] == checks[k].position;
        assert(q.pending.contains(ready[j]));
    }
}

impl Propagation {
    /// A wave that is about to pass the members of a workspace.
    pub fn new(nodes: &Vec<Node>, ctx: &WorkspaceContext, state: WaveState) -> (p: Propagation)
        requires
            is_consistent(nodes@, *ctx),
        ensures
            p@.well_formed(nodes@, *ctx),
            p@.pending == member_positions(nodes@, ctx.workspace_members@, nodes@.len()),
            are_members(p@.pending, nodes@, *ctx),
            accounts_for(p@.pending, p@.processed, nodes@, *ctx),
            p@.checks == Seq::<CheckView>::empty(),
            p@.processed == Set::<Seq<char>>::empty(),
            p@.reach == (ReachView {
                breaking: state@.breaking,
                additive: state@.additive,
                patch: Set::empty(),
                failed: state@.failed,
                edges: Map::empty(),
            }),
    {
        let pending = find_members(nodes, ctx);
        assert(nodes.len() == nodes@.len());
        proof {
            lemma_members_known(nodes@, *ctx, nodes@.len());
            lemma_members_found(nodes@, *ctx, nodes@.len());
        }
        let p = Propagation {
            pending,
            checks: Vec::new(),
            processed: NameSet::new(),
            result: PropagationResult::new(state),
        };
        assert(p@.checks =~= Seq::<CheckView>::empty());
        p
    }
}

/// Run the wave-based propagation loop: pass the crates that were checked, with
/// the documentation in `built`, and check those whose dependencies have been
/// passed, until the documentation of some of these is needed. The result names
/// them; it is empty when every crate has been passed.
pub fn run<S: EventSink>(
    wave: &mut Propagation,
    nodes: &Vec<Node>,
    ctx: &WorkspaceContext,
    cli: &Cli,
    built: &NameMap<RustdocOutcome>,
    sink: &mut S,
) -> (r: Result<Vec<Build>, PropagateError>)
    requires
        old(wave)@.well_formed(nodes@, *ctx),
    ensures
        ({
            let (end, step, events) = drive(old(wave)@, nodes@, *ctx, *cli, built@);
            &&& final(wave)@ == end
            &&& step_view(r) == step
            &&& final(sink).emitted() == old(sink).emitted() + events
        }),
        final(wave)@.well_formed(nodes@, *ctx),
        r matches Ok(builds) && builds@.len() == 0 ==> final(wave)@.pending.len() == 0,
    decreases old(wave)@.pending.len(), if old(wave)@.checks.len() == 0 { 1int } else { 0 },
{
    let ghost p = wave@;
    let ghost before = sink.emitted();
    proof {
        assert(checks_known(p.checks, nodes@, *ctx)) by {
            assert forall|k: int| 0 <= k < p.checks.len() implies (
            #[trigger] p.checks[k]).position < nodes@.len() && is_known(
                *ctx,
                nodes@[p.checks[k].position as int],
            ) by {
                let j = choose|j: int|
                    0 <= j < p.pending.len() && p.pending[j] == p.checks[k].position;
                assert(p.pending[j] < nodes@.len());
            }
        }
        assert(p.checks.len() == wave.checks@.len());
    }
    let ghost (reach, events, _) = conclusion(
        p.reach,
        p.checks,
        nodes@,
        *ctx,
        *cli,
        built@,
        p.checks.len(),
    );
    if let Err(e) = conclude(&mut wave.result, &wave.checks, nodes, ctx, cli, built, sink) {
        assert(wave@ =~= (PropagationView { reach, ..p }));
        return Err(e);
    }
    proof {
        lemma_wave_goes_on(p, reach, nodes@, *ctx, *cli);
    }
    let ghost q = p.after_checks(reach, nodes@, *ctx);
    add_checked(&mut wave.processed, &wave.checks, nodes, ctx);
    let left = drop_processed(&wave.pending, nodes, ctx, &wave.processed);
    wave.pending = left;
    wave.checks = Vec::new();
    assert(wave@ =~= q);
    let ready = find_ready(&wave.pending, nodes, ctx, &wave.processed);
    let ghost (checks, more, _) = checks_of(
        ready@,
        nodes@,
        *ctx,
        reach.wave(),
        *cli,
        ready@.len(),
    );
    assert(before + (events + more) =~= (before + events) + more);
    let checked = check_ready(&ready, nodes, ctx, &wave.result.state, cli, sink);
    let list = match checked {
        Ok(list) => list,
        Err(name) => {
            return Err(PropagateError::NoManifestPath(name));
        },
    };
    if wave.pending.len() == 0 {
        assert(more =~= Seq::empty());
        let none: Vec<Build> = Vec::new();
        assert(none.deep_view() =~= Seq::empty());
        return Ok(none);
    }
    if ready.len() == 0 {
        assert(before + events + Seq::<EventView>::empty() =~= before + events);
        return Err(PropagateError::NothingReady);
    }
    wave.checks = list;
    let ghost next = PropagationView { checks, ..q };
    assert(wave@ =~= next);
    assert(checks_known(checks, nodes@, *ctx)) by {
        assert forall|k: int| 0 <= k < checks.len() implies (#[trigger] checks[k]).position
            < nodes@.len() && is_known(*ctx, nodes@[checks[k].position as int]) by {
            let j = choose|j: int| 0 <= j < q.pending.len() && q.pending[j] == checks[k].position;
            assert(q.pending[j] < nodes@.len());
        }
    }
    let builds = list_builds(&wave.checks, nodes, ctx);
    assert(builds.deep_view().len() == builds@.len());
    if builds.len() > 0 {
        return Ok(builds);
    }
    let none: NameMap<RustdocOutcome> = NameMap::new();
    let ghost rest = drive(next, nodes@, *ctx, *cli, Map::empty()).2;
    assert(before + (events + more + rest) =~= (before + (events + more)) + rest);
    run(wave, nodes, ctx, cli, &none, sink)
}

/// Each node that belongs to the workspace is pending or processed.
pub open spec fn accounts_for(
    pending: Seq<usize>,
    processed: Set<Seq<char>>,
    nodes: Seq<Node>,
    ctx: WorkspaceContext,
) -> bool {
    forall|j: int|
        0 <= j < nodes.len() && ctx.workspace_members@.contains((#[trigger] nodes[j]).id@)
            ==> pending.contains(j as usize) || processed.contains(
            node_name(nodes, ctx, j as usize),
        )
}

/// The pending nodes belong to the workspace.
pub open spec fn are_members(
    pending: Seq<usize>,
    nodes: Seq<Node>,
    ctx: WorkspaceContext,
) -> bool {
    forall|k: int|
        0 <= k < pending.len() ==> ctx.workspace_members@.contains(
            nodes[(#[trigger] pending[k]) as int].id@,
        )
}

/// The dependency at position `d` of the node at position `i` counts, and both
/// belong to the workspace.
pub open spec fn is_inner_dep(nodes: Seq<Node>, ctx: WorkspaceContext, i: int, d: int) -> bool {
    &&& 0 <= i < nodes.len()
    &&& ctx.workspace_members@.contains(nodes[i].id@)
    &&& 0 <= d < nodes[i].deps@.len()
    &&& counts(nodes[i], nodes[i].deps@[d])
    &&& ctx.workspace_members@.contains(nodes[i].deps@[d].pkg@)
}

/// Each dependency inside the workspace is on one of the nodes.
pub open spec fn is_complete(nodes: Seq<Node>, ctx: WorkspaceContext) -> bool {
    forall|i: int, d: int| #[trigger]
        is_inner_dep(nodes, ctx, i, d) ==> exists|j: int|
            0 <= j < nodes.len() && (#[trigger] nodes[j]).id@ == nodes[i].deps@[d].pkg@
}

/// The graph has an edge for each dependency inside the workspace.
pub open spec fn has_dependencies(
    adj: Adjacency,
    nodes: Seq<Node>,
    ctx: WorkspaceContext,
) -> bool {
    forall|i: int, d: int| #[trigger]
        is_inner_dep(nodes, ctx, i, d) ==> has_edge(adj, nodes[i].id@, nodes[i].deps@[d].pkg@)
}

/// The dependencies inside the workspace are complete and lead nowhere back.
pub open spec fn is_acyclic(adj: Adjacency, nodes: Seq<Node>, ctx: WorkspaceContext) -> bool {
    &&& nodes.len() <= usize::MAX
    &&& is_complete(nodes, ctx)
    &&& has_dependencies(adj, nodes, ctx)
    &&& forall|walk: Seq<Seq<char>>| !is_closed_walk(adj, walk)
}

/// While nodes of an acyclic workspace are pending, one of them is ready.
pub proof fn lemma_some_ready(
    pending: Seq<usize>,
    processed: Set<Seq<char>>,
    nodes: Seq<Node>,
    ctx: WorkspaceContext,
    adj: Adjacency,
)
    requires
        pending.len() > 0,
        are_known(pending, nodes, ctx),
        are_members(pending, nodes, ctx),
        accounts_for(pending, processed, nodes, ctx),
        is_acyclic(adj, nodes, ctx),
    ensures
        exists|k: int|
            0 <= k < pending.len() && is_ready(
                nodes[(#[trigger] pending[k]) as int],
                ctx,
                processed,
            ),
{
    if !(exists|k: int|
        0 <= k < pending.len() && is_ready(nodes[(#[trigger] pending[k]) as int], ctx, processed)) {
        let list = pending.map_values(|position: usize| nodes[position as int].id@);
        let ids = list.to_set();
        assert(list[0] == nodes[pending[0] as int].id@);
        assert(ids.contains(list[0]));
        vstd::seq_lib::seq_to_set_is_finite(list);
        assert(has_no_end(adj, ids)) by {
            reveal(has_no_end);
            assert forall|from: Seq<char>| #[trigger] ids.contains(from) implies exists|
                to: Seq<char>,
            |
                ids.contains(to) && #[trigger] has_edge(adj, from, to) by {
                let k = choose|k: int| 0 <= k < list.len() && list[k] == from;
                let i = pending[k] as int;
                assert(from == nodes[i].id@);
                assert(!is_ready(nodes[i], ctx, processed));
                let d = choose|d: int|
                    0 <= d < nodes[i].deps@.len() && counts(nodes[i], #[trigger] nodes[i].deps@[d])
                        && ctx.workspace_members@.contains(nodes[i].deps@[d].pkg@)
                        && !processed.contains(ctx.names()[nodes[i].deps@[d].pkg@]);
                assert(is_inner_dep(nodes, ctx, i, d));
                let to = nodes[i].deps@[d].pkg@;
                let j = choose|j: int|
                    0 <= j < nodes.len() && (#[trigger] nodes[j]).id@ == to;
                assert(nodes[j].id@ == to);
                assert(pending.contains(j as usize));
                let m = choose|m: int| 0 <= m < pending.len() && pending[m] == j as usize;
                assert(list[m] == to);
                assert(ids.contains(to) && has_edge(adj, from, to));
            }
        }
        if ids.len() == 0 {
            assert(ids =~= Set::empty());
        }
        lemma_no_end_has_closed_walk(adj, ids);
    }
}

proof fn lemma_ready_found(
    pending: Seq<usize>,
    nodes: Seq<Node>,
    ctx: WorkspaceContext,
    processed: Set<Seq<char>>,
    n: nat,
    k: int,
)
    requires
        0 <= k < n <= pending.len(),
        is_ready(nodes[pending[k] as int], ctx, processed),
    ensures
        ready_nodes(pending, nodes, ctx, processed, n).len() > 0,
    decreases n,
{
    if k < n - 1 {
        lemma_ready_found(pending, nodes, ctx, processed, (n - 1) as nat, k);
    }
}

proof fn lemma_after_checks_accounts(
    p: PropagationView,
    reach: ReachView,
    nodes: Seq<Node>,
    ctx: WorkspaceContext,
)
    requires
        p.well_formed(nodes, ctx),
        are_members(p.pending, nodes, ctx),
        accounts_for(p.pending, p.processed, nodes, ctx),
    ensures
        ({
            let q = p.after_checks(reach, nodes, ctx);
            &&& are_members(q.pending, nodes, ctx)
            &&& accounts_for(q.pending, q.processed, nodes, ctx)
        }),
{
    let q = p.after_checks(reach, nodes, ctx);
    lemma_unprocessed(p.pending, nodes, ctx, q.processed, p.pending.len());
    assert forall|k: int| 0 <= k < q.pending.len() implies ctx.workspace_members@.contains(
        nodes[(#[trigger] q.pending[k]) as int].id@,
    ) by {
        let j = choose|j: int| 0 <= j < p.pending.len() && p.pending[j] == q.pending[k];
        assert(ctx.workspace_members@.contains(nodes[p.pending[j] as int].id@));
    }
    assert forall|j: int|
        0 <= j < nodes.len() && ctx.workspace_members@.contains(
            (#[trigger] nodes[j]).id@,
        ) implies q.pending.contains(j as usize) || q.processed.contains(
        node_name(nodes, ctx, j as usize),
    ) by {
        if p.pending.contains(j as usize) {
            let k = choose|k: int| 0 <= k < p.pending.len() && p.pending[k] == j as usize;
            assert(!q.processed.contains(node_name(nodes, ctx, p.pending[k])) ==> q.pending.contains(
                p.pending[k],
            ));
        }
    }
}

/// A wave through an acyclic workspace never finds nothing ready, and when it
/// ends, it has passed every member of the workspace.
pub proof fn law_wave_reaches_every_member(
    p: PropagationView,
    nodes: Seq<Node>,
    ctx: WorkspaceContext,
    cli: Cli,
    built: Map<Seq<char>, RustdocOutcome>,
    adj: Adjacency,
)
    requires
        p.well_formed(nodes, ctx),
        are_members(p.pending, nodes, ctx),
        accounts_for(p.pending, p.processed, nodes, ctx),
        is_acyclic(adj, nodes, ctx),
    ensures
        ({
            let (end, step, _) = drive(p, nodes, ctx, cli, built);
            &&& !(step is NothingReady)
            &&& step == StepView::Build(Seq::empty()) ==> forall|j: int|
                0 <= j < nodes.len() && ctx.workspace_members@.contains((#[trigger] nodes[j]).id@)
                    ==> end.processed.contains(node_name(nodes, ctx, j as usize))
        }),
    decreases
            p.pending.len(),
            if p.checks.len() == 0 {
                1int
            } else {
                0
            },
{
    let (reach, _, stop) = conclusion(
        p.reach,
        p.checks,
        nodes,
        ctx,
        cli,
        built,
        p.checks.len(),
    );
    let q = p.after_checks(reach, nodes, ctx);
    lemma_wave_goes_on(p, reach, nodes, ctx, cli);
    lemma_after_checks_accounts(p, reach, nodes, ctx);
    let ready = ready_nodes(q.pending, nodes, ctx, q.processed, q.pending.len());
    let (checks, _, lost) = checks_of(ready, nodes, ctx, reach.wave(), cli, ready.len());
    let builds = builds_of(checks, nodes, ctx, checks.len());
    if q.pending.len() > 0 {
        lemma_some_ready(q.pending, q.processed, nodes, ctx, adj);
        let k = choose|k: int|
            0 <= k < q.pending.len() && is_ready(
                nodes[(#[trigger] q.pending[k]) as int],
                ctx,
                q.processed,
            );
        lemma_ready_found(q.pending, nodes, ctx, q.processed, q.pending.len(), k);
        if stop is None && lost is None && builds.len() == 0 {
            law_wave_reaches_every_member(
                PropagationView { checks, ..q },
                nodes,
                ctx,
                cli,
                Map::empty(),
                adj,
            );
        }
    } else {
        assert forall|j: int|
            0 <= j < nodes.len() && ctx.workspace_members@.contains(
                (#[trigger] nodes[j]).id@,
            ) implies q.processed.contains(node_name(nodes, ctx, j as usize)) by {
            assert(!q.pending.contains(j as usize));
        }
    }
}

/// The member positions are those of the nodes that belong to the workspace.
pub proof fn lemma_members_found(nodes: Seq<Node>, ctx: WorkspaceContext, n: nat)
    requires
        n <= nodes.len(),
        nodes.len() <= usize::MAX,
    ensures
        ({
            let found = member_positions(nodes, ctx.workspace_members@, n);
            &&& are_members(found, nodes, ctx)
            &&& forall|k: int| 0 <= k < found.len() ==> (#[trigger] found[k]) < n
            &&& found.no_duplicates()
            &&& forall|j: int|
                0 <= j < n && ctx.workspace_members@.contains((#[trigger] nodes[j]).id@)
                    ==> found.contains(j as usize)
        }),
    decreases n,
{
    if n > 0 {
        lemma_members_found(nodes, ctx, (n - 1) as nat);
        let before = member_positions(nodes, ctx.workspace_members@, (n - 1) as nat);
        let found = member_positions(nodes, ctx.workspace_members@, n);
        assert forall|j: int|
            0 <= j < n && ctx.workspace_members@.contains(
                (#[trigger] nodes[j]).id@,
            ) implies found.contains(j as usize) by {
            if j < n - 1 {
                let k = choose|k: int| 0 <= k < before.len() && before[k] == j as usize;
                assert(found[k] == j as usize);
            } else {
                assert(found.last() == j as usize);
            }
        }
    }
}

/// The crates that a wave is about to pass depend only on crates that it has
/// passed.
pub proof fn law_checked_crates_are_ready(
    p: PropagationView,
    nodes: Seq<Node>,
    ctx: WorkspaceContext,
    cli: Cli,
    built: Map<Seq<char>, RustdocOutcome>,
)
    requires
        p.well_formed(nodes, ctx),
    ensures
        ({
            let (end, step, _) = drive(p, nodes, ctx, cli, built);
            step is Build ==> forall|k: int|
                0 <= k < end.checks.len() ==> is_ready(
                    nodes[(#[trigger] end.checks[k]).position as int],
                    ctx,
                    end.processed,
                )
        }),
    decreases
            p.pending.len(),
            if p.checks.len() == 0 {
                1int
            } else {
                0
            },
{
    let (reach, _, stop) = conclusion(
        p.reach,
        p.checks,
        nodes,
        ctx,
        cli,
        built,
        p.checks.len(),
    );
    let q = p.after_checks(reach, nodes, ctx);
    lemma_wave_goes_on(p, reach, nodes, ctx, cli);
    let ready = ready_nodes(q.pending, nodes, ctx, q.processed, q.pending.len());
    lemma_ready(q.pending, nodes, ctx, q.processed, q.pending.len());
    lemma_checks(ready, nodes, ctx, reach.wave(), cli, ready.len());
    let (checks, _, lost) = checks_of(ready, nodes, ctx, reach.wave(), cli, ready.len());
    let builds = builds_of(checks, nodes, ctx, checks.len());
    let next = PropagationView { checks, ..q };
    if stop is None && lost is None && q.pending.len() > 0 && ready.len() > 0 {
        if builds.len() == 0 {
            law_checked_crates_are_ready(next, nodes, ctx, cli, Map::empty());
        } else {
            assert forall|k: int| 0 <= k < checks.len() implies is_ready(
                nodes[(#[trigger] checks[k]).position as int],
                ctx,
                q.processed,
            ) by {
                let j = choose|j: int| 0 <= j < ready.len() && ready[j] == checks[k].position;
                assert(is_ready(nodes[ready[j] as int], ctx, q.processed));
            }
        }
    }
}

/// A crate that changes in a breaking way is from then on a breaking dependency
/// of others, and one that only needs a patch hands nothing on.
pub proof fn law_wave_spreads_through_changes(
    reach: ReachView,
    name: Seq<char>,
    bump: CrateBumpView,
)
    ensures
        bump.change == ChangeKind::Breaking ==> change_of(passed(reach, name, bump).wave(), name)
            == Some(ChangeKind::Breaking),
        bump.change == ChangeKind::Additive && !reach.breaking.contains(name) ==> change_of(
            passed(reach, name, bump).wave(),
            name,
        ) == Some(ChangeKind::Additive),
        bump.change == ChangeKind::Patch || bump.change == ChangeKind::Unchanged ==> passed(
            reach,
            name,
            bump,
        ).wave() == reach.wave(),
{
}

} // verus!
