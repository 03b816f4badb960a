//! The course of an analysis.
use vstd::prelude::*;

use crate::cli::Cli;
use crate::evaluate::{
    affected, affected_deps, change_of, counts, evaluate_crate_bump, evaluation, is_known,
    is_leaked, law_affected_deps_are_reached, law_change_is_worst_leaked, lemma_worst_of, name_of,
    pre_check, relevant_crates, worst_of, AffectedView, CrateBumpView, CrateEvaluation,
    EvaluateError, EvaluationView, PreCheckView, RustdocOutcome, WaveState, WaveView,
    WorkspaceContext,
};
use crate::graph::Adjacency;
use crate::laws::bumps::bumped_too_little;
use crate::laws::wave::law_member_positions_ascend;
use crate::leak::leaked_deps;
use crate::names::{ascending, NameMap, NameSet};
use crate::propagate::{
    accounts_for, are_known, are_members, deps_ready, find_members, is_acyclic, is_consistent,
    is_ready, lemma_members_found, lemma_members_known, lemma_some_ready, member_positions,
    node_name, passed, settled, Build, PropagationResult, ReachView,
};
use crate::report::event::{Event, EventView};
use crate::report::lists::{
    bump_errors, bump_lists, law_lists_are_disjoint, print_results, result_events, validate_bumps,
};
use crate::report::sink::EventSink;
use crate::report::stream::{debug_list, display_list};
use crate::rustdoc_json::rustdoc_document;
use crate::seeds::VersionChanges;
use crate::semver::{Bump, ChangeKind};
use crate::text::{copy_texts, join, join_texts, texts};
use crate::types::CrateName;
use crate::workspace::{Metadata, Node, Package};

verus! {

/// What an analysis starts from.
#[derive(Debug)]
pub struct Seeds {
    /// The crates whose change is given.
    pub all_seeds: NameSet,
    /// How they change.
    pub state: WaveState,
    /// The bumps that crates of the workspace have already.
    pub local_bumps: NameMap<Bump>,
    /// The crates that did not exist before.
    pub new_crates: NameSet,
    /// The seeds were named by the user.
    pub is_direct: bool,
}

/// What an analysis starts from.
#[verifier::ext_equal]
pub struct SeedsView {
    pub all: Set<Seq<char>>,
    pub wave: WaveView,
    pub bumps: Map<Seq<char>, Bump>,
    pub new_crates: Set<Seq<char>>,
    pub is_direct: bool,
}

impl View for Seeds {
    type V = SeedsView;

    open spec fn view(&self) -> SeedsView {
        SeedsView {
            all: self.all_seeds@,
            wave: self.state@,
            bumps: self.local_bumps@,
            new_crates: self.new_crates@,
            is_direct: self.is_direct,
        }
    }
}

/// The seeds that the user has named: each of them changes in a breaking way.
pub open spec fn named_seeds(names: Set<Seq<char>>) -> SeedsView {
    SeedsView {
        all: names,
        wave: WaveView { breaking: names, additive: Set::empty(), failed: Set::empty() },
        bumps: Map::empty(),
        new_crates: Set::empty(),
        is_direct: true,
    }
}

/// Begin an analysis: the seeds, where the user has named them; otherwise the
/// manifests have to be compared.
pub fn begin<S: EventSink>(cli: &Cli, sink: &mut S) -> (r: Option<Seeds>)
    ensures
        match cli.direct {
            Some(names) => {
                &&& r matches Some(seeds) && seeds@ == named_seeds(texts(names@).to_set())
                &&& final(sink).emitted() == old(sink).emitted().push(
                    EventView::DirectModeBanner { seeds: texts(names@).to_set() },
                )
            },
            None => {
                &&& r is None
                &&& final(sink).emitted() == old(sink).emitted().push(
                    EventView::ComparingRefs { source: cli.source@, target: cli.target@ },
                )
            },
        },
        cli.direct matches Some(names) ==> forall|i: int|
            0 <= i < names@.len() ==> (r matches Some(seeds) && seeds@.all.contains(
                (#[trigger] names@[i])@,
            ) && seeds@.wave.breaking.contains(names@[i]@)),
{
    match &cli.direct {
        Some(names) => {
            let all_seeds = NameSet::from_list(names);
            sink.emit(Event::DirectModeBanner { seeds: all_seeds.clone() });
            let seeds = Seeds {
                state: WaveState {
                    breaking_crates: all_seeds.clone(),
                    additive_crates: NameSet::new(),
                    failed: NameSet::new(),
                },
                all_seeds,
                local_bumps: NameMap::new(),
                new_crates: NameSet::new(),
                is_direct: true,
            };
            assert(seeds@ =~= named_seeds(texts(names@).to_set()));
            assert forall|i: int| 0 <= i < names@.len() implies seeds@.all.contains(
                (#[trigger] names@[i])@,
            ) && seeds@.wave.breaking.contains(names@[i]@) by {
                assert(texts(names@)[i] == names@[i]@);
                assert(texts(names@).contains(names@[i]@));
            }
            Some(seeds)
        },
        None => {
            sink.emit(
                Event::ComparingRefs { source: cli.source.clone(), target: cli.target.clone() },
            );
            None
        },
    }
}

/// The seeds among version changes.
pub open spec fn seeds_among(changes: VersionChanges) -> SeedsView {
    SeedsView {
        all: changes.breaking_seeds@.union(changes.additive_seeds@),
        wave: WaveView {
            breaking: changes.breaking_seeds@,
            additive: changes.additive_seeds@,
            failed: Set::empty(),
        },
        bumps: changes.local_bumps@,
        new_crates: changes.new_crates@,
        is_direct: false,
    }
}

/// There is neither a breaking nor an additive seed.
pub open spec fn has_no_seeds(changes: VersionChanges) -> bool {
    changes.breaking_seeds@ =~= Set::empty() && changes.additive_seeds@ =~= Set::empty()
}

/// What is reported of the seeds among version changes.
pub open spec fn seed_events(changes: VersionChanges) -> Seq<EventView> {
    let breaking = if changes.breaking_seeds@ =~= Set::empty() {
        Seq::empty()
    } else {
        seq![EventView::BreakingSeeds { names: changes.breaking_seeds@ }]
    };
    let additive = if changes.additive_seeds@ =~= Set::empty() {
        Seq::empty()
    } else {
        seq![EventView::AdditiveSeeds { names: changes.additive_seeds@ }]
    };
    if has_no_seeds(changes) {
        seq![EventView::NoChangesDetected]
    } else {
        breaking + additive
    }
}

/// Take the seeds from version changes; `None` where there are none, so that
/// nothing has to be analyzed.
pub fn take_seeds<S: EventSink>(changes: VersionChanges, sink: &mut S) -> (r: Option<Seeds>)
    ensures
        match r {
            Some(seeds) => !has_no_seeds(changes) && seeds@ == seeds_among(changes),
            None => has_no_seeds(changes),
        },
        final(sink).emitted() == old(sink).emitted() + seed_events(changes),
        forall|name: Seq<char>| #[trigger]
            changes.breaking_seeds@.contains(name) ==> (r matches Some(seeds)
                && seeds@.all.contains(name) && seeds@.wave.breaking.contains(name)),
        forall|name: Seq<char>| #[trigger]
            changes.additive_seeds@.contains(name) ==> (r matches Some(seeds)
                && seeds@.all.contains(name) && seeds@.wave.additive.contains(name)),
{
    let ghost given = changes;
    if changes.breaking_seeds.is_empty() && changes.additive_seeds.is_empty() {
        sink.emit(Event::NoChangesDetected);
        assert(sink.emitted() =~= old(sink).emitted() + seed_events(given));
        return None;
    }
    if !changes.breaking_seeds.is_empty() {
        sink.emit(Event::BreakingSeeds { names: changes.breaking_seeds.clone() });
    }
    if !changes.additive_seeds.is_empty() {
        sink.emit(Event::AdditiveSeeds { names: changes.additive_seeds.clone() });
    }
    assert(sink.emitted() =~= old(sink).emitted() + seed_events(given));
    let mut all_seeds = changes.breaking_seeds.clone();
    let list = changes.additive_seeds.names();
    let ghost all = texts(list@);
    for i in 0..list.len()
        invariant
            all == texts(list@),
            forall|name: Seq<char>| #[trigger]
                all_seeds@.contains(name) <==> given.breaking_seeds@.contains(name) || exists|
                    k: int,
                | 0 <= k < i && #[trigger] all[k] == name,
    {
        assert(all[i as int] == list@[i as int]@);
        all_seeds.insert(list[i].clone());
    }
    proof {
        let want = given.breaking_seeds@.union(given.additive_seeds@);
        assert forall|name: Seq<char>| #[trigger] all_seeds@.contains(name) <==> want.contains(
            name,
        ) by {
            assert(all.to_set().contains(name) <==> all.contains(name));
        }
        assert(all_seeds@ =~= want);
    }
    let seeds = Seeds {
        all_seeds,
        state: WaveState {
            breaking_crates: changes.breaking_seeds,
            additive_crates: changes.additive_seeds,
            failed: NameSet::new(),
        },
        local_bumps: changes.local_bumps,
        new_crates: changes.new_crates,
        is_direct: false,
    };
    assert(seeds@ =~= seeds_among(given));
    Some(seeds)
}

/// Why an analysis ends without a result, or with a bad one.
#[derive(Debug)]
pub enum RunError {
    /// The dependencies were not resolved.
    NoResolveGraph,
    /// The user has named crates that do not exist.
    UnknownCrates(Vec<String>),
    /// The crate has no manifest in the workspace.
    NoManifestPath(CrateName),
    /// The generated documentation of the crate is not rustdoc's JSON.
    UnreadableDocs(CrateName),
    /// The crates depend on each other.
    Stuck(Vec<String>),
    /// The local version bumps are not sufficient.
    BumpErrors,
}

/// What an error says.
pub enum RunErrorView {
    NoResolveGraph,
    UnknownCrates(Seq<Seq<char>>),
    NoManifestPath(Seq<char>),
    UnreadableDocs(Seq<char>),
    Stuck(Seq<Seq<char>>),
    BumpErrors,
}

impl View for RunError {
    type V = RunErrorView;

    open spec fn view(&self) -> RunErrorView {
        match self {
            RunError::NoResolveGraph => RunErrorView::NoResolveGraph,
            RunError::UnknownCrates(names) => RunErrorView::UnknownCrates(texts(names@)),
            RunError::NoManifestPath(name) => RunErrorView::NoManifestPath(name@),
            RunError::UnreadableDocs(name) => RunErrorView::UnreadableDocs(name@),
            RunError::Stuck(names) => RunErrorView::Stuck(texts(names@)),
            RunError::BumpErrors => RunErrorView::BumpErrors,
        }
    }
}

impl RunErrorView {
    /// The text of the error.
    pub open spec fn text(self) -> Seq<char> {
        match self {
            RunErrorView::NoResolveGraph => "No resolve graph found"@,
            RunErrorView::UnknownCrates(names) => "Unknown crate(s) passed to --direct: "@ + join(
                names,
                ", "@,
            ),
            RunErrorView::NoManifestPath(name) => "No manifest path for "@ + name,
            RunErrorView::UnreadableDocs(name) => "Failed to parse rustdoc JSON for "@ + name,
            RunErrorView::Stuck(names) => "Cannot make progress on crates: "@ + debug_list(names)
                + ". This should not happen with a valid Cargo workspace."@,
            RunErrorView::BumpErrors => "semwave encountered errors during analysis"@,
        }
    }
}

impl RunError {
    /// The text of the error.
    pub fn message(&self) -> (r: String)
        ensures
            r@ == self@.text(),
    {
        match self {
            RunError::NoResolveGraph => "No resolve graph found".to_owned(),
            RunError::UnknownCrates(names) => {
                let mut r = "Unknown crate(s) passed to --direct: ".to_owned();
                r.append(join_texts(names, ", ").as_str());
                r
            },
            RunError::NoManifestPath(name) => {
                let mut r = "No manifest path for ".to_owned();
                r.append(name.as_str());
                r
            },
            RunError::UnreadableDocs(name) => {
                let mut r = "Failed to parse rustdoc JSON for ".to_owned();
                r.append(name.as_str());
                r
            },
            RunError::Stuck(names) => {
                let mut r = "Cannot make progress on crates: ".to_owned();
                r.append(display_list(names).as_str());
                r.append(". This should not happen with a valid Cargo workspace.");
                r
            },
            RunError::BumpErrors => "semwave encountered errors during analysis".to_owned(),
        }
    }
}

/// An analysis under way. It goes through the pending nodes in sweeps, each from
/// the last node to the first.
#[derive(Debug)]
pub struct Run {
    pub nodes: Vec<Node>,
    pub ctx: WorkspaceContext,
    pub all_seeds: NameSet,
    pub local_bumps: NameMap<Bump>,
    pub new_crates: NameSet,
    /// The nodes that have not been processed.
    pub pending: Vec<usize>,
    /// How many of them this sweep has not come by yet.
    pub cursor: usize,
    /// This sweep has processed a node.
    pub made_progress: bool,
    /// The names of the nodes that have been processed.
    pub processed: NameSet,
    pub result: PropagationResult,
}

/// Where the sweeps stand.
#[verifier::ext_equal]
pub struct SweepView {
    pub pending: Seq<usize>,
    pub cursor: nat,
    pub made_progress: bool,
    pub processed: Set<Seq<char>>,
    pub reach: ReachView,
}

impl View for Run {
    type V = SweepView;

    open spec fn view(&self) -> SweepView {
        SweepView {
            pending: self.pending@,
            cursor: self.cursor as nat,
            made_progress: self.made_progress,
            processed: self.processed@,
            reach: self.result@,
        }
    }
}

impl SweepView {
    /// The pending nodes are known, and the cursor stands among them.
    pub open spec fn well_formed(self, nodes: Seq<Node>, ctx: WorkspaceContext) -> bool {
        &&& are_known(self.pending, nodes, ctx)
        &&& self.cursor <= self.pending.len()
    }

    /// The sweep after the node before the cursor was processed.
    pub open spec fn after(
        self,
        name: Seq<char>,
        bump: CrateBumpView,
        failed: Set<Seq<char>>,
    ) -> SweepView {
        let at = self.cursor - 1;
        SweepView {
            pending: self.pending.remove(at),
            cursor: at as nat,
            made_progress: true,
            processed: self.processed.insert(name),
            reach: passed(ReachView { failed, ..self.reach }, name, bump),
        }
    }
}

/// Where the sweeps stop.
pub enum RunStepView {
    /// The documentation of this crate, with this manifest, is needed.
    Build(Seq<char>, Seq<char>),
    Finished,
    NoManifestPath(Seq<char>),
    UnreadableDocs(Seq<char>),
    Stuck,
}

/// The course of the sweeps: a pending node is processed when the sweep comes by
/// and its dependencies have been processed. They stop where the documentation
/// of a crate is needed; `rustdoc` is what came of generating it, once it was
/// asked for.
pub open spec fn advance(
    s: SweepView,
    nodes: Seq<Node>,
    ctx: WorkspaceContext,
    cli: Cli,
    rustdoc: Option<RustdocOutcome>,
) -> (SweepView, RunStepView, Seq<EventView>)
    decreases
            s.pending.len(),
            if s.made_progress {
                1int
            } else {
                0
            },
            s.cursor,
    when s.cursor <= s.pending.len()
{
    if s.cursor == 0 {
        if s.pending.len() == 0 {
            (s, RunStepView::Finished, Seq::empty())
        } else if !s.made_progress {
            (s, RunStepView::Stuck, Seq::empty())
        } else {
            advance(
                SweepView { cursor: s.pending.len(), made_progress: false, ..s },
                nodes,
                ctx,
                cli,
                rustdoc,
            )
        }
    } else {
        let at = s.cursor - 1;
        let position = s.pending[at];
        let node = nodes[position as int];
        let name = node_name(nodes, ctx, position);
        if !is_ready(node, ctx, s.processed) {
            advance(SweepView { cursor: at as nat, ..s }, nodes, ctx, cli, rustdoc)
        } else {
            let (result, failed, events) = evaluation(node, ctx, s.reach.wave(), cli, rustdoc);
            match result {
                EvaluationView::NeedsRustdoc(manifest) => (
                    s,
                    RunStepView::Build(name, manifest),
                    events,
                ),
                EvaluationView::Failed(EvaluateError::NoManifestPath) => (
                    s,
                    RunStepView::NoManifestPath(name),
                    events,
                ),
                EvaluationView::Failed(EvaluateError::UnreadableDocs) => (
                    s,
                    RunStepView::UnreadableDocs(name),
                    events,
                ),
                EvaluationView::Done(bump) => {
                    let (end, step, more) = advance(
                        s.after(name, bump, failed),
                        nodes,
                        ctx,
                        cli,
                        None,
                    );
                    (end, step, events + more)
                },
            }
        }
    }
}

/// What an analysis needs next.
#[derive(Debug)]
pub enum RunStep {
    /// The documentation of a crate has to be generated.
    Build(Build),
    /// Every crate has been processed.
    Finished,
}

/// The names of the pending nodes.
pub open spec fn pending_names(
    pending: Seq<usize>,
    nodes: Seq<Node>,
    ctx: WorkspaceContext,
) -> Seq<Seq<char>> {
    pending.map_values(|position: usize| node_name(nodes, ctx, position))
}

/// The outcome `r` says where the sweeps stopped, in the state `end`.
pub open spec fn tells(
    r: Result<RunStep, RunError>,
    step: RunStepView,
    end: SweepView,
    nodes: Seq<Node>,
    ctx: WorkspaceContext,
) -> bool {
    match step {
        RunStepView::Build(name, manifest) => r matches Ok(RunStep::Build(build))
            && build.deep_view() == (name, manifest),
        RunStepView::Finished => r matches Ok(RunStep::Finished),
        RunStepView::NoManifestPath(name) => r matches Err(e) && e@
            == RunErrorView::NoManifestPath(name),
        RunStepView::UnreadableDocs(name) => r matches Err(e) && e@
            == RunErrorView::UnreadableDocs(name),
        RunStepView::Stuck => r matches Err(e) && e@ == RunErrorView::Stuck(
            pending_names(end.pending, nodes, ctx),
        ),
    }
}

/// The seeds that no package is named after.
pub open spec fn unknown_seeds(
    seeds: Set<Seq<char>>,
    packages: Seq<Package>,
) -> Set<Seq<char>> {
    Set::new(|name: Seq<char>| seeds.contains(name) && !is_package(packages, name))
}

/// Some package has the name.
pub open spec fn is_package(packages: Seq<Package>, name: Seq<char>) -> bool {
    exists|i: int| 0 <= i < packages.len() && (#[trigger] packages[i]).name@ == name
}

/// Find the seeds that no package is named after.
pub fn find_unknown(seeds: &NameSet, packages: &Vec<Package>) -> (r: NameSet)
    ensures
        r@ == unknown_seeds(seeds@, packages@),
{
    let mut r = seeds.clone();
    assert(r@ =~= unknown_seeds(seeds@, packages@.take(0)));
    for i in 0..packages.len()
        invariant
            r@ == unknown_seeds(seeds@, packages@.take(i as int)),
    {
        let ghost few = packages@.take(i as int);
        let ghost more = packages@.take(i + 1);
        r.remove(packages[i].name.as_str());
        assert forall|name: Seq<char>| is_package(more, name) <==> is_package(few, name)
            || packages@[i as int].name@ == name by {
            if is_package(few, name) {
                let k = choose|k: int| 0 <= k < few.len() && (#[trigger] few[k]).name@ == name;
                assert(more[k].name@ == name);
            }
            if is_package(more, name) {
                let k = choose|k: int| 0 <= k < more.len() && (#[trigger] more[k]).name@ == name;
                if k < i {
                    assert(few[k].name@ == name);
                }
            }
            assert(more[i as int] == packages@[i as int]);
        }
        assert(r@ =~= unknown_seeds(seeds@, more));
    }
    assert(packages@.take(packages.len() as int) =~= packages@);
    r
}

/// The state in which the sweeps start.
pub open spec fn first_sweep(
    seeds: SeedsView,
    nodes: Seq<Node>,
    ctx: WorkspaceContext,
) -> SweepView {
    SweepView {
        pending: member_positions(nodes, ctx.workspace_members@, nodes.len()),
        cursor: 0,
        made_progress: true,
        processed: Set::empty(),
        reach: ReachView {
            breaking: seeds.wave.breaking,
            additive: seeds.wave.additive,
            patch: Set::empty(),
            failed: seeds.wave.failed,
            edges: Map::empty(),
        },
    }
}

impl Run {
    /// The pending nodes are known, and the cursor stands among them.
    pub open spec fn well_formed(&self) -> bool {
        self@.well_formed(self.nodes@, self.ctx)
    }

    /// The analysis is about the same workspace and the same seeds.
    pub open spec fn same_subject(&self, other: Run) -> bool {
        &&& self.nodes == other.nodes
        &&& self.ctx == other.ctx
        &&& self.all_seeds == other.all_seeds
        &&& self.local_bumps == other.local_bumps
        &&& self.new_crates == other.new_crates
    }

    /// Start the analysis of a workspace. Names of the user that no package has are
    /// reported before anything is asked of the resolved dependencies.
    pub fn start(seeds: Seeds, metadata: Metadata, ctx: WorkspaceContext) -> (r: Result<
        Run,
        RunError,
    >)
        requires
            metadata.resolve matches Some(nodes) ==> {
                let unknown = unknown_seeds(seeds@.all, metadata.packages@);
                (seeds.is_direct && !(unknown =~= Set::empty())) || is_consistent(nodes@, ctx)
            },
        ensures
            match metadata.resolve {
                None => r matches Err(e) && e@ == RunErrorView::NoResolveGraph,
                Some(nodes) => {
                    let unknown = unknown_seeds(seeds@.all, metadata.packages@);
                    if seeds.is_direct && !(unknown =~= Set::empty()) {
                        r matches Err(e) && e@ == RunErrorView::UnknownCrates(ascending(unknown))
                    } else {
                        &&& r matches Ok(run)
                        &&& run@ == first_sweep(seeds@, nodes@, ctx)
                        &&& run.well_formed()
                        &&& run.nodes == nodes
                        &&& run.ctx == ctx
                        &&& run.all_seeds == seeds.all_seeds
                        &&& run.local_bumps == seeds.local_bumps
                        &&& run.new_crates == seeds.new_crates
                    }
                },
            },
            forall|name: Seq<char>|
                seeds.is_direct && #[trigger] seeds@.all.contains(name) && (forall|i: int|
                    0 <= i < metadata.packages@.len() ==> (
                    #[trigger] metadata.packages@[i]).name@ != name) ==> r is Err,
            r matches Ok(run) ==> forall|i: usize|
                i < run.nodes@.len() ==> (#[trigger] run@.pending.contains(i)
                    <==> ctx.workspace_members@.contains(run.nodes@[i as int].id@)),
    {
        let ghost given = seeds@;
        let nodes = match metadata.resolve {
            Some(nodes) => nodes,
            None => {
                return Err(RunError::NoResolveGraph);
            },
        };
        if seeds.is_direct {
            let unknown = find_unknown(&seeds.all_seeds, &metadata.packages);
            if !unknown.is_empty() {
                return Err(RunError::UnknownCrates(copy_texts(unknown.names())));
            }
        }
        let pending = find_members(&nodes, &ctx);
        assert(nodes.len() == nodes@.len());
        proof {
            lemma_members_known(nodes@, ctx, nodes@.len());
        }
        let run = Run {
            nodes,
            ctx,
            all_seeds: seeds.all_seeds,
            local_bumps: seeds.local_bumps,
            new_crates: seeds.new_crates,
            pending,
            cursor: 0,
            made_progress: true,
            processed: NameSet::new(),
            result: PropagationResult::new(seeds.state),
        };
        assert(run@ =~= first_sweep(given, nodes@, ctx));
        proof {
            law_member_positions_ascend(nodes@, ctx.workspace_members@, nodes@.len());
            if seeds.is_direct {
                assert forall|name: Seq<char>| #[trigger] given.all.contains(name) implies exists|
                    i: int,
                |
                    0 <= i < metadata.packages@.len() && (#[trigger] metadata.packages@[i]).name@
                        == name by {
                    assert(!unknown_seeds(given.all, metadata.packages@).contains(name));
                }
            }
        }
        Ok(run)
    }
}

fn name_pending(pending: &Vec<usize>, nodes: &Vec<Node>, ctx: &WorkspaceContext) -> (r: Vec<String>)
    requires
        are_known(pending@, nodes@, *ctx),
    ensures
        texts(r@) == pending_names(pending@, nodes@, *ctx),
{
    let ghost all = pending_names(pending@, nodes@, *ctx);
    let mut r: Vec<String> = Vec::new();
    for i in 0..pending.len()
        invariant
            are_known(pending@, nodes@, *ctx),
            all == pending_names(pending@, nodes@, *ctx),
            texts(r@) == all.take(i as int),
    {
        let ghost before = texts(r@);
        let position = pending[i];
        r.push(name_of(ctx, nodes[position].id.as_str()).as_str().to_owned());
        assert(texts(r@) =~= before.push(all[i as int]));
        assert(all.take(i + 1) =~= all.take(i as int).push(all[i as int]));
    }
    assert(all.take(pending.len() as int) =~= all);
    r
}

/// Go on with an analysis until the documentation of a crate is needed or every
/// crate has been processed.
///
/// `rustdoc` is what came of generating the documentation of the crate that the
/// last call has named.
pub fn run<S: EventSink>(
    state: &mut Run,
    cli: &Cli,
    rustdoc: Option<&RustdocOutcome>,
    sink: &mut S,
) -> (r: Result<RunStep, RunError>)
    requires
        old(state).well_formed(),
    ensures
        ({
            let (end, step, events) = advance(
                old(state)@,
                old(state).nodes@,
                old(state).ctx,
                *cli,
                match rustdoc {
                    Some(outcome) => Some(*outcome),
                    None => None,
                },
            );
            &&& final(state)@ == end
            &&& tells(r, step, end, old(state).nodes@, old(state).ctx)
            &&& final(sink).emitted() == old(sink).emitted() + events
        }),
        final(state).well_formed(),
        final(state).same_subject(*old(state)),
        r matches Ok(RunStep::Finished) ==> final(state).pending@.len() == 0,
{
    let ghost nodes = state.nodes@;
    let ghost ctx = state.ctx;
    let ghost before = sink.emitted();
    let ghost first = match rustdoc {
        Some(outcome) => Some(*outcome),
        None => None,
    };
    let ghost goal = advance(state@, nodes, ctx, *cli, first);
    let ghost mut done = Seq::<EventView>::empty();
    let mut given = rustdoc;
    assert(before + done =~= before);
    assert(done + goal.2 =~= goal.2);
    loop
        invariant
            state.well_formed(),
            state.same_subject(*old(state)),
            nodes == state.nodes@,
            ctx == state.ctx,
            nodes == old(state).nodes@,
            ctx == old(state).ctx,
            before == old(sink).emitted(),
            sink.emitted() == before + done,
            goal == advance(
                old(state)@,
                nodes,
                ctx,
                *cli,
                match rustdoc {
                    Some(outcome) => Some(*outcome),
                    None => None,
                },
            ),
            ({
                let (end, step, events) = advance(
                    state@,
                    nodes,
                    ctx,
                    *cli,
                    match given {
                        Some(outcome) => Some(*outcome),
                        None => None,
                    },
                );
                goal == (end, step, done + events)
            }),
        decreases
                state.pending.len(),
                if state.made_progress {
                    1int
                } else {
                    0
                },
                state.cursor,
    {
        let ghost s = state@;
        if state.cursor == 0 {
            assert(done + Seq::<EventView>::empty() =~= done);
            if state.pending.len() == 0 {
                return Ok(RunStep::Finished);
            }
            if !state.made_progress {
                return Err(RunError::Stuck(name_pending(&state.pending, &state.nodes, &state.ctx)));
            }
            state.cursor = state.pending.len();
            state.made_progress = false;
            assert(state@ =~= (SweepView { cursor: s.pending.len(), made_progress: false, ..s }));
        } else {
            let at = state.cursor - 1;
            let position = state.pending[at];
            assert(s.pending[at as int] < nodes.len());
            if !deps_ready(&state.nodes[position], &state.ctx, &state.processed) {
                state.cursor = at;
                assert(state@ =~= (SweepView { cursor: at as nat, ..s }));
            } else {
                let ghost (result, failed, events) = evaluation(
                    nodes[position as int],
                    ctx,
                    s.reach.wave(),
                    *cli,
                    match given {
                        Some(outcome) => Some(*outcome),
                        None => None,
                    },
                );
                assert(state.result.state@ =~= s.reach.wave());
                let evaluated = evaluate_crate_bump(
                    &state.nodes[position],
                    &state.ctx,
                    &mut state.result.state,
                    cli,
                    given,
                    sink,
                );
                assert(state.result@ =~= (ReachView { failed, ..s.reach }));
                assert(sink.emitted() == (before + done) + events);
                let name = name_of(&state.ctx, state.nodes[position].id.as_str());
                match evaluated {
                    Ok(CrateEvaluation::NeedsRustdoc(manifest)) => {
                        assert(state@ =~= s);
                        assert(before + (done + events) =~= (before + done) + events);
                        return Ok(RunStep::Build(Build { name: name.clone(), manifest }));
                    },
                    Err(EvaluateError::NoManifestPath) => {
                        assert(state@ =~= s);
                        assert(before + (done + events) =~= (before + done) + events);
                        return Err(RunError::NoManifestPath(name.clone()));
                    },
                    Err(EvaluateError::UnreadableDocs) => {
                        assert(state@ =~= s);
                        assert(before + (done + events) =~= (before + done) + events);
                        return Err(RunError::UnreadableDocs(name.clone()));
                    },
                    Ok(CrateEvaluation::Done(bump)) => {
                        state.result.pass(name, &bump);
                        state.processed.insert(name.as_str().to_owned());
                        state.pending.remove(at);
                        state.cursor = at;
                        state.made_progress = true;
                        given = None;
                        proof {
                            let next = s.after(name@, bump@, failed);
                            assert(state@ =~= next);
                            assert(are_known(next.pending, nodes, ctx)) by {
                                assert forall|k: int| 0 <= k < next.pending.len() implies (
                                #[trigger] next.pending[k]) < nodes.len() && is_known(
                                    ctx,
                                    nodes[next.pending[k] as int],
                                ) by {
                                    let j = if k < at {
                                        k
                                    } else {
                                        k + 1
                                    };
                                    assert(next.pending[k] == s.pending[j]);
                                }
                            }
                            let more = advance(next, nodes, ctx, *cli, None).2;
                            assert(before + (done + events) =~= (before + done) + events);
                            assert(done + (events + more) =~= (done + events) + more);
                            done = done + events;
                        }
                    },
                }
            }
        }
    }
}

/// What is reported at the end of an analysis.
pub open spec fn final_events(run: Run, cli: Cli) -> Seq<EventView> {
    let reach = settled(
        run@.reach,
        run.all_seeds@,
        run.new_crates@,
        run.local_bumps@,
    );
    let lists = bump_lists(run.ctx, reach);
    result_events(run.ctx, reach, run.all_seeds@, cli.tree) + bump_errors(
        lists,
        run.local_bumps@,
        reach.failed,
        run.new_crates@,
    )
}

/// Report the results of an analysis, and check the local version bumps.
pub fn conclude<S: EventSink>(run: Run, cli: &Cli, sink: &mut S) -> (r: Result<(), RunError>)
    ensures
        ({
            let reach = settled(
                run@.reach,
                run.all_seeds@,
                run.new_crates@,
                run.local_bumps@,
            );
            let errors = bump_errors(
                bump_lists(run.ctx, reach),
                run.local_bumps@,
                reach.failed,
                run.new_crates@,
            );
            match r {
                Ok(_) => errors.len() == 0,
                Err(e) => errors.len() > 0 && e@ == RunErrorView::BumpErrors,
            }
        }),
        final(sink).emitted() == old(sink).emitted() + final_events(run, *cli),
        forall|name: Seq<char>, level: Bump| #[trigger]
            bumped_too_little(
                bump_lists(
                    run.ctx,
                    settled(run@.reach, run.all_seeds@, run.new_crates@, run.local_bumps@),
                ),
                run.local_bumps@,
                run@.reach.failed,
                name,
                level,
            ) ==> r is Err,
{
    let mut result = run.result;
    result.settle(&run.all_seeds, &run.new_crates, &run.local_bumps);
    let lists = print_results(&run.ctx, &result, &run.all_seeds, cli.tree, sink);
    let has_errors = validate_bumps(
        &lists,
        &run.local_bumps,
        &result.state.failed,
        &run.new_crates,
        sink,
    );
    assert(sink.emitted() =~= old(sink).emitted() + final_events(run, *cli));
    if has_errors {
        Err(RunError::BumpErrors)
    } else {
        Ok(())
    }
}

/// What holds of the sweeps at every point: the pending nodes belong to the
/// workspace, each other node of the workspace has been processed after the
/// nodes that it depends on, and a sweep that has made no progress has found
/// none of the nodes that it came by ready.
pub open spec fn in_order(s: SweepView, nodes: Seq<Node>, ctx: WorkspaceContext) -> bool {
    &&& s.well_formed(nodes, ctx)
    &&& are_members(s.pending, nodes, ctx)
    &&& accounts_for(s.pending, s.processed, nodes, ctx)
    &&& forall|j: int|
        0 <= j < nodes.len() && ctx.workspace_members@.contains((#[trigger] nodes[j]).id@)
            && !s.pending.contains(j as usize) ==> is_ready(nodes[j], ctx, s.processed)
    &&& !s.made_progress ==> forall|k: int|
        s.cursor <= k < s.pending.len() ==> !is_ready(
            nodes[(#[trigger] s.pending[k]) as int],
            ctx,
            s.processed,
        )
}

/// The sweeps start in order.
pub proof fn law_first_sweep_is_in_order(
    seeds: SeedsView,
    nodes: Seq<Node>,
    ctx: WorkspaceContext,
)
    requires
        is_consistent(nodes, ctx),
        nodes.len() <= usize::MAX,
    ensures
        in_order(first_sweep(seeds, nodes, ctx), nodes, ctx),
{
    lemma_members_known(nodes, ctx, nodes.len());
    lemma_members_found(nodes, ctx, nodes.len());
}

pub proof fn lemma_after_in_order(
    s: SweepView,
    nodes: Seq<Node>,
    ctx: WorkspaceContext,
    bump: CrateBumpView,
    failed: Set<Seq<char>>,
)
    requires
        in_order(s, nodes, ctx),
        nodes.len() <= usize::MAX,
        s.cursor > 0,
        is_ready(nodes[s.pending[s.cursor - 1] as int], ctx, s.processed),
    ensures
        in_order(
            s.after(node_name(nodes, ctx, s.pending[s.cursor - 1]), bump, failed),
            nodes,
            ctx,
        ),
{
    let at = s.cursor - 1;
    let gone = s.pending[at];
    let name = node_name(nodes, ctx, gone);
    let next = s.after(name, bump, failed);
    assert forall|k: int| 0 <= k < next.pending.len() implies (#[trigger] next.pending[k])
        < nodes.len() && is_known(ctx, nodes[next.pending[k] as int])
        && ctx.workspace_members@.contains(nodes[next.pending[k] as int].id@) by {
        let j = if k < at {
            k
        } else {
            k + 1
        };
        assert(next.pending[k] == s.pending[j]);
    }
    assert forall|j: int|
        0 <= j < nodes.len() && ctx.workspace_members@.contains(
            (#[trigger] nodes[j]).id@,
        ) implies (next.pending.contains(j as usize) || next.processed.contains(
        node_name(nodes, ctx, j as usize),
    )) && (!next.pending.contains(j as usize) ==> is_ready(nodes[j], ctx, next.processed)) by {
        if s.pending.contains(j as usize) && j as usize != gone {
            let k = choose|k: int| 0 <= k < s.pending.len() && s.pending[k] == j as usize;
            if k < at {
                assert(next.pending[k] == j as usize);
            } else {
                assert(next.pending[k - 1] == j as usize);
            }
        } else {
            assert(is_ready(nodes[j], ctx, s.processed));
        }
    }
}

/// The sweeps stay in order. In an acyclic workspace they are never stuck. When
/// they finish, every member of the workspace has been processed.
pub proof fn law_sweeps_process_every_member(
    s: SweepView,
    nodes: Seq<Node>,
    ctx: WorkspaceContext,
    cli: Cli,
    rustdoc: Option<RustdocOutcome>,
    adj: Adjacency,
)
    requires
        in_order(s, nodes, ctx),
        is_acyclic(adj, nodes, ctx),
    ensures
        ({
            let (end, step, _) = advance(s, nodes, ctx, cli, rustdoc);
            &&& in_order(end, nodes, ctx)
            &&& !(step is Stuck)
            &&& step is Finished ==> forall|j: int|
                0 <= j < nodes.len() && ctx.workspace_members@.contains((#[trigger] nodes[j]).id@)
                    ==> end.processed.contains(node_name(nodes, ctx, j as usize))
        }),
    decreases
            s.pending.len(),
            if s.made_progress {
                1int
            } else {
                0
            },
            s.cursor,
{
    if s.cursor == 0 {
        if s.pending.len() == 0 {
            assert forall|j: int|
                0 <= j < nodes.len() && ctx.workspace_members@.contains(
                    (#[trigger] nodes[j]).id@,
                ) implies s.processed.contains(node_name(nodes, ctx, j as usize)) by {
                assert(!s.pending.contains(j as usize));
            }
        } else if !s.made_progress {
            lemma_some_ready(s.pending, s.processed, nodes, ctx, adj);
            let k = choose|k: int|
                0 <= k < s.pending.len() && is_ready(
                    nodes[(#[trigger] s.pending[k]) as int],
                    ctx,
                    s.processed,
                );
            assert(!is_ready(nodes[s.pending[k] as int], ctx, s.processed));
        } else {
            let next = SweepView { cursor: s.pending.len(), made_progress: false, ..s };
            law_sweeps_process_every_member(next, nodes, ctx, cli, rustdoc, adj);
        }
    } else {
        let at = s.cursor - 1;
        let position = s.pending[at];
        let node = nodes[position as int];
        if !is_ready(node, ctx, s.processed) {
            let next = SweepView { cursor: at as nat, ..s };
            law_sweeps_process_every_member(next, nodes, ctx, cli, rustdoc, adj);
        } else {
            let (result, failed, _) = evaluation(node, ctx, s.reach.wave(), cli, rustdoc);
            if let EvaluationView::Done(bump) = result {
                lemma_after_in_order(s, nodes, ctx, bump, failed);
                let next = s.after(node_name(nodes, ctx, position), bump, failed);
                law_sweeps_process_every_member(next, nodes, ctx, cli, None, adj);
            }
        }
    }
}

/// No two pending nodes have one name, none of these names was processed, and a
/// crate other than the seeds was reached at most once, and in one way only.
pub open spec fn reached_once(
    s: SweepView,
    nodes: Seq<Node>,
    ctx: WorkspaceContext,
    seeds: Set<Seq<char>>,
) -> bool {
    let names = pending_names(s.pending, nodes, ctx);
    &&& s.cursor <= s.pending.len()
    &&& names.no_duplicates()
    &&& forall|k: int| 0 <= k < names.len() ==> !s.processed.contains(#[trigger] names[k])
    &&& forall|name: Seq<char>| #[trigger]
        seeds.contains(name) || reached_in_one_way(s.reach, s.processed, name)
}

/// The crate `name` was reached in at most one way, and only if it was processed.
pub open spec fn reached_in_one_way(
    reach: ReachView,
    processed: Set<Seq<char>>,
    name: Seq<char>,
) -> bool {
    let breaking = reach.breaking.contains(name);
    let additive = reach.additive.contains(name);
    let patch = reach.patch.contains(name);
    &&& breaking || additive || patch ==> processed.contains(name)
    &&& !(breaking && additive)
    &&& !(breaking && patch)
    &&& !(additive && patch)
}

pub proof fn lemma_reached_once_after(
    s: SweepView,
    nodes: Seq<Node>,
    ctx: WorkspaceContext,
    bump: CrateBumpView,
    failed: Set<Seq<char>>,
    seeds: Set<Seq<char>>,
)
    requires
        reached_once(s, nodes, ctx, seeds),
        s.cursor > 0,
    ensures
        reached_once(
            s.after(node_name(nodes, ctx, s.pending[s.cursor - 1]), bump, failed),
            nodes,
            ctx,
            seeds,
        ),
{
    let at = s.cursor - 1;
    let name = node_name(nodes, ctx, s.pending[at]);
    let next = s.after(name, bump, failed);
    let names = pending_names(s.pending, nodes, ctx);
    let left = pending_names(next.pending, nodes, ctx);
    assert(left =~= names.remove(at));
    assert(names[at] == name);
    assert forall|k: int| 0 <= k < left.len() implies !next.processed.contains(
        #[trigger] left[k],
    ) by {
        let j = if k < at {
            k
        } else {
            k + 1
        };
        assert(left[k] == names[j]);
    }
    assert forall|n: Seq<char>| #[trigger] seeds.contains(n) || reached_in_one_way(
        next.reach,
        next.processed,
        n,
    ) by {
        assert(seeds.contains(n) || reached_in_one_way(s.reach, s.processed, n));
    }
}

/// Where no two members of the workspace have one name, each crate other than
/// the seeds is reached in one way at most, whatever becomes of the crates.
pub proof fn law_crates_are_reached_once(
    s: SweepView,
    nodes: Seq<Node>,
    ctx: WorkspaceContext,
    cli: Cli,
    rustdoc: Option<RustdocOutcome>,
    seeds: Set<Seq<char>>,
)
    requires
        reached_once(s, nodes, ctx, seeds),
    ensures
        reached_once(advance(s, nodes, ctx, cli, rustdoc).0, nodes, ctx, seeds),
    decreases
            s.pending.len(),
            if s.made_progress {
                1int
            } else {
                0
            },
            s.cursor,
{
    if s.cursor == 0 {
        if s.pending.len() > 0 && s.made_progress {
            let next = SweepView { cursor: s.pending.len(), made_progress: false, ..s };
            law_crates_are_reached_once(next, nodes, ctx, cli, rustdoc, seeds);
        }
    } else {
        let at = s.cursor - 1;
        let position = s.pending[at];
        let node = nodes[position as int];
        if !is_ready(node, ctx, s.processed) {
            let next = SweepView { cursor: at as nat, ..s };
            law_crates_are_reached_once(next, nodes, ctx, cli, rustdoc, seeds);
        } else {
            let (result, failed, _) = evaluation(node, ctx, s.reach.wave(), cli, rustdoc);
            if let EvaluationView::Done(bump) = result {
                let next = s.after(node_name(nodes, ctx, position), bump, failed);
                lemma_reached_once_after(s, nodes, ctx, bump, failed, seeds);
                law_crates_are_reached_once(next, nodes, ctx, cli, None, seeds);
            }
        }
    }
}

/// Where no two members of the workspace have one name, the sweeps start with
/// each crate other than the seeds reached in no way.
pub proof fn law_first_sweep_has_reached_seeds_only(
    seeds: SeedsView,
    nodes: Seq<Node>,
    ctx: WorkspaceContext,
)
    requires
        seeds.wave.breaking.subset_of(seeds.all),
        seeds.wave.additive.subset_of(seeds.all),
        pending_names(
            member_positions(nodes, ctx.workspace_members@, nodes.len()),
            nodes,
            ctx,
        ).no_duplicates(),
    ensures
        reached_once(first_sweep(seeds, nodes, ctx), nodes, ctx, seeds.all),
{
    let s = first_sweep(seeds, nodes, ctx);
    assert forall|n: Seq<char>| #[trigger] seeds.all.contains(n) || reached_in_one_way(
        s.reach,
        s.processed,
        n,
    ) by {
        if s.reach.breaking.contains(n) || s.reach.additive.contains(n) {
            assert(seeds.all.contains(n));
        }
    }
}

/// Where each crate other than the seeds was reached in one way at most, no
/// crate ends up on two of the three lists.
pub proof fn law_final_lists_are_disjoint(
    s: SweepView,
    nodes: Seq<Node>,
    ctx: WorkspaceContext,
    seeds: Set<Seq<char>>,
    new_crates: Set<Seq<char>>,
    bumps: Map<Seq<char>, Bump>,
)
    requires
        reached_once(s, nodes, ctx, seeds),
    ensures
        ({
            let lists = bump_lists(ctx, settled(s.reach, seeds, new_crates, bumps));
            &&& lists.major.disjoint(lists.minor)
            &&& lists.major.disjoint(lists.patch)
            &&& lists.minor.disjoint(lists.patch)
        }),
{
    let reach = settled(s.reach, seeds, new_crates, bumps);
    assert forall|n: Seq<char>| !(reach.breaking.contains(n) && reach.additive.contains(n)) by {
        assert(seeds.contains(n) || reached_in_one_way(s.reach, s.processed, n));
    }
    assert forall|n: Seq<char>| !(reach.breaking.contains(n) && reach.patch.contains(n)) by {
        assert(seeds.contains(n) || reached_in_one_way(s.reach, s.processed, n));
    }
    assert forall|n: Seq<char>| !(reach.additive.contains(n) && reach.patch.contains(n)) by {
        assert(seeds.contains(n) || reached_in_one_way(s.reach, s.processed, n));
    }
    law_lists_are_disjoint(ctx, reach);
}

/// Whether a crate hands the change of its dependency at position `i` on: it
/// leaks the dependency, or its documentation could not be generated.
pub open spec fn hands_on(deps: Seq<AffectedView>, outcome: RustdocOutcome, i: int) -> bool {
    match outcome {
        RustdocOutcome::Built(json) => match rustdoc_document(json@) {
            Some(docs) => is_leaked(
                leaked_deps(docs, relevant_crates(docs.external_crates, deps)),
                deps,
                i,
            ),
            None => false,
        },
        RustdocOutcome::Failed(_) => true,
    }
}

/// The wave has reached the crate `name` with at least the given change.
pub open spec fn reached_with(wave: WaveView, name: Seq<char>, change: ChangeKind) -> bool {
    change_of(wave, name) matches Some(reached) && reached.rank() >= change.rank()
}

/// The wave has treated a node as its documentation in `docs` demands: where it
/// has a public API, every change that it hands on has reached it, and, unless it
/// is a seed, whatever has reached it is a change that it hands on. A crate
/// without a public API, unless it is a seed, is not reached.
pub open spec fn is_explained(
    node: Node,
    ctx: WorkspaceContext,
    wave: WaveView,
    docs: Map<Seq<char>, RustdocOutcome>,
    seeds: Set<Seq<char>>,
) -> bool {
    let name = ctx.names()[node.id@];
    let deps = affected(node, ctx, wave);
    let has_lib = ctx.pkg_has_lib@.contains(name);
    &&& has_lib && docs.dom().contains(name) ==> forall|i: int|
        0 <= i < deps.len() && #[trigger] hands_on(deps, docs[name], i) ==> reached_with(
            wave,
            name,
            deps[i].change,
        )
    &&& has_lib && docs.dom().contains(name) && !seeds.contains(name) ==> (change_of(wave, name)
        matches Some(change) ==> exists|i: int|
        0 <= i < deps.len() && #[trigger] hands_on(deps, docs[name], i) && deps[i].change
            == change)
    &&& !has_lib && !seeds.contains(name) ==> change_of(wave, name) is None
}

/// The wave has treated each member of the workspace that is not pending as its
/// documentation demands.
pub open spec fn all_explained(
    s: SweepView,
    nodes: Seq<Node>,
    ctx: WorkspaceContext,
    docs: Map<Seq<char>, RustdocOutcome>,
    seeds: Set<Seq<char>>,
) -> bool {
    forall|j: int|
        0 <= j < nodes.len() && ctx.workspace_members@.contains((#[trigger] nodes[j]).id@)
            && !s.pending.contains(j as usize) ==> is_explained(
            nodes[j],
            ctx,
            s.reach.wave(),
            docs,
            seeds,
        )
}

/// No dependency outside the workspace has the name of a member.
pub open spec fn has_own_names(nodes: Seq<Node>, ctx: WorkspaceContext) -> bool {
    forall|i: int, d: int, j: int|
        0 <= i < nodes.len() && ctx.workspace_members@.contains(nodes[i].id@) && 0 <= d
            < nodes[i].deps@.len() && counts(nodes[i], #[trigger] nodes[i].deps@[d])
            && !ctx.workspace_members@.contains(nodes[i].deps@[d].pkg@) && 0 <= j < nodes.len()
            && ctx.workspace_members@.contains((#[trigger] nodes[j]).id@)
            ==> ctx.names()[nodes[i].deps@[d].pkg@] != ctx.names()[nodes[j].id@]
}

/// The outcome that is handed over is that of the node before the cursor.
pub open spec fn answers(
    s: SweepView,
    nodes: Seq<Node>,
    ctx: WorkspaceContext,
    rustdoc: Option<RustdocOutcome>,
    docs: Map<Seq<char>, RustdocOutcome>,
) -> bool {
    rustdoc matches Some(outcome) ==> {
        let position = s.pending[s.cursor - 1];
        let name = node_name(nodes, ctx, position);
        &&& s.cursor > 0
        &&& is_ready(nodes[position as int], ctx, s.processed)
        &&& docs.dom().contains(name)
        &&& docs[name] == outcome
    }
}

pub proof fn lemma_affected_same(
    node: Node,
    names: Map<Seq<char>, Seq<char>>,
    before: WaveView,
    after: WaveView,
    n: nat,
)
    requires
        n <= node.deps@.len(),
        forall|d: int|
            0 <= d < node.deps@.len() && counts(node, #[trigger] node.deps@[d]) ==> change_of(
                before,
                names[node.deps@[d].pkg@],
            ) == change_of(after, names[node.deps@[d].pkg@]),
    ensures
        affected_deps(node, names, before, n) == affected_deps(node, names, after, n),
    decreases n,
{
    if n > 0 {
        lemma_affected_same(node, names, before, after, (n - 1) as nat);
        assert(counts(node, node.deps@[n - 1]) ==> change_of(
            before,
            names[node.deps@[n - 1].pkg@],
        ) == change_of(after, names[node.deps@[n - 1].pkg@]));
    }
}

/// Once its dependencies in the workspace are processed, the crates that affect
/// a member stay the same, whatever becomes of another crate `name`.
proof fn lemma_affected_stays(
    s: SweepView,
    nodes: Seq<Node>,
    ctx: WorkspaceContext,
    j: int,
    name: Seq<char>,
    bump: CrateBumpView,
    failed: Set<Seq<char>>,
    at: int,
)
    requires
        has_own_names(nodes, ctx),
        0 <= j < nodes.len(),
        ctx.workspace_members@.contains(nodes[j].id@),
        is_ready(nodes[j], ctx, s.processed),
        0 <= at < nodes.len(),
        ctx.workspace_members@.contains(nodes[at].id@),
        name == ctx.names()[nodes[at].id@],
        !s.processed.contains(name),
    ensures
        affected(nodes[j], ctx, s.reach.wave()) == affected(
            nodes[j],
            ctx,
            passed(ReachView { failed, ..s.reach }, name, bump).wave(),
        ),
{
    let after = passed(ReachView { failed, ..s.reach }, name, bump).wave();
    let node = nodes[j];
    assert forall|d: int|
        0 <= d < node.deps@.len() && counts(node, #[trigger] node.deps@[d]) implies change_of(
        s.reach.wave(),
        ctx.names()[node.deps@[d].pkg@],
    ) == change_of(after, ctx.names()[node.deps@[d].pkg@]) by {
        let pkg = node.deps@[d].pkg@;
        if ctx.workspace_members@.contains(pkg) {
            assert(s.processed.contains(ctx.names()[pkg]));
        } else {
            assert(counts(nodes[j], nodes[j].deps@[d]));
            assert(ctx.names()[pkg] != ctx.names()[nodes[at].id@]);
        }
    }
    lemma_affected_same(node, ctx.names(), s.reach.wave(), after, node.deps@.len());
}

/// What an evaluation says of a crate that the wave has not reached, or that is
/// a seed, explains what becomes of it.
proof fn lemma_evaluation_explains(
    node: Node,
    ctx: WorkspaceContext,
    reach: ReachView,
    cli: Cli,
    rustdoc: Option<RustdocOutcome>,
    docs: Map<Seq<char>, RustdocOutcome>,
    seeds: Set<Seq<char>>,
    bump: CrateBumpView,
    failed: Set<Seq<char>>,
)
    requires
        evaluation(node, ctx, reach.wave(), cli, rustdoc).0 == EvaluationView::Done(bump),
        ({
            let name = ctx.names()[node.id@];
            let after = passed(ReachView { failed, ..reach }, name, bump).wave();
            &&& rustdoc matches Some(outcome) ==> docs.dom().contains(name) && docs[name]
                == outcome
            &&& !seeds.contains(name) ==> change_of(reach.wave(), name) is None
            &&& affected(node, ctx, after) == affected(node, ctx, reach.wave())
        }),
    ensures
        ({
            let name = ctx.names()[node.id@];
            is_explained(
                node,
                ctx,
                passed(ReachView { failed, ..reach }, name, bump).wave(),
                docs,
                seeds,
            )
        }),
{
    let name = ctx.names()[node.id@];
    let wave = reach.wave();
    let deps = affected(node, ctx, wave);
    let after = passed(ReachView { failed, ..reach }, name, bump).wave();
    law_affected_deps_are_reached(node, ctx, wave);
    match pre_check(node, ctx, wave, cli.tree, cli.include_binaries) {
        PreCheckView::NeedsRustdoc { .. } => {
            let outcome = rustdoc->0;
            let version = ctx.version(name);
            match outcome {
                RustdocOutcome::Built(json) => {
                    let document = rustdoc_document(json@)->0;
                    let leaked = leaked_deps(
                        document,
                        relevant_crates(document.external_crates, deps),
                    );
                    law_change_is_worst_leaked(
                        name,
                        leaked,
                        deps,
                        version,
                        cli.verbose,
                        deps.len(),
                    );
                    assert forall|i: int|
                        0 <= i < deps.len() && #[trigger] hands_on(
                            deps,
                            outcome,
                            i,
                        ) implies reached_with(after, name, deps[i].change) by {
                        assert(is_leaked(leaked, deps, i));
                        assert(change_of(wave, deps[i].name) == Some(deps[i].change));
                    }
                    if bump.change != ChangeKind::Patch {
                        let i = choose|i: int|
                            0 <= i < deps.len() && #[trigger] is_leaked(leaked, deps, i)
                                && deps[i].change == bump.change;
                        assert(hands_on(deps, outcome, i));
                        assert(change_of(wave, deps[i].name) == Some(deps[i].change));
                    }
                },
                RustdocOutcome::Failed(_) => {
                    lemma_worst_of(deps);
                    assert forall|i: int|
                        0 <= i < deps.len() && #[trigger] hands_on(
                            deps,
                            outcome,
                            i,
                        ) implies reached_with(after, name, deps[i].change) by {
                        assert(change_of(wave, deps[i].name) == Some(deps[i].change));
                        assert(deps[i].change.rank() <= worst_of(deps).rank());
                    }
                    let i = choose|i: int|
                        0 <= i < deps.len() && (#[trigger] deps[i]).change == worst_of(deps);
                    assert(hands_on(deps, outcome, i));
                    assert(change_of(wave, deps[i].name) == Some(deps[i].change));
                },
            }
        },
        _ => {},
    }
}

/// Where the sweeps stop for the documentation of a crate, they stand before this
/// crate, and it is ready. So the sweeps can go on once its outcome is there.
pub proof fn law_build_stop_awaits_the_outcome(
    s: SweepView,
    nodes: Seq<Node>,
    ctx: WorkspaceContext,
    cli: Cli,
    rustdoc: Option<RustdocOutcome>,
)
    requires
        s.cursor <= s.pending.len(),
    ensures
        ({
            let (end, step, _) = advance(s, nodes, ctx, cli, rustdoc);
            step matches RunStepView::Build(name, _) ==> {
                &&& 0 < end.cursor <= end.pending.len()
                &&& is_ready(
                    nodes[end.pending[end.cursor - 1] as int],
                    ctx,
                    end.processed,
                )
                &&& node_name(nodes, ctx, end.pending[end.cursor - 1]) == name
            }
        }),
    decreases
            s.pending.len(),
            if s.made_progress {
                1int
            } else {
                0
            },
            s.cursor,
{
    if s.cursor == 0 {
        if s.pending.len() > 0 && s.made_progress {
            let next = SweepView { cursor: s.pending.len(), made_progress: false, ..s };
            law_build_stop_awaits_the_outcome(next, nodes, ctx, cli, rustdoc);
        }
    } else {
        let at = s.cursor - 1;
        let position = s.pending[at];
        let node = nodes[position as int];
        if !is_ready(node, ctx, s.processed) {
            let next = SweepView { cursor: at as nat, ..s };
            law_build_stop_awaits_the_outcome(next, nodes, ctx, cli, rustdoc);
        } else {
            let (result, failed, _) = evaluation(node, ctx, s.reach.wave(), cli, rustdoc);
            if let EvaluationView::Done(bump) = result {
                let next = s.after(node_name(nodes, ctx, position), bump, failed);
                law_build_stop_awaits_the_outcome(next, nodes, ctx, cli, None);
            }
        }
    }
}

/// The wave is complete and sound: with the documentation in `docs`, every change
/// that a processed crate hands on has reached it, and, but for the seeds, every
/// crate that the wave has reached hands such a change on. No dependency outside
/// the workspace may have the name of a member. Where the sweeps stop for the
/// documentation of a crate, what is in `docs` for it is what they wait for, so
/// that the same holds after the next call.
pub proof fn law_wave_follows_the_docs(
    s: SweepView,
    nodes: Seq<Node>,
    ctx: WorkspaceContext,
    cli: Cli,
    rustdoc: Option<RustdocOutcome>,
    docs: Map<Seq<char>, RustdocOutcome>,
    seeds: Set<Seq<char>>,
)
    requires
        nodes.len() <= usize::MAX,
        has_own_names(nodes, ctx),
        in_order(s, nodes, ctx),
        reached_once(s, nodes, ctx, seeds),
        all_explained(s, nodes, ctx, docs, seeds),
        answers(s, nodes, ctx, rustdoc, docs),
    ensures
        ({
            let (end, step, _) = advance(s, nodes, ctx, cli, rustdoc);
            &&& in_order(end, nodes, ctx)
            &&& reached_once(end, nodes, ctx, seeds)
            &&& all_explained(end, nodes, ctx, docs, seeds)
            &&& step matches RunStepView::Build(name, _) ==> docs.dom().contains(name) ==> answers(
                end,
                nodes,
                ctx,
                Some(docs[name]),
                docs,
            )
        }),
    decreases
            s.pending.len(),
            if s.made_progress {
                1int
            } else {
                0
            },
            s.cursor,
{
    if s.cursor == 0 {
        if s.pending.len() > 0 && s.made_progress {
            let next = SweepView { cursor: s.pending.len(), made_progress: false, ..s };
            law_wave_follows_the_docs(next, nodes, ctx, cli, rustdoc, docs, seeds);
        }
    } else {
        let at = s.cursor - 1;
        let position = s.pending[at];
        let node = nodes[position as int];
        if !is_ready(node, ctx, s.processed) {
            let next = SweepView { cursor: at as nat, ..s };
            law_wave_follows_the_docs(next, nodes, ctx, cli, rustdoc, docs, seeds);
        } else {
            let (result, failed, _) = evaluation(node, ctx, s.reach.wave(), cli, rustdoc);
            if let EvaluationView::Done(bump) = result {
                let name = node_name(nodes, ctx, position);
                let next = s.after(name, bump, failed);
                lemma_after_in_order(s, nodes, ctx, bump, failed);
                lemma_reached_once_after(s, nodes, ctx, bump, failed, seeds);
                lemma_explained_after(s, nodes, ctx, cli, rustdoc, docs, seeds, bump, failed);
                law_wave_follows_the_docs(next, nodes, ctx, cli, None, docs, seeds);
            }
        }
    }
}

proof fn lemma_explained_after(
    s: SweepView,
    nodes: Seq<Node>,
    ctx: WorkspaceContext,
    cli: Cli,
    rustdoc: Option<RustdocOutcome>,
    docs: Map<Seq<char>, RustdocOutcome>,
    seeds: Set<Seq<char>>,
    bump: CrateBumpView,
    failed: Set<Seq<char>>,
)
    requires
        nodes.len() <= usize::MAX,
        has_own_names(nodes, ctx),
        in_order(s, nodes, ctx),
        reached_once(s, nodes, ctx, seeds),
        all_explained(s, nodes, ctx, docs, seeds),
        answers(s, nodes, ctx, rustdoc, docs),
        s.cursor > 0,
        is_ready(nodes[s.pending[s.cursor - 1] as int], ctx, s.processed),
        evaluation(
            nodes[s.pending[s.cursor - 1] as int],
            ctx,
            s.reach.wave(),
            cli,
            rustdoc,
        ).0 == EvaluationView::Done(bump),
    ensures
        all_explained(
            s.after(node_name(nodes, ctx, s.pending[s.cursor - 1]), bump, failed),
            nodes,
            ctx,
            docs,
            seeds,
        ),
{
    let at = s.cursor - 1;
    let position = s.pending[at];
    let here = position as int;
    let name = node_name(nodes, ctx, position);
    let next = s.after(name, bump, failed);
    let names = pending_names(s.pending, nodes, ctx);
    assert(names[at] == name);
    assert(!s.processed.contains(name));
    assert(ctx.workspace_members@.contains(nodes[s.pending[at] as int].id@));
    assert forall|j: int|
        0 <= j < nodes.len() && ctx.workspace_members@.contains((#[trigger] nodes[j]).id@)
            && !next.pending.contains(j as usize) implies is_explained(
        nodes[j],
        ctx,
        next.reach.wave(),
        docs,
        seeds,
    ) by {
        if j == here {
            lemma_affected_stays(s, nodes, ctx, j, name, bump, failed, here);
            assert(seeds.contains(name) || reached_in_one_way(s.reach, s.processed, name));
            lemma_evaluation_explains(
                nodes[j],
                ctx,
                s.reach,
                cli,
                rustdoc,
                docs,
                seeds,
                bump,
                failed,
            );
        } else {
            if s.pending.contains(j as usize) {
                let k = choose|k: int| 0 <= k < s.pending.len() && s.pending[k] == j as usize;
                if k < at {
                    assert(next.pending[k] == j as usize);
                } else {
                    assert(next.pending[k - 1] == j as usize);
                }
            }
            lemma_affected_stays(s, nodes, ctx, j, name, bump, failed, here);
            let other = node_name(nodes, ctx, j as usize);
            assert(s.processed.contains(other));
            assert(change_of(next.reach.wave(), other) == change_of(s.reach.wave(), other));
            assert(is_explained(nodes[j], ctx, s.reach.wave(), docs, seeds));
        }
    }
}

/// Before the first sweep every member is pending, so there is nothing to
/// explain.
pub proof fn law_first_sweep_is_explained(
    seeds: SeedsView,
    nodes: Seq<Node>,
    ctx: WorkspaceContext,
    docs: Map<Seq<char>, RustdocOutcome>,
)
    requires
        nodes.len() <= usize::MAX,
    ensures
        all_explained(first_sweep(seeds, nodes, ctx), nodes, ctx, docs, seeds.all),
{
    lemma_members_found(nodes, ctx, nodes.len());
}

} // verus!
