//! Laws of views: what is said of a value is what its fields hold.
use vstd::prelude::*;

use crate::display::influence;
use crate::evaluate::{
    evaluation_view, pre_check_view, AffectedDep, CrateBump, CrateEvaluation, DepInfluence,
    EvaluateError, EvaluationView, PreCheckResult, PreCheckView, WaveState,
};
use crate::leak::{leak_views, LeakDetail};
use crate::manifest::{TomlValue, TomlView};
use crate::propagate::{
    step_view, Build, PropagateError, Propagation, PropagationResult, StepView, WaveCheck,
};
use crate::report::event::{Event, EventView, TreeNode};
use crate::report::lists::BumpLists;
use crate::report::stream::Output;
use crate::run::{
    pending_names, tells, Run, RunError, RunErrorView, RunStep, RunStepView, Seeds, SweepView,
};
use crate::rustdoc::name_texts;
use crate::seeds::{
    changes_view, lookup_result, manifest_views, package_result, text_map, version_result,
    ManifestError, PackageLookup, PackageLookupView, RequirementError, VersionChanges,
    WorkspaceError, WorkspaceLookup, WorkspaceLookupView,
};
use crate::semver::{Version, VersionView};
use crate::text::texts;
use crate::types::{MissingBumpItem, TreeEdge, UnderBumpedItem};
use crate::workspace::{Node, WorkspaceContext};

verus! {

/// A crate with too small a bump, one without a bump, an edge and a node of the tree
/// say what they hold, each under its own name.
pub proof fn law_items_say_what_they_hold(
    under: UnderBumpedItem,
    missing: MissingBumpItem,
    edge: TreeEdge,
    node: TreeNode,
)
    ensures
        under.deep_view().name == under.name@,
        under.deep_view().required == under.required,
        under.deep_view().local == under.local,
        missing.deep_view().name == missing.name@,
        missing.deep_view().required == missing.required,
        edge.deep_view().child == edge.child@,
        edge.deep_view().bump == edge.bump,
        node.deep_view().depth == node.depth,
        node.deep_view().is_last_sibling == node.is_last_sibling,
        node.deep_view().name == node.name@,
        node.deep_view().kind == node.kind,
{
}

/// A version says its numbers and its text, an output its stream and its text.
pub proof fn law_version_and_output_say_what_they_hold(version: Version, output: Output)
    ensures
        version@.major == version.major,
        version@.minor == version.minor,
        version@.patch == version.patch,
        version@.text == version.text@,
        output@.channel == output.channel,
        output@.text == output.text@,
{
}

/// A TOML value says its text, its truth value, or each entry of its table.
pub proof fn law_toml_value_says_what_it_holds(value: TomlValue)
    ensures
        match value {
            TomlValue::Text(text) => value@ == TomlView::Text(text@),
            TomlValue::Flag(flag) => value@ == TomlView::Flag(flag),
            TomlValue::Table(entries) => value@ matches TomlView::Table(said) && said.len()
                == entries@.len() && (forall|i: int|
                0 <= i < entries@.len() ==> (#[trigger] said[i]).0 == entries@[i].key@ && said[i].1
                    == entries@[i].value@),
            TomlValue::Other => value@ is Other,
        },
{
    if let TomlValue::Table(entries) = value {
        if let TomlView::Table(said) = value@ {
            assert forall|i: int| 0 <= i < entries@.len() implies (#[trigger] said[i]).0
                == entries@[i].key@ && said[i].1 == entries@[i].value@ by {
                assert(entries@[i].value@ == entries@[i].value.tree());
            }
        }
    }
}

/// The states of an analysis say what they hold, each set under its own name.
pub proof fn law_states_say_what_they_hold(
    wave: WaveState,
    result: PropagationResult,
    lists: BumpLists,
    seeds: Seeds,
    changes: VersionChanges,
    events: Seq<EventView>,
)
    ensures
        wave@.breaking == wave.breaking_crates@,
        wave@.additive == wave.additive_crates@,
        wave@.failed == wave.failed@,
        result@.breaking == result.state.breaking_crates@,
        result@.additive == result.state.additive_crates@,
        result@.failed == result.state.failed@,
        result@.patch == result.patch_crates@,
        result@.edges == influence(result.tree_edges@),
        lists@.major == lists.major@,
        lists@.minor == lists.minor@,
        lists@.patch == lists.patch@,
        seeds@.all == seeds.all_seeds@,
        seeds@.wave == seeds.state@,
        seeds@.bumps == seeds.local_bumps@,
        seeds@.new_crates == seeds.new_crates@,
        seeds@.is_direct == seeds.is_direct,
        changes_view(changes, events).breaking == changes.breaking_seeds@,
        changes_view(changes, events).additive == changes.additive_seeds@,
        changes_view(changes, events).bumps == changes.local_bumps@,
        changes_view(changes, events).new_crates == changes.new_crates@,
        changes_view(changes, events).events == events,
{
}

/// The edges that leave a crate are said one by one.
pub proof fn law_edges_are_said_one_by_one(
    edges: Map<Seq<char>, Vec<TreeEdge>>,
    name: Seq<char>,
    i: int,
)
    ensures
        influence(edges).dom().contains(name) <==> edges.dom().contains(name),
        edges.dom().contains(name) ==> influence(edges)[name].len() == edges[name]@.len(),
        edges.dom().contains(name) && 0 <= i < edges[name]@.len() ==> influence(edges)[name][i]
            == edges[name]@[i].deep_view(),
{
}

/// What becomes of a crate says the change, the bump and each influence; an affected
/// dependency its name and its change; a leak the item and the types.
pub proof fn law_findings_say_what_they_hold(
    bump: CrateBump,
    influence: DepInfluence,
    dep: AffectedDep,
    leak: LeakDetail,
    build: Build,
)
    ensures
        bump@.change == bump.change,
        bump@.bump == bump.bump,
        bump@.influences.len() == bump.influences@.len(),
        forall|i: int|
            0 <= i < bump.influences@.len() ==> #[trigger] bump@.influences[i]
                == bump.influences@[i].deep_view(),
        influence.deep_view().dep == influence.dep_name@,
        influence.deep_view().bump == influence.bump,
        dep.deep_view().name == dep.name@,
        dep.deep_view().change == dep.change,
        leak.deep_view().item_name == leak.item_name@,
        leak.deep_view().item_kind == leak.item_kind@,
        leak.deep_view().leaked_types == leak.leaked_types@,
        build.deep_view().0 == build.name@,
        build.deep_view().1 == build.manifest@,
{
}

/// A propagation and a run say where they stand.
pub proof fn law_courses_say_where_they_stand(p: Propagation, run: Run, check: WaveCheck)
    ensures
        p@.pending == p.pending@,
        p@.processed == p.processed@,
        p@.reach == p.result@,
        p@.checks.len() == p.checks@.len(),
        forall|i: int|
            0 <= i < p.checks@.len() ==> #[trigger] p@.checks[i] == p.checks@[i].deep_view(),
        check.deep_view().position == check.position,
        run@.pending == run.pending@,
        run@.cursor == run.cursor,
        run@.made_progress == run.made_progress,
        run@.processed == run.processed@,
        run@.reach == run.result@,
{
}

/// An error says what kind it is and which crates it is about.
pub proof fn law_error_says_its_crates(e: RunError)
    ensures
        match e {
            RunError::NoResolveGraph => e@ is NoResolveGraph,
            RunError::UnknownCrates(names) => e@ == RunErrorView::UnknownCrates(texts(names@)),
            RunError::NoManifestPath(name) => e@ == RunErrorView::NoManifestPath(name@),
            RunError::UnreadableDocs(name) => e@ == RunErrorView::UnreadableDocs(name@),
            RunError::Stuck(names) => e@ == RunErrorView::Stuck(texts(names@)),
            RunError::BumpErrors => e@ is BumpErrors,
        },
{
}

/// An event says what it holds, each part under its own name.
pub proof fn law_event_says_what_it_holds(event: Event)
    ensures
        match event {
            Event::DirectModeBanner { seeds } => event@ matches EventView::DirectModeBanner {
                seeds: said,
            } && said == seeds@,
            Event::ComparingRefs { source, target } => event@ matches EventView::ComparingRefs {
                source: from,
                target: to,
            } && from == source@ && to == target@,
            Event::NoChangesDetected => event@ is NoChangesDetected,
            Event::DetectedChangesHeader => event@ is DetectedChangesHeader,
            Event::DepVersionChanged { name, old, new, kind } => event@ matches
                EventView::DepVersionChanged { name: said, old: from, new: to, kind: change }
                && said == name@ && from == old@ && to == new@ && change == kind,
            Event::LocalPackageBump { name, old, new, kind, source } => event@ matches
                EventView::LocalPackageBump {
                name: said,
                old: from,
                new: to,
                kind: change,
                source: by,
            } && said == name@ && from == old@ && to == new@ && change == kind && by == source,
            Event::NewCrate { name } => event@ matches EventView::NewCrate { name: said } && said
                == name@,
            Event::RemovedCrate { name } => event@ matches EventView::RemovedCrate { name: said }
                && said == name@,
            Event::GlobMemberSkipped { member } => event@ matches EventView::GlobMemberSkipped {
                member: said,
            } && said == member@,
            Event::BreakingSeeds { names } => event@ matches EventView::BreakingSeeds {
                names: said,
            } && said == names@,
            Event::AdditiveSeeds { names } => event@ matches EventView::AdditiveSeeds {
                names: said,
            } && said == names@,
            Event::AnalyzingCrate { name, deps } => event@ matches EventView::AnalyzingCrate {
                name: said,
                deps: list,
            } && said == name@ && list == texts(deps@),
            Event::BinaryCrateSkipped { name } => event@ matches EventView::BinaryCrateSkipped {
                name: said,
            } && said == name@,
            Event::LeakDetected { crate_name, dep, bump, details } => event@ matches
                EventView::LeakDetected { crate_name: said, dep: of, bump: by, details: list }
                && said == crate_name@ && of == dep@ && by == bump && list == details.deep_view(),
            Event::RustdocFailed { crate_name, error, conservative_bump } => event@ matches
                EventView::RustdocFailed { crate_name: said, error: why, conservative_bump: by }
                && said == crate_name@ && why == error@ && by == conservative_bump,
            Event::InfluenceTreeHeader => event@ is InfluenceTreeHeader,
            Event::InfluenceTree { nodes } => event@ matches EventView::InfluenceTree {
                nodes: said,
            } && said == nodes.deep_view(),
            Event::AnalysisCompleteHeader => event@ is AnalysisCompleteHeader,
            Event::BumpList { level, names } => event@ matches EventView::BumpList {
                level: at,
                names: said,
            } && at == level && said == names@,
            Event::FailedRustdocSummary { names } => event@ matches
                EventView::FailedRustdocSummary { names: said } && said == names@,
            Event::UnderBumped { items } => event@ matches EventView::UnderBumped { items: said }
                && said == items.deep_view(),
            Event::MissingBumps { items } => event@ matches EventView::MissingBumps { items: said }
                && said == items.deep_view(),
        },
{
}

/// The outcome of a look for a version says the version that was found, the manifest
/// to read next, or the error.
pub proof fn law_lookups_say_what_they_found(
    found: Result<PackageLookup, ManifestError>,
    above: Result<WorkspaceLookup, WorkspaceError>,
    required: Result<Version, RequirementError>,
)
    ensures
        match found {
            Ok(PackageLookup::Found { name, version }) => package_result(found) matches Ok(
                PackageLookupView::Found { name: said, version: told },
            ) && said == name@ && told == version@,
            Ok(PackageLookup::Read { path }) => package_result(found) matches Ok(
                PackageLookupView::Read { path: said },
            ) && said == path@,
            Err(e) => package_result(found) == Err::<PackageLookupView, ManifestError>(e),
        },
        match above {
            Ok(WorkspaceLookup::Found(version)) => lookup_result(above) == Ok::<
                WorkspaceLookupView,
                WorkspaceError,
            >(WorkspaceLookupView::Found(version@)),
            Ok(WorkspaceLookup::Read(path)) => lookup_result(above) == Ok::<
                WorkspaceLookupView,
                WorkspaceError,
            >(WorkspaceLookupView::Read(path@)),
            Err(e) => lookup_result(above) == Err::<WorkspaceLookupView, WorkspaceError>(e),
        },
        match required {
            Ok(version) => version_result(required) == Ok::<VersionView, RequirementError>(
                version@,
            ),
            Err(e) => version_result(required) == Err::<VersionView, RequirementError>(e),
        },
{
}

/// The outcome of a check and that of an evaluation say what becomes of the crate, what
/// is needed, or the error.
pub proof fn law_evaluations_say_where_they_stand(
    check: Result<PreCheckResult, EvaluateError>,
    evaluation: Result<CrateEvaluation, EvaluateError>,
)
    ensures
        match check {
            Ok(PreCheckResult::EarlyReturn(bump)) => pre_check_view(check)
                == PreCheckView::EarlyReturn(bump@),
            Ok(PreCheckResult::NeedsRustdoc { manifest, affected_deps }) => pre_check_view(
                check,
            ) matches PreCheckView::NeedsRustdoc { manifest: said, deps } && said == manifest@
                && deps == affected_deps.deep_view(),
            Err(e) => pre_check_view(check) == PreCheckView::Failed(e),
        },
        match evaluation {
            Ok(CrateEvaluation::Done(bump)) => evaluation_view(evaluation) == EvaluationView::Done(
                bump@,
            ),
            Ok(CrateEvaluation::NeedsRustdoc(manifest)) => evaluation_view(evaluation)
                == EvaluationView::NeedsRustdoc(manifest@),
            Err(e) => evaluation_view(evaluation) == EvaluationView::Failed(e),
        },
{
}

/// The outcome of a step of a wave says which documentation is needed or why the wave
/// stops, and that of a step of a run likewise.
pub proof fn law_steps_say_where_they_stop(
    step: Result<Vec<Build>, PropagateError>,
    end: SweepView,
    nodes: Seq<Node>,
    ctx: WorkspaceContext,
    name: Seq<char>,
    manifest: Seq<char>,
    build: Build,
    e: RunError,
)
    ensures
        match step {
            Ok(builds) => step_view(step) matches StepView::Build(said) && said.len()
                == builds@.len() && (forall|i: int|
                0 <= i < builds@.len() ==> #[trigger] said[i] == builds@[i].deep_view()),
            Err(PropagateError::MissingRustdoc(of)) => step_view(step) == StepView::MissingRustdoc(
                of@,
            ),
            Err(PropagateError::UnreadableDocs(of)) => step_view(step) == StepView::UnreadableDocs(
                of@,
            ),
            Err(PropagateError::NoManifestPath(of)) => step_view(step) == StepView::NoManifestPath(
                of@,
            ),
            Err(PropagateError::NothingReady) => step_view(step) is NothingReady,
        },
        tells(Ok(RunStep::Build(build)), RunStepView::Build(name, manifest), end, nodes, ctx)
            <==> build.name@ == name && build.manifest@ == manifest,
        tells(Ok(RunStep::Finished), RunStepView::Finished, end, nodes, ctx),
        !tells(Ok(RunStep::Finished), RunStepView::Build(name, manifest), end, nodes, ctx),
        !tells(Ok(RunStep::Finished), RunStepView::Stuck, end, nodes, ctx),
        !tells(Err(e), RunStepView::Finished, end, nodes, ctx),
        tells(Err(e), RunStepView::NoManifestPath(name), end, nodes, ctx) <==> e@
            == RunErrorView::NoManifestPath(name),
        tells(Err(e), RunStepView::UnreadableDocs(name), end, nodes, ctx) <==> e@
            == RunErrorView::UnreadableDocs(name),
        tells(Err(e), RunStepView::Stuck, end, nodes, ctx) <==> e@ == RunErrorView::Stuck(
            Seq::new(
                end.pending.len(),
                |k: int| ctx.names()[nodes[end.pending[k] as int].id@],
            ),
        ),
{
    assert(pending_names(end.pending, nodes, ctx) =~= Seq::new(
        end.pending.len(),
        |k: int| ctx.names()[nodes[end.pending[k] as int].id@],
    ));
}

/// Requirements, manifests and leaks are said one by one, under their names.
pub proof fn law_tables_are_said_one_by_one(
    versions: Map<Seq<char>, String>,
    manifests: Seq<Option<TomlValue>>,
    leaks: Map<Seq<char>, Vec<LeakDetail>>,
    names: Map<u32, String>,
    name: Seq<char>,
    id: u32,
    i: int,
)
    ensures
        text_map(versions).dom().contains(name) <==> versions.dom().contains(name),
        versions.dom().contains(name) ==> text_map(versions)[name] == versions[name]@,
        manifest_views(manifests).len() == manifests.len(),
        0 <= i < manifests.len() ==> match manifests[i] {
            Some(doc) => manifest_views(manifests)[i] == Some(doc@),
            None => manifest_views(manifests)[i] is None,
        },
        leak_views(leaks).dom().contains(name) <==> leaks.dom().contains(name),
        leaks.dom().contains(name) ==> leak_views(leaks)[name].len() == leaks[name]@.len(),
        leaks.dom().contains(name) && 0 <= i < leaks[name]@.len() ==> leak_views(leaks)[name][i]
            == leaks[name]@[i].deep_view(),
        name_texts(names).dom().contains(id) <==> names.dom().contains(id),
        names.dom().contains(id) ==> name_texts(names)[id] == names[id]@,
{
}

} // verus!
