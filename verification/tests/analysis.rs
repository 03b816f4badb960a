use std::collections::HashMap;

use rustdoc_types as rd;
use semwave::cli::Cli;
use semwave::evaluate::{
    analyze_rustdoc, conservative_fallback, evaluate_affected_deps, evaluate_crate_bump,
    pre_check_crate, AffectedDep, CrateEvaluation, EvaluateError, PreCheckResult, RustdocOutcome,
    WaveState, WorkspaceContext,
};
use semwave::names::{NameMap, NameSet};
use semwave::propagate::{
    check_consistent, record_influences, Propagation, PropagateError, PropagationResult,
};
use semwave::report::lists::compute_lists;
use semwave::report::{print_results, validate_bumps, BumpLists, Event, EventLog};
use semwave::run::{
    begin, conclude, find_unknown, run, take_seeds, Run, RunError, RunStep, Seeds,
};
use semwave::seeds::VersionChanges;
use semwave::semver::{Bump, ChangeKind, Version};
use semwave::types::CrateName;
use semwave::workspace::{DependencyKind, Metadata, Node, NodeDep, Package, Target};

fn cli() -> Cli {
    Cli {
        source: "main".to_string(),
        target: "HEAD".to_string(),
        direct: None,
        no_color: true,
        verbose: false,
        tree: false,
        rustdoc_stderr: false,
        toolchain: "nightly".to_string(),
        include_binaries: false,
    }
}

fn set(names: &[&str]) -> NameSet {
    NameSet::from_list(&texts(names))
}

fn texts(names: &[&str]) -> Vec<String> {
    names.iter().map(|s| s.to_string()).collect()
}

fn id(name: &str) -> String {
    format!("path+file:///{}", name)
}

fn package(name: &str, version: &str, lib: bool) -> Package {
    Package {
        id: id(name),
        name: name.to_string(),
        version: Version::parse(version).unwrap(),
        manifest_path: format!("/{}/Cargo.toml", name),
        targets: vec![Target { is_lib: lib, is_proc_macro: false }],
    }
}

fn dep(name: &str) -> NodeDep {
    NodeDep { pkg: id(name), dep_kinds: vec![DependencyKind::Normal] }
}

fn node(name: &str, deps: &[&str]) -> Node {
    Node { id: id(name), deps: deps.iter().map(|d| dep(d)).collect() }
}

/// `ext` is outside the workspace; `core` depends on it, `mid` on `core`, `top`
/// on `mid` and `core`, and `bin` on `top`.
fn metadata() -> Metadata {
    Metadata {
        packages: vec![
            package("ext", "1.0.0", true),
            package("core", "1.2.0", true),
            package("mid", "0.3.0", true),
            package("top", "2.0.0", true),
            package("bin", "0.1.0", false),
        ],
        workspace_members: vec![id("core"), id("mid"), id("top"), id("bin")],
        resolve: Some(vec![
            node("bin", &["top"]),
            node("core", &["ext"]),
            node("ext", &[]),
            node("mid", &["core"]),
            node("top", &["mid", "core"]),
        ]),
    }
}

fn state(breaking: &[&str], additive: &[&str]) -> WaveState {
    WaveState {
        breaking_crates: set(breaking),
        additive_crates: set(additive),
        failed: NameSet::new(),
    }
}

/// The documentation of a crate that exposes one type of each of `exposed`.
fn docs(exposed: &[&str]) -> String {
    let mut paths = HashMap::new();
    let mut index = HashMap::new();
    let mut external_crates = HashMap::new();
    for (i, name) in exposed.iter().enumerate() {
        let crate_id = i as u32 + 1;
        let type_id = rd::Id(100 + crate_id);
        external_crates.insert(
            crate_id,
            rd::ExternalCrate {
                name: name.to_string(),
                html_root_url: None,
                path: "/lib.rlib".into(),
            },
        );
        paths.insert(
            type_id,
            rd::ItemSummary {
                crate_id,
                path: vec![name.to_string(), "Type".to_string()],
                kind: rd::ItemKind::Struct,
            },
        );
        let type_ =
            rd::Type::ResolvedPath(rd::Path { path: "Type".to_string(), id: type_id, args: None });
        let const_ = rd::Constant { expr: String::new(), value: None, is_literal: false };
        index.insert(
            rd::Id(crate_id),
            rd::Item {
                id: rd::Id(crate_id),
                crate_id: 0,
                name: Some(format!("item{}", crate_id)),
                span: None,
                visibility: rd::Visibility::Public,
                docs: None,
                links: HashMap::new(),
                attrs: vec![],
                deprecation: None,
                stability: None,
                const_stability: None,
                inner: rd::ItemEnum::Constant { type_, const_ },
            },
        );
    }
    let krate = rd::Crate {
        root: rd::Id(0),
        crate_version: None,
        includes_private: false,
        index,
        paths,
        external_crates,
        target: rd::Target { triple: String::new(), target_features: vec![] },
        format_version: rd::FORMAT_VERSION,
    };
    serde_json::to_string(&krate).unwrap()
}

fn affected(list: &[(&str, ChangeKind)]) -> Vec<AffectedDep> {
    list.iter()
        .map(|(name, change)| AffectedDep { name: CrateName::from(*name), change: *change })
        .collect()
}

#[test]
fn context_gathers_the_workspace() {
    let ctx = WorkspaceContext::new(&metadata());
    assert_eq!(ctx.pkg_names.get(&id("ext")).unwrap().as_str(), "ext");
    assert_eq!(ctx.pkg_manifest_paths.get("core").unwrap().as_str(), "/core/Cargo.toml");
    assert!(ctx.pkg_manifest_paths.get("ext").is_none());
    assert!(ctx.pkg_versions.get("ext").is_none());
    assert_eq!(ctx.pkg_versions.get("mid").unwrap().text, "0.3.0");
    assert_eq!(ctx.pkg_has_lib.names(), &texts(&["core", "mid", "top"]));
    assert!(check_consistent(&metadata().resolve.unwrap(), &ctx));
    let odd = vec![node("core", &["nowhere"])];
    assert!(!check_consistent(&odd, &ctx));
}

#[test]
fn affected_deps_are_normal_and_reached() {
    let ctx = WorkspaceContext::new(&metadata());
    let mut top = node("top", &["mid", "core", "top", "ext"]);
    top.deps[3].dep_kinds = vec![DependencyKind::Build];
    let found = evaluate_affected_deps(&top, &ctx, &state(&["core", "ext", "top"], &["mid", "core"]));
    assert_eq!(found.len(), 2);
    assert_eq!((found[0].name.as_str(), found[0].change), ("mid", ChangeKind::Additive));
    assert_eq!((found[1].name.as_str(), found[1].change), ("core", ChangeKind::Breaking));
    let stranger = node("stranger", &["core"]);
    assert_eq!(evaluate_affected_deps(&stranger, &ctx, &state(&["core"], &[])).len(), 1);
}

#[test]
fn crates_are_checked_before_their_docs() {
    let ctx = WorkspaceContext::new(&metadata());
    let mut log = EventLog::new();
    let early = |r: Result<PreCheckResult, EvaluateError>| match r {
        Ok(PreCheckResult::EarlyReturn(bump)) => bump,
        _ => panic!("no documentation is needed"),
    };
    let core = node("core", &["ext"]);
    let bump = early(pre_check_crate(&core, &ctx, &state(&[], &[]), &cli(), &mut log));
    assert_eq!(bump.change, ChangeKind::Unchanged);
    let bump = early(pre_check_crate(&core, &ctx, &state(&["core", "ext"], &[]), &cli(), &mut log));
    assert_eq!(bump.bump, Bump::Unchanged);
    let bin = node("bin", &["top"]);
    let bump = early(pre_check_crate(&bin, &ctx, &state(&["top"], &[]), &cli(), &mut log));
    assert_eq!(bump.change, ChangeKind::Unchanged);
    assert!(log.drain().is_empty());
    let with_bins = Cli { include_binaries: true, ..cli() };
    let bump = early(pre_check_crate(&bin, &ctx, &state(&["top"], &[]), &with_bins, &mut log));
    assert_eq!((bump.change, bump.bump), (ChangeKind::Patch, Bump::Patch));
    assert_eq!(bump.influences[0].dep_name.as_str(), "top");
    assert!(matches!(&log.drain()[0], Event::BinaryCrateSkipped { name } if name == "bin"));
    let tree = Cli { tree: true, ..cli() };
    match pre_check_crate(&core, &ctx, &state(&["core", "ext"], &[]), &tree, &mut log) {
        Ok(PreCheckResult::NeedsRustdoc { manifest, affected_deps }) => {
            assert_eq!(manifest.as_str(), "/core/Cargo.toml");
            assert_eq!(affected_deps.len(), 1);
        }
        _ => panic!("the documentation is needed"),
    }
    assert!(matches!(
        &log.drain()[0],
        Event::AnalyzingCrate { name, deps } if name == "core" && deps == &texts(&["ext"])
    ));
}

#[test]
fn leaked_dependencies_hand_their_change_on() {
    let version = Version::parse("1.0.0").unwrap();
    let deps = affected(&[
        ("a", ChangeKind::Additive),
        ("b-c", ChangeKind::Breaking),
        ("d", ChangeKind::Breaking),
    ]);
    let mut log = EventLog::new();
    let r = analyze_rustdoc("me", &docs(&["a", "b_c"]), &deps, Some(&version), true, &mut log)
        .unwrap();
    assert_eq!((r.change, r.bump), (ChangeKind::Breaking, Bump::Major));
    let influences: Vec<(&str, Bump)> =
        r.influences.iter().map(|i| (i.dep_name.as_str(), i.bump)).collect();
    assert_eq!(influences, vec![("a", Bump::Minor), ("b-c", Bump::Major), ("d", Bump::Patch)]);
    let events = log.drain();
    assert_eq!(events.len(), 2);
    match &events[1] {
        Event::LeakDetected { crate_name, dep, bump, details } => {
            assert_eq!((crate_name.as_str(), dep.as_str(), *bump), ("me", "b-c", Bump::Major));
            assert_eq!(details.len(), 1);
            assert_eq!(details[0].item_name, "item2");
            assert_eq!(details[0].leaked_types, texts(&["b_c::Type"]));
        }
        _ => panic!("a leak is reported"),
    }
}

#[test]
fn unleaked_dependencies_need_a_patch() {
    let deps = affected(&[("a", ChangeKind::Breaking)]);
    let mut log = EventLog::new();
    let r = analyze_rustdoc("me", &docs(&["other"]), &deps, None, false, &mut log).unwrap();
    assert_eq!((r.change, r.bump), (ChangeKind::Patch, Bump::Patch));
    assert!(log.drain().is_empty());
    let r = analyze_rustdoc("me", &docs(&["a"]), &deps, None, false, &mut log).unwrap();
    assert_eq!((r.change, r.bump), (ChangeKind::Breaking, Bump::Patch));
    assert_eq!(r.influences[0].bump, Bump::Minor);
    match &log.drain()[0] {
        Event::LeakDetected { details, .. } => assert!(details.is_empty()),
        _ => panic!("a leak is reported"),
    }
}

#[test]
fn missing_docs_mean_the_worst() {
    let version = Version::parse("0.4.0").unwrap();
    let mut log = EventLog::new();
    let deps = affected(&[("a", ChangeKind::Additive), ("b", ChangeKind::Breaking)]);
    let r = conservative_fallback("me", &deps, Some(&version), "no toolchain", &mut log);
    assert_eq!((r.change, r.bump), (ChangeKind::Breaking, Bump::Minor));
    assert_eq!(r.influences.len(), 2);
    assert!(r.influences.iter().all(|i| i.bump == Bump::Minor));
    assert!(matches!(
        &log.drain()[0],
        Event::RustdocFailed { crate_name, error, conservative_bump: Bump::Minor }
            if crate_name == "me" && error == "no toolchain"
    ));
    let deps = affected(&[("a", ChangeKind::Additive)]);
    let r = conservative_fallback("me", &deps, Some(&version), "", &mut log);
    assert_eq!((r.change, r.bump), (ChangeKind::Additive, Bump::Patch));
}

#[test]
fn evaluation_asks_for_docs_first() {
    let ctx = WorkspaceContext::new(&metadata());
    let core = node("core", &["ext"]);
    let mut wave = state(&["ext"], &[]);
    let mut log = EventLog::new();
    let first = evaluate_crate_bump(&core, &ctx, &mut wave, &cli(), None, &mut log);
    assert!(matches!(
        first,
        Ok(CrateEvaluation::NeedsRustdoc(path)) if path.as_str() == "/core/Cargo.toml"
    ));
    assert_eq!(log.drain().len(), 1);
    let failed = RustdocOutcome::Failed("boom".to_string());
    match evaluate_crate_bump(&core, &ctx, &mut wave, &cli(), Some(&failed), &mut log) {
        Ok(CrateEvaluation::Done(bump)) => assert_eq!(bump.bump, Bump::Major),
        _ => panic!("the crate is evaluated"),
    }
    assert!(wave.failed.contains("core"));
    assert_eq!(log.drain().len(), 1);
}

#[test]
fn crate_without_manifest_is_an_error() {
    let mut ctx = WorkspaceContext::new(&metadata());
    ctx.pkg_manifest_paths = NameMap::new();
    let mut log = EventLog::new();
    let core = node("core", &["ext"]);
    let r = evaluate_crate_bump(&core, &ctx, &mut state(&["ext"], &[]), &cli(), None, &mut log);
    assert!(matches!(r, Err(EvaluateError::NoManifestPath)));
}

#[test]
fn unreadable_docs_are_an_error() {
    let deps = affected(&[("ext", ChangeKind::Breaking)]);
    let mut log = EventLog::new();
    let r = analyze_rustdoc("me", "{", &deps, None, false, &mut log);
    assert!(matches!(r, Err(EvaluateError::UnreadableDocs)));
    let ctx = WorkspaceContext::new(&metadata());
    let core = node("core", &["ext"]);
    let broken = RustdocOutcome::Built("no docs".to_string());
    let mut wave = state(&["ext"], &[]);
    let r = evaluate_crate_bump(&core, &ctx, &mut wave, &cli(), Some(&broken), &mut log);
    assert!(matches!(r, Err(EvaluateError::UnreadableDocs)));
    assert!(wave.failed.is_empty());
    assert!(log.drain().is_empty());
    let fine = RustdocOutcome::Built(docs(&["ext"]));
    match evaluate_crate_bump(&core, &ctx, &mut wave, &cli(), Some(&fine), &mut log) {
        Ok(CrateEvaluation::Done(bump)) => assert_eq!(bump.change, ChangeKind::Breaking),
        _ => panic!("the crate is evaluated"),
    }
}

#[test]
fn unreadable_docs_end_the_run() {
    let (cli, seeds) = direct(&["ext"]);
    let ctx = WorkspaceContext::new(&metadata());
    let mut state = Run::start(seeds, metadata(), ctx).unwrap();
    let mut log = EventLog::new();
    match run(&mut state, &cli, None, &mut log) {
        Ok(RunStep::Build(build)) => assert_eq!(build.name.as_str(), "core"),
        _ => panic!("the documentation is needed"),
    }
    let broken = RustdocOutcome::Built("[]".to_string());
    match run(&mut state, &cli, Some(&broken), &mut log) {
        Err(e) => assert_eq!(e.message(), "Failed to parse rustdoc JSON for core"),
        Ok(_) => panic!("the documentation cannot be read"),
    }
    let fine = RustdocOutcome::Built(docs(&["ext"]));
    match run(&mut state, &cli, Some(&fine), &mut log) {
        Ok(RunStep::Build(build)) => assert_eq!(build.name.as_str(), "mid"),
        _ => panic!("the analysis goes on"),
    }
}

#[test]
fn influences_become_edges() {
    let mut log = EventLog::new();
    let r = conservative_fallback("x", &affected(&[("a", ChangeKind::Breaking)]), None, "", &mut log);
    let mut edges = NameMap::new();
    record_influences(&mut edges, &CrateName::from("x"), &r.influences);
    record_influences(&mut edges, &CrateName::from("y"), &r.influences);
    let from_a = edges.get("a").unwrap();
    assert_eq!(from_a.len(), 2);
    assert_eq!((from_a[1].child.as_str(), from_a[1].bump), ("y", Bump::Minor));
}

fn direct(names: &[&str]) -> (Cli, Seeds) {
    let cli = Cli { direct: Some(texts(names)), ..cli() };
    let mut log = EventLog::new();
    let seeds = begin(&cli, &mut log).unwrap();
    assert!(matches!(&log.drain()[0], Event::DirectModeBanner { .. }));
    (cli, seeds)
}

/// Run an analysis to its end; `exposes` lists what each crate exposes.
fn finish(
    seeds: Seeds,
    metadata: Metadata,
    cli: &Cli,
    exposes: &[(&str, &[&str])],
    log: &mut EventLog,
) -> (Run, Vec<String>) {
    let ctx = WorkspaceContext::new(&metadata);
    let mut state = Run::start(seeds, metadata, ctx).unwrap();
    let mut built = vec![];
    let mut outcome: Option<RustdocOutcome> = None;
    loop {
        match run(&mut state, cli, outcome.as_ref(), log).unwrap() {
            RunStep::Build(build) => {
                let name = build.name.as_str().to_string();
                let exposed = exposes.iter().find(|(n, _)| *n == name);
                outcome = Some(match exposed {
                    Some((_, list)) => RustdocOutcome::Built(docs(list)),
                    None => RustdocOutcome::Failed("no docs".to_string()),
                });
                built.push(name);
            }
            RunStep::Finished => return (state, built),
        }
    }
}

#[test]
fn analysis_begins_with_named_seeds_or_refs() {
    let (_, seeds) = direct(&["ext", "ext"]);
    assert!(seeds.is_direct);
    assert_eq!(seeds.all_seeds.names(), &texts(&["ext"]));
    assert!(seeds.state.breaking_crates.contains("ext"));
    let mut log = EventLog::new();
    assert!(begin(&cli(), &mut log).is_none());
    assert!(matches!(
        &log.drain()[0],
        Event::ComparingRefs { source, target } if source == "main" && target == "HEAD"
    ));
}

fn changes(breaking: &[&str], additive: &[&str]) -> VersionChanges {
    VersionChanges {
        breaking_seeds: set(breaking),
        additive_seeds: set(additive),
        local_bumps: NameMap::new(),
        new_crates: NameSet::new(),
    }
}

#[test]
fn seeds_are_taken_from_changes() {
    let mut log = EventLog::new();
    assert!(take_seeds(changes(&[], &[]), &mut log).is_none());
    assert!(matches!(&log.drain()[0], Event::NoChangesDetected));
    let seeds = take_seeds(changes(&["a"], &["b"]), &mut log).unwrap();
    assert_eq!(seeds.all_seeds.names(), &texts(&["a", "b"]));
    assert!(!seeds.is_direct);
    let events = log.drain();
    assert_eq!(events.len(), 2);
    assert!(matches!(&events[0], Event::BreakingSeeds { names } if names.contains("a")));
    assert!(matches!(&events[1], Event::AdditiveSeeds { names } if names.contains("b")));
    assert!(take_seeds(changes(&[], &["b"]), &mut log).is_some());
    assert_eq!(log.drain().len(), 1);
}

#[test]
fn analysis_needs_known_seeds_and_a_graph() {
    let (_, seeds) = direct(&["zeta", "ext", "alpha"]);
    let unknown = find_unknown(&seeds.all_seeds, &metadata().packages);
    assert_eq!(unknown.names(), &texts(&["alpha", "zeta"]));
    let ctx = WorkspaceContext::new(&metadata());
    match Run::start(seeds, metadata(), ctx) {
        Err(e) => {
            assert_eq!(e.message(), "Unknown crate(s) passed to --direct: alpha, zeta");
        }
        Ok(_) => panic!("the seeds are unknown"),
    }
    let mut unresolved = metadata();
    unresolved.resolve = None;
    let (_, seeds) = direct(&["nowhere"]);
    let ctx = WorkspaceContext::new(&unresolved);
    match Run::start(seeds, unresolved, ctx) {
        Err(RunError::NoResolveGraph) => {}
        _ => panic!("there is no graph"),
    }
}

#[test]
fn unknown_seeds_are_reported_before_the_graph_is_read() {
    let (_, seeds) = direct(&["nowhere"]);
    let mut data = metadata();
    data.resolve = Some(vec![node("core", &["stranger"])]);
    let ctx = WorkspaceContext::new(&data);
    assert!(!check_consistent(data.resolve.as_ref().unwrap(), &ctx));
    match Run::start(seeds, data, ctx) {
        Err(e) => assert_eq!(e.message(), "Unknown crate(s) passed to --direct: nowhere"),
        Ok(_) => panic!("the seed is unknown"),
    }
}

#[test]
fn order_of_nodes_does_not_matter() {
    let exposes: &[(&str, &[&str])] =
        &[("core", &["ext"]), ("mid", &["other"]), ("top", &["core"])];
    let mut results = vec![];
    for turn in 0..5 {
        let (cli, seeds) = direct(&["ext"]);
        let mut data = metadata();
        let mut nodes = data.resolve.take().unwrap();
        nodes.rotate_left(turn);
        if turn % 2 == 1 {
            nodes.reverse();
        }
        data.resolve = Some(nodes);
        let mut log = EventLog::new();
        let (state, _) = finish(seeds, data, &cli, exposes, &mut log);
        let lists = compute_lists(&state.ctx, &state.result);
        results.push((
            lists.major.names().clone(),
            lists.minor.names().clone(),
            lists.patch.names().clone(),
        ));
        log.drain();
        assert!(conclude(state, &cli, &mut log).is_ok());
    }
    assert_eq!(results[0].0, texts(&["core", "top"]));
    assert_eq!(results[0].2, texts(&["mid"]));
    assert!(results.iter().all(|lists| lists == &results[0]));
}

#[test]
fn unknown_seeds_matter_in_direct_mode_only() {
    let mut log = EventLog::new();
    let seeds = take_seeds(changes(&["nowhere"], &[]), &mut log).unwrap();
    let ctx = WorkspaceContext::new(&metadata());
    assert!(Run::start(seeds, metadata(), ctx).is_ok());
}

#[test]
fn wave_stops_where_nothing_leaks() {
    let (cli, seeds) = direct(&["ext"]);
    let mut log = EventLog::new();
    let (state, built) = finish(seeds, metadata(), &cli, &[("core", &["other"])], &mut log);
    assert_eq!(built, texts(&["core"]));
    assert_eq!(state.result.patch_crates.names(), &texts(&["core"]));
    assert_eq!(state.processed.names(), &texts(&["bin", "core", "mid", "top"]));
    assert!(state.pending.is_empty());
    log.drain();
    assert!(conclude(state, &cli, &mut log).is_ok());
    let events = log.drain();
    assert_eq!(events.len(), 4);
    assert!(matches!(&events[0], Event::AnalysisCompleteHeader));
    assert!(matches!(
        &events[3],
        Event::BumpList { level: Bump::Patch, names } if names.names() == &texts(&["core"])
    ));
}

#[test]
fn wave_spreads_through_leaks_in_order() {
    let (cli, seeds) = direct(&["ext"]);
    let cli = Cli { tree: true, include_binaries: true, ..cli };
    let mut log = EventLog::new();
    let exposes: &[(&str, &[&str])] =
        &[("core", &["ext"]), ("mid", &["core"]), ("top", &["other"])];
    let (state, built) = finish(seeds, metadata(), &cli, exposes, &mut log);
    assert_eq!(built, texts(&["core", "mid", "top"]));
    assert_eq!(state.result.state.breaking_crates.names(), &texts(&["core", "ext", "mid"]));
    assert_eq!(state.result.patch_crates.names(), &texts(&["top"]));
    log.drain();
    assert!(conclude(state, &cli, &mut log).is_ok());
    let events = log.drain();
    assert_eq!(events.len(), 6);
    assert!(matches!(&events[0], Event::InfluenceTreeHeader));
    match &events[1] {
        Event::InfluenceTree { nodes } => {
            let names: Vec<(usize, &str)> =
                nodes.iter().map(|n| (n.depth, n.name.as_str())).collect();
            assert_eq!(
                names,
                vec![(0, "ext"), (1, "core"), (2, "mid"), (3, "top"), (2, "top")]
            );
        }
        _ => panic!("the tree is reported"),
    }
    assert!(matches!(
        &events[3],
        Event::BumpList { level: Bump::Major, names } if names.names() == &texts(&["core"])
    ));
    assert!(matches!(
        &events[4],
        Event::BumpList { level: Bump::Minor, names } if names.names() == &texts(&["mid"])
    ));
    assert!(matches!(
        &events[5],
        Event::BumpList { level: Bump::Patch, names } if names.names() == &texts(&["top"])
    ));
}

#[test]
fn failed_docs_are_summarized() {
    let (cli, seeds) = direct(&["ext"]);
    let mut log = EventLog::new();
    let (state, built) = finish(seeds, metadata(), &cli, &[], &mut log);
    assert_eq!(built, texts(&["core", "mid", "top"]));
    log.drain();
    assert!(conclude(state, &cli, &mut log).is_ok());
    let events = log.drain();
    assert!(matches!(
        &events[4],
        Event::FailedRustdocSummary { names }
            if names.names() == &texts(&["core", "mid", "top"])
    ));
}

#[test]
fn cyclic_workspace_is_stuck() {
    let mut data = metadata();
    data.resolve = Some(vec![node("core", &["mid"]), node("mid", &["core"]), node("top", &[])]);
    let (cli, seeds) = direct(&["ext"]);
    let ctx = WorkspaceContext::new(&data);
    let mut state = Run::start(seeds, data, ctx).unwrap();
    let mut log = EventLog::new();
    match run(&mut state, &cli, None, &mut log) {
        Err(e) => assert_eq!(
            e.message(),
            "Cannot make progress on crates: [\"core\", \"mid\"]. \
             This should not happen with a valid Cargo workspace."
        ),
        Ok(_) => panic!("the crates depend on each other"),
    }
    assert_eq!(state.processed.names(), &texts(&["top"]));
}

#[test]
fn run_errors_have_messages() {
    assert_eq!(RunError::NoResolveGraph.message(), "No resolve graph found");
    assert_eq!(
        RunError::NoManifestPath(CrateName::from("x")).message(),
        "No manifest path for x"
    );
    assert_eq!(
        RunError::UnreadableDocs(CrateName::from("x")).message(),
        "Failed to parse rustdoc JSON for x"
    );
    assert_eq!(RunError::BumpErrors.message(), "semwave encountered errors during analysis");
}

#[test]
fn crate_without_manifest_ends_the_run() {
    let (cli, seeds) = direct(&["ext"]);
    let mut ctx = WorkspaceContext::new(&metadata());
    ctx.pkg_manifest_paths = NameMap::new();
    let mut state = Run::start(seeds, metadata(), ctx).unwrap();
    let mut log = EventLog::new();
    match run(&mut state, &cli, None, &mut log) {
        Err(RunError::NoManifestPath(name)) => assert_eq!(name.as_str(), "core"),
        _ => panic!("the manifest is missing"),
    }
}

#[test]
fn local_bumps_are_checked() {
    let mut log = EventLog::new();
    let mut given = changes(&["ext"], &[]);
    given.local_bumps.insert("core".to_string(), Bump::Minor);
    given.new_crates.insert("top".to_string());
    let seeds = take_seeds(given, &mut log).unwrap();
    let exposes: &[(&str, &[&str])] =
        &[("core", &["ext"]), ("mid", &["core"]), ("top", &["mid"])];
    let (state, _) = finish(seeds, metadata(), &cli(), exposes, &mut log);
    log.drain();
    match conclude(state, &cli(), &mut log) {
        Err(RunError::BumpErrors) => {}
        _ => panic!("the bumps are not sufficient"),
    }
    let events = log.drain();
    assert_eq!(events.len(), 6);
    match &events[4] {
        Event::UnderBumped { items } => {
            assert_eq!(items.len(), 1);
            assert_eq!(items[0].name.as_str(), "core");
            assert_eq!((items[0].required, items[0].local), (Bump::Major, Bump::Minor));
        }
        _ => panic!("the bump of core is too small"),
    }
    match &events[5] {
        Event::MissingBumps { items } => {
            assert_eq!(items.len(), 1);
            assert_eq!((items[0].name.as_str(), items[0].required), ("mid", Bump::Minor));
        }
        _ => panic!("mid has no bump"),
    }
}

fn lists(major: &[&str], minor: &[&str], patch: &[&str]) -> BumpLists {
    BumpLists { major: set(major), minor: set(minor), patch: set(patch) }
}

fn bumps(list: &[(&str, Bump)]) -> NameMap<Bump> {
    let mut map = NameMap::new();
    for (name, bump) in list {
        map.insert(name.to_string(), *bump);
    }
    map
}

#[test]
fn bumps_are_validated() {
    let mut log = EventLog::new();
    let none = NameSet::new();
    assert!(!validate_bumps(&lists(&["a"], &["b"], &["c"]), &bumps(&[]), &none, &none, &mut log));
    assert!(!validate_bumps(
        &lists(&["a"], &["b"], &["c"]),
        &bumps(&[("a", Bump::Major), ("b", Bump::Minor), ("c", Bump::Minor)]),
        &none,
        &none,
        &mut log
    ));
    assert!(!validate_bumps(
        &lists(&["a"], &["b"], &[]),
        &bumps(&[("a", Bump::Patch)]),
        &set(&["a", "b"]),
        &none,
        &mut log
    ));
    assert!(!validate_bumps(
        &lists(&[], &["b"], &[]),
        &bumps(&[("x", Bump::Patch)]),
        &none,
        &set(&["b"]),
        &mut log
    ));
    assert!(log.drain().is_empty());
    assert!(validate_bumps(
        &lists(&[], &["b"], &[]),
        &bumps(&[("x", Bump::Patch)]),
        &none,
        &none,
        &mut log
    ));
    assert!(matches!(&log.drain()[0], Event::MissingBumps { items } if items.len() == 1));
    assert!(!validate_bumps(
        &lists(&["a"], &[], &["a"]),
        &bumps(&[("a", Bump::Patch)]),
        &none,
        &none,
        &mut log
    ));
}

#[test]
fn lists_depend_on_versions() {
    let ctx = WorkspaceContext::new(&metadata());
    let mut result = PropagationResult::new(state(&["core", "mid", "ext"], &["top", "bin", "new"]));
    result.patch_crates = set(&["other"]);
    let lists = compute_lists(&ctx, &result);
    assert_eq!(lists.major.names(), &texts(&["core"]));
    assert_eq!(lists.minor.names(), &texts(&["ext", "mid", "top"]));
    assert_eq!(lists.patch.names(), &texts(&["bin", "new", "other"]));
    let mut log = EventLog::new();
    let printed = print_results(&ctx, &result, &NameSet::new(), false, &mut log);
    assert_eq!(printed.major.names(), lists.major.names());
    assert_eq!(log.drain().len(), 4);
}

#[test]
fn settled_crates_are_forgotten() {
    let mut result = PropagationResult::new(state(&["a", "b", "c", "d"], &["a", "b", "e"]));
    result.patch_crates = set(&["a", "f", "g"]);
    result.settle(
        &set(&["a"]),
        &set(&["d"]),
        &bumps(&[("b", Bump::Minor), ("c", Bump::Major), ("e", Bump::Patch), ("f", Bump::Patch)]),
    );
    assert_eq!(result.state.breaking_crates.names(), &texts(&["b"]));
    assert_eq!(result.state.additive_crates.names(), &texts(&["e"]));
    assert_eq!(result.patch_crates.names(), &texts(&["g"]));
}

#[test]
fn waves_ask_for_all_docs_at_once() {
    let mut data = metadata();
    data.packages.push(package("side", "0.1.0", true));
    data.workspace_members.push(id("side"));
    let mut nodes = data.resolve.take().unwrap();
    nodes.push(node("side", &["ext"]));
    let ctx = WorkspaceContext::new(&data);
    let mut wave = Propagation::new(&nodes, &ctx, state(&["ext"], &[]));
    let mut log = EventLog::new();
    let builds =
        semwave::propagate::run(&mut wave, &nodes, &ctx, &cli(), &NameMap::new(), &mut log).unwrap();
    let names: Vec<&str> = builds.iter().map(|b| b.name.as_str()).collect();
    assert_eq!(names, vec!["core", "side"]);
    let mut built = NameMap::new();
    built.insert("core".to_string(), RustdocOutcome::Built(docs(&["ext"])));
    built.insert("side".to_string(), RustdocOutcome::Failed("no docs".to_string()));
    let builds =
        semwave::propagate::run(&mut wave, &nodes, &ctx, &cli(), &built, &mut log).unwrap();
    assert_eq!(builds.len(), 1);
    assert_eq!(builds[0].name.as_str(), "mid");
    assert_eq!(builds[0].manifest.as_str(), "/mid/Cargo.toml");
    let mut built = NameMap::new();
    built.insert("mid".to_string(), RustdocOutcome::Built(docs(&["other"])));
    let builds =
        semwave::propagate::run(&mut wave, &nodes, &ctx, &cli(), &built, &mut log).unwrap();
    assert_eq!(builds[0].name.as_str(), "top");
    let mut built = NameMap::new();
    built.insert("top".to_string(), RustdocOutcome::Built(docs(&[])));
    let builds =
        semwave::propagate::run(&mut wave, &nodes, &ctx, &cli(), &built, &mut log).unwrap();
    assert!(builds.is_empty());
    assert!(wave.pending.is_empty());
    assert_eq!(wave.result.state.breaking_crates.names(), &texts(&["core", "ext", "side"]));
    assert_eq!(wave.result.patch_crates.names(), &texts(&["mid", "top"]));
    assert_eq!(wave.result.state.failed.names(), &texts(&["side"]));
}

#[test]
fn waves_report_what_is_missing() {
    let data = metadata();
    let nodes = data.resolve.as_ref().unwrap();
    let mut ctx = WorkspaceContext::new(&data);
    let mut wave = Propagation::new(nodes, &ctx, state(&["ext"], &[]));
    let mut log = EventLog::new();
    let none = NameMap::new();
    assert!(semwave::propagate::run(&mut wave, nodes, &ctx, &cli(), &none, &mut log).is_ok());
    match semwave::propagate::run(&mut wave, nodes, &ctx, &cli(), &none, &mut log) {
        Err(PropagateError::MissingRustdoc(name)) => assert_eq!(name.as_str(), "core"),
        _ => panic!("the documentation is missing"),
    }
    let mut built = NameMap::new();
    built.insert("core".to_string(), RustdocOutcome::Built(String::new()));
    match semwave::propagate::run(&mut wave, nodes, &ctx, &cli(), &built, &mut log) {
        Err(PropagateError::UnreadableDocs(name)) => assert_eq!(name.as_str(), "core"),
        _ => panic!("the documentation cannot be read"),
    }
    ctx.pkg_manifest_paths = NameMap::new();
    let mut wave = Propagation::new(nodes, &ctx, state(&["ext"], &[]));
    match semwave::propagate::run(&mut wave, nodes, &ctx, &cli(), &none, &mut log) {
        Err(PropagateError::NoManifestPath(name)) => assert_eq!(name.as_str(), "core"),
        _ => panic!("the manifest is missing"),
    }
    let cyclic = vec![node("core", &["mid"]), node("mid", &["core"])];
    let mut wave = Propagation::new(&cyclic, &ctx, state(&["ext"], &[]));
    match semwave::propagate::run(&mut wave, &cyclic, &ctx, &cli(), &none, &mut log) {
        Err(PropagateError::NothingReady) => {}
        _ => panic!("nothing is ready"),
    }
}
