//! How a change in its dependencies affects a crate.
use std::collections::{BTreeMap, HashMap};

use vstd::prelude::*;

use crate::cli::Cli;
use crate::ids::{ids_of, lemma_ascending_ids};
use crate::leak::{find_leaked_deps, leak_views, leaked_deps, LeakView};
use crate::names::{ascending, NameMap, NameSet};
use crate::order::text_eq;
use crate::report::event::{Event, EventView, LeakDetail, LeakDetailView};
use crate::report::sink::EventSink;
use crate::rustdoc::{name_texts, Docs, DocsView};
use crate::rustdoc_json::{parse_rustdoc, rustdoc_document};
use crate::semver::{bump_or, required_bump_or, Bump, ChangeKind, Version};
use crate::text::{copy_texts, texts, underscore_text, underscored};
use crate::types::{CrateName, ManifestPath};

pub use crate::workspace::{is_normal_dep, WorkspaceContext};

use crate::workspace::{is_normal, Node, NodeDep};

verus! {

/// Mutable state accumulated during the propagation wave.
#[derive(Debug)]
pub struct WaveState {
    pub breaking_crates: NameSet,
    pub additive_crates: NameSet,
    pub failed: NameSet,
}

/// The crates that the wave has reached.
#[verifier::ext_equal]
pub struct WaveView {
    pub breaking: Set<Seq<char>>,
    pub additive: Set<Seq<char>>,
    pub failed: Set<Seq<char>>,
}

impl View for WaveState {
    type V = WaveView;

    open spec fn view(&self) -> WaveView {
        WaveView {
            breaking: self.breaking_crates@,
            additive: self.additive_crates@,
            failed: self.failed@,
        }
    }
}

/// Per-dependency influence: which dep caused the bump and how.
#[derive(Debug)]
pub struct DepInfluence {
    pub dep_name: CrateName,
    pub bump: Bump,
}

/// What an influence says.
pub struct InfluenceView {
    pub dep: Seq<char>,
    pub bump: Bump,
}

impl DeepView for DepInfluence {
    type V = InfluenceView;

    open spec fn deep_view(&self) -> InfluenceView {
        InfluenceView { dep: self.dep_name@, bump: self.bump }
    }
}

/// A dependency that changes, and how.
#[derive(Debug)]
pub struct AffectedDep {
    pub name: CrateName,
    pub change: ChangeKind,
}

/// What an affected dependency says.
pub struct AffectedView {
    pub name: Seq<char>,
    pub change: ChangeKind,
}

impl DeepView for AffectedDep {
    type V = AffectedView;

    open spec fn deep_view(&self) -> AffectedView {
        AffectedView { name: self.name@, change: self.change }
    }
}

/// The dependency counts for `node`: it is a normal one, and not on itself.
pub open spec fn counts(node: Node, dep: NodeDep) -> bool {
    dep.pkg@ != node.id@ && is_normal(dep)
}

/// The context has a name for each dependency that counts.
pub open spec fn are_deps_known(ctx: WorkspaceContext, node: Node) -> bool {
    forall|i: int|
        0 <= i < node.deps@.len() && counts(node, #[trigger] node.deps@[i])
            ==> ctx.names().dom().contains(node.deps@[i].pkg@)
}

/// The context has a name for the node and for each dependency that counts.
pub open spec fn is_known(ctx: WorkspaceContext, node: Node) -> bool {
    &&& ctx.names().dom().contains(node.id@)
    &&& are_deps_known(ctx, node)
}

/// How the wave has reached the crate `name`; a breaking change takes priority.
pub open spec fn change_of(state: WaveView, name: Seq<char>) -> Option<ChangeKind> {
    if state.breaking.contains(name) {
        Some(ChangeKind::Breaking)
    } else if state.additive.contains(name) {
        Some(ChangeKind::Additive)
    } else {
        None
    }
}

/// Those of the first `n` dependencies of a node that the wave has reached.
pub open spec fn affected_deps(
    node: Node,
    names: Map<Seq<char>, Seq<char>>,
    state: WaveView,
    n: nat,
) -> Seq<AffectedView>
    decreases n,
{
    if n == 0 {
        Seq::empty()
    } else {
        let before = affected_deps(node, names, state, (n - 1) as nat);
        let dep = node.deps@[n - 1];
        match change_of(state, names[dep.pkg@]) {
            Some(change) if counts(node, dep) => before.push(
                AffectedView { name: names[dep.pkg@], change },
            ),
            _ => before,
        }
    }
}

/// The dependencies of a node that the wave has reached.
pub open spec fn affected(node: Node, ctx: WorkspaceContext, state: WaveView) -> Seq<AffectedView> {
    affected_deps(node, ctx.names(), state, node.deps@.len())
}

/// Find the dependencies of a node that the wave has reached.
pub fn evaluate_affected_deps(node: &Node, ctx: &WorkspaceContext, state: &WaveState) -> (r: Vec<
    AffectedDep,
>)
    requires
        are_deps_known(*ctx, *node),
    ensures
        r.deep_view() == affected(*node, *ctx, state@),
{
    let mut r: Vec<AffectedDep> = Vec::new();
    assert(r.deep_view() =~= Seq::empty());
    for i in 0..node.deps.len()
        invariant
            are_deps_known(*ctx, *node),
            r.deep_view() == affected_deps(*node, ctx.names(), state@, i as nat),
    {
        let dep = &node.deps[i];
        let ghost before = r.deep_view();
        if !text_eq(dep.pkg.as_str(), node.id.as_str()) && is_normal_dep(dep) {
            assert(counts(*node, node.deps@[i as int]));
            let name = name_of(ctx, dep.pkg.as_str());
            let change = if state.breaking_crates.contains(name.as_str()) {
                Some(ChangeKind::Breaking)
            } else if state.additive_crates.contains(name.as_str()) {
                Some(ChangeKind::Additive)
            } else {
                None
            };
            if let Some(change) = change {
                r.push(AffectedDep { name: name.clone(), change });
                assert(r.deep_view() =~= before.push(AffectedView { name: name@, change }));
            }
        }
    }
    r
}

/// The name of a package.
pub fn name_of<'a>(ctx: &'a WorkspaceContext, id: &str) -> (name: &'a CrateName)
    requires
        ctx.names().dom().contains(id@),
    ensures
        name@ == ctx.names()[id@],
{
    match ctx.pkg_names.get(id) {
        Some(name) => name,
        None => {
            assert(false);
            vstd::pervasive::unreached()
        },
    }
}

/// The worst change among dependencies; a breaking one where there are none.
pub open spec fn worst_of(deps: Seq<AffectedView>) -> ChangeKind
    decreases deps.len(),
{
    if deps.len() == 0 {
        ChangeKind::Breaking
    } else if deps.len() == 1 {
        deps[0].change
    } else {
        worst_of(deps.drop_last()).worse(deps.last().change)
    }
}

/// The same bump from each dependency.
pub open spec fn same_influence(deps: Seq<AffectedView>, bump: Bump) -> Seq<InfluenceView> {
    deps.map_values(|dep: AffectedView| InfluenceView { dep: dep.name, bump })
}

fn influence_all(deps: &Vec<AffectedDep>, bump: Bump) -> (r: Vec<DepInfluence>)
    ensures
        r.deep_view() == same_influence(deps.deep_view(), bump),
{
    let ghost all = same_influence(deps.deep_view(), bump);
    let mut r: Vec<DepInfluence> = Vec::new();
    assert(r.deep_view() =~= all.take(0));
    for i in 0..deps.len()
        invariant
            all == same_influence(deps.deep_view(), bump),
            r.deep_view() == all.take(i as int),
    {
        let ghost before = r.deep_view();
        r.push(DepInfluence { dep_name: deps[i].name.clone(), bump });
        assert(r.deep_view() =~= before.push(all[i as int]));
        assert(all.take(i + 1) =~= all.take(i as int).push(all[i as int]));
    }
    assert(all.take(deps.len() as int) =~= all);
    r
}

/// What becomes of a crate: how it changes, the bump that this calls for, and
/// what each dependency has to do with it.
#[derive(Debug)]
pub struct CrateBump {
    pub change: ChangeKind,
    pub bump: Bump,
    pub influences: Vec<DepInfluence>,
}

/// What becomes of a crate.
#[verifier::ext_equal]
pub struct CrateBumpView {
    pub change: ChangeKind,
    pub bump: Bump,
    pub influences: Seq<InfluenceView>,
}

impl View for CrateBump {
    type V = CrateBumpView;

    open spec fn view(&self) -> CrateBumpView {
        CrateBumpView {
            change: self.change,
            bump: self.bump,
            influences: self.influences.deep_view(),
        }
    }
}

/// A crate that the wave leaves alone.
pub open spec fn untouched() -> CrateBumpView {
    CrateBumpView {
        change: ChangeKind::Unchanged,
        bump: Bump::Unchanged,
        influences: Seq::empty(),
    }
}

/// Assume the worst of a crate whose documentation could not be generated: that
/// it changes as the worst of its dependencies.
pub open spec fn fallback(deps: Seq<AffectedView>, version: Option<Version>) -> CrateBumpView {
    let worst = worst_of(deps);
    let bump = bump_or(version, worst, Bump::Minor);
    CrateBumpView { change: worst, bump, influences: same_influence(deps, bump) }
}

/// Assume the worst of a crate whose documentation could not be generated, and
/// report it.
pub fn conservative_fallback<S: EventSink>(
    node_name: &str,
    affected_deps: &Vec<AffectedDep>,
    node_version: Option<&Version>,
    error: &str,
    sink: &mut S,
) -> (r: CrateBump)
    ensures
        r@ == fallback(
            affected_deps.deep_view(),
            match node_version {
                Some(v) => Some(*v),
                None => None,
            },
        ),
        final(sink).emitted() == old(sink).emitted().push(
            EventView::RustdocFailed {
                crate_name: node_name@,
                error: error@,
                conservative_bump: r.bump,
            },
        ),
{
    let ghost deps = affected_deps.deep_view();
    let mut worst = ChangeKind::Breaking;
    for i in 0..affected_deps.len()
        invariant
            deps == affected_deps.deep_view(),
            worst == worst_of(deps.take(i as int)),
    {
        assert(deps.take(i + 1).drop_last() =~= deps.take(i as int));
        worst = if i == 0 {
            affected_deps[i].change
        } else {
            worst.worst(affected_deps[i].change)
        };
    }
    assert(deps.take(affected_deps.len() as int) =~= deps);
    let bump = required_bump_or(node_version, worst, Bump::Minor);
    sink.emit(
        Event::RustdocFailed {
            crate_name: node_name.to_owned(),
            error: error.to_owned(),
            conservative_bump: bump,
        },
    );
    CrateBump { change: worst, bump, influences: influence_all(affected_deps, bump) }
}

/// Those of the crates that the documentation refers to that are among `deps`, by
/// id; a hyphen in a name counts as an underscore.
pub open spec fn relevant_crates(
    crates: Map<u32, Seq<char>>,
    deps: Seq<AffectedView>,
) -> Map<u32, Seq<char>> {
    Map::new(
        |id: u32| crates.dom().contains(id) && names_one_of(crates[id], deps),
        |id: u32| crates[id],
    )
}

/// `name` is the name of one of `deps`, up to hyphens and underscores.
pub open spec fn names_one_of(name: Seq<char>, deps: Seq<AffectedView>) -> bool {
    exists|i: int|
        0 <= i < deps.len() && underscored((#[trigger] deps[i]).name) == underscored(name)
}

/// Some of the names is `dep`, up to hyphens and underscores.
pub open spec fn holds_name(names: Set<Seq<char>>, dep: Seq<char>) -> bool {
    exists|name: Seq<char>| #[trigger]
        names.contains(name) && underscored(name) == underscored(dep)
}

/// A leak as it is reported.
pub open spec fn reported_leak(leak: LeakView) -> LeakDetailView {
    LeakDetailView {
        item_kind: leak.item_kind,
        item_name: leak.item_name,
        leaked_types: ascending(leak.leaked_types),
    }
}

/// The leaks of the first `n` of `names` that are `dep`, up to hyphens and
/// underscores.
pub open spec fn reported_leaks(
    leaked: Map<Seq<char>, Seq<LeakView>>,
    names: Seq<Seq<char>>,
    dep: Seq<char>,
    n: nat,
) -> Seq<LeakDetailView>
    decreases n,
{
    if n == 0 {
        Seq::empty()
    } else {
        let before = reported_leaks(leaked, names, dep, (n - 1) as nat);
        let name = names[n - 1];
        if underscored(name) == underscored(dep) {
            before + leaked[name].map_values(|leak: LeakView| reported_leak(leak))
        } else {
            before
        }
    }
}

/// What the first `n` of `deps` do to a crate that leaks `leaked`: a leaked
/// dependency hands its change on, and is reported; any other calls for a patch.
pub open spec fn weigh(
    node_name: Seq<char>,
    leaked: Map<Seq<char>, Seq<LeakView>>,
    deps: Seq<AffectedView>,
    version: Option<Version>,
    verbose: bool,
    n: nat,
) -> (ChangeKind, Seq<InfluenceView>, Seq<EventView>)
    decreases n,
{
    if n == 0 {
        (ChangeKind::Patch, Seq::empty(), Seq::empty())
    } else {
        let (worst, influences, events) = weigh(
            node_name,
            leaked,
            deps,
            version,
            verbose,
            (n - 1) as nat,
        );
        let dep = deps[n - 1];
        if holds_name(leaked.dom(), dep.name) {
            let bump = bump_or(version, dep.change, Bump::Minor);
            let names = ascending(leaked.dom());
            let details = if verbose {
                reported_leaks(leaked, names, dep.name, names.len())
            } else {
                Seq::empty()
            };
            (
                worst.worse(dep.change),
                influences.push(InfluenceView { dep: dep.name, bump }),
                events.push(
                    EventView::LeakDetected {
                        crate_name: node_name,
                        dep: dep.name,
                        bump,
                        details,
                    },
                ),
            )
        } else {
            (worst, influences.push(InfluenceView { dep: dep.name, bump: Bump::Patch }), events)
        }
    }
}

/// What becomes of a crate whose documentation is `docs`.
pub open spec fn analysis(
    node_name: Seq<char>,
    docs: DocsView,
    deps: Seq<AffectedView>,
    version: Option<Version>,
    verbose: bool,
) -> (CrateBumpView, Seq<EventView>) {
    let leaked = leaked_deps(docs, relevant_crates(docs.external_crates, deps));
    let (worst, influences, events) = weigh(
        node_name,
        leaked,
        deps,
        version,
        verbose,
        deps.len(),
    );
    (
        CrateBumpView { change: worst, bump: bump_or(version, worst, Bump::Patch), influences },
        events,
    )
}

fn is_one_of(name: &str, deps: &Vec<AffectedDep>) -> (r: bool)
    ensures
        r == names_one_of(name@, deps.deep_view()),
{
    let wanted = underscore_text(name);
    for i in 0..deps.len()
        invariant
            wanted@ == underscored(name@),
            forall|j: int|
                0 <= j < i ==> underscored((#[trigger] deps.deep_view()[j]).name) != wanted@,
    {
        let normalized = underscore_text(deps[i].name.as_str());
        assert(deps.deep_view()[i as int].name == deps[i as int].name@);
        if text_eq(normalized.as_str(), wanted.as_str()) {
            return true;
        }
    }
    false
}

fn relevant_crate_ids(crates: &BTreeMap<u32, String>, deps: &Vec<AffectedDep>) -> (r: HashMap<
    u32,
    String,
>)
    ensures
        name_texts(r@) == relevant_crates(name_texts(crates@), deps.deep_view()),
{
    broadcast use vstd::std_specs::hash::group_hash_axioms;

    let ghost want = relevant_crates(name_texts(crates@), deps.deep_view());
    let all = ids_of(crates);
    proof {
        lemma_ascending_ids(crates@.dom());
    }
    let mut r: HashMap<u32, String> = HashMap::new();
    for i in 0..all.len()
        invariant
            want == relevant_crates(name_texts(crates@), deps.deep_view()),
            forall|id: u32| #[trigger] all@.contains(id) <==> crates@.dom().contains(id),
            forall|id: u32| #[trigger]
                r@.dom().contains(id) <==> want.dom().contains(id) && exists|j: int|
                    0 <= j < i && #[trigger] all@[j] == id,
            forall|id: u32| #[trigger] r@.dom().contains(id) ==> r@[id]@ == want[id],
    {
        broadcast use vstd::std_specs::hash::group_hash_axioms;
        broadcast use vstd::std_specs::btree::group_btree_axioms;
        broadcast use vstd::laws_cmp::group_laws_cmp;

        let id = all[i];
        assert(all@.contains(id));
        let name = crates.get(&id).unwrap();
        assert(name_texts(crates@)[id] == name@);
        if is_one_of(name.as_str(), deps) {
            r.insert(id, name.clone());
        }
    }
    assert(name_texts(r@) =~= want) by {
        assert forall|id: u32| #[trigger] want.dom().contains(id) implies r@.dom().contains(id) by {
            assert(all@.contains(id));
            let j = choose|j: int| 0 <= j < all@.len() && all@[j] == id;
            assert(all@[j] == id);
        }
    }
    r
}

fn append_leaks(details: &mut Vec<LeakDetail>, leaks: &Vec<crate::leak::LeakDetail>)
    ensures
        final(details).deep_view() == old(details).deep_view() + leaks.deep_view().map_values(
            |leak: LeakView| reported_leak(leak),
        ),
{
    let ghost before = details.deep_view();
    let ghost all = leaks.deep_view().map_values(|leak: LeakView| reported_leak(leak));
    assert(before + all.take(0) =~= before);
    for i in 0..leaks.len()
        invariant
            all == leaks.deep_view().map_values(|leak: LeakView| reported_leak(leak)),
            details.deep_view() == before + all.take(i as int),
    {
        let leak = &leaks[i];
        let ghost had = details.deep_view();
        let detail = LeakDetail {
            item_kind: leak.item_kind.clone(),
            item_name: leak.item_name.clone(),
            leaked_types: copy_texts(leak.leaked_types.names()),
        };
        details.push(detail);
        assert(all[i as int] == detail.deep_view());
        assert(details.deep_view() =~= had.push(detail.deep_view()));
        assert(before + all.take(i + 1) =~= (before + all.take(i as int)).push(all[i as int]));
    }
    assert(all.take(leaks.len() as int) =~= all);
}

/// Whether `dep` is among the leaked dependencies, and its leaks where these are
/// wanted.
fn leaks_of(leaked: &NameMap<Vec<crate::leak::LeakDetail>>, dep: &str, verbose: bool) -> (r: (
    bool,
    Vec<LeakDetail>,
))
    ensures
        r.0 == holds_name(leaked@.dom(), dep@),
        r.1.deep_view() == if verbose {
            reported_leaks(
                leak_views(leaked@),
                ascending(leaked@.dom()),
                dep@,
                ascending(leaked@.dom()).len(),
            )
        } else {
            Seq::empty()
        },
{
    let ghost views = leak_views(leaked@);
    let ghost names = ascending(leaked@.dom());
    let wanted = underscore_text(dep);
    let count = leaked.len();
    let list = leaked.names();
    let mut found = false;
    let mut details: Vec<LeakDetail> = Vec::new();
    assert(details.deep_view() =~= Seq::empty());
    let mut i: usize = 0;
    while i < count
        invariant
            i <= count,
            count == leaked@.dom().len(),
            count == names.len(),
            names == ascending(leaked@.dom()),
            names.to_set() == leaked@.dom(),
            views == leak_views(leaked@),
            wanted@ == underscored(dep@),
            found == exists|j: int| 0 <= j < i && underscored(#[trigger] names[j]) == wanted@,
            details.deep_view() == if verbose {
                reported_leaks(views, names, dep@, i as nat)
            } else {
                Seq::empty()
            },
        decreases count - i,
    {
        let (name, items) = leaked.entry(i);
        let normalized = underscore_text(name);
        if text_eq(normalized.as_str(), wanted.as_str()) {
            assert(underscored(names[i as int]) == wanted@);
            found = true;
            if verbose {
                append_leaks(&mut details, items);
            }
        }
        i = i + 1;
    }
    proof {
        if found {
            let j = choose|j: int| 0 <= j < count && underscored(#[trigger] names[j]) == wanted@;
            assert(names.to_set().contains(names[j]));
        }
        if holds_name(leaked@.dom(), dep@) {
            let name = choose|name: Seq<char>| #[trigger]
                leaked@.dom().contains(name) && underscored(name) == underscored(dep@);
            assert(names.to_set().contains(name));
            let j = choose|j: int| 0 <= j < names.len() && names[j] == name;
            assert(underscored(names[j]) == wanted@);
        }
    }
    (found, details)
}

/// Work out from the documentation of a crate what becomes of it, and report
/// its leaks.
pub fn analyze_docs<S: EventSink>(
    node_name: &str,
    docs: &Docs,
    affected_deps: &Vec<AffectedDep>,
    node_version: Option<&Version>,
    verbose: bool,
    sink: &mut S,
) -> (r: CrateBump)
    ensures
        ({
            let (bump, events) = analysis(
                node_name@,
                docs@,
                affected_deps.deep_view(),
                match node_version {
                    Some(v) => Some(*v),
                    None => None,
                },
                verbose,
            );
            r@ == bump && final(sink).emitted() == old(sink).emitted() + events
        }),
{
    let ghost deps = affected_deps.deep_view();
    let ghost version = match node_version {
        Some(v) => Some(*v),
        None => None,
    };
    let ids = relevant_crate_ids(&docs.external_crates, affected_deps);
    let found = find_leaked_deps(docs, &ids);
    let ghost leaked = leak_views(found@);
    let ghost before = sink.emitted();
    let mut worst = ChangeKind::Patch;
    let mut influences: Vec<DepInfluence> = Vec::new();
    assert(influences.deep_view() =~= Seq::empty());
    assert(before + Seq::empty() =~= before);
    assert(leaked.dom() =~= found@.dom());
    for i in 0..affected_deps.len()
        invariant
            deps == affected_deps.deep_view(),
            version == match node_version {
                Some(v) => Some(*v),
                None => None,
            },
            leaked == leak_views(found@),
            leaked.dom() == found@.dom(),
            ({
                let (w, inf, events) = weigh(node_name@, leaked, deps, version, verbose, i as nat);
                &&& worst == w
                &&& influences.deep_view() == inf
                &&& sink.emitted() == before + events
            }),
    {
        let dep = &affected_deps[i];
        let ghost had = influences.deep_view();
        let ghost (_, _, events) = weigh(node_name@, leaked, deps, version, verbose, i as nat);
        assert(deps[i as int] == dep.deep_view());
        let (is_leaked, details) = leaks_of(&found, dep.name.as_str(), verbose);
        let mut bump = Bump::Patch;
        if is_leaked {
            bump = required_bump_or(node_version, dep.change, Bump::Minor);
            let event = Event::LeakDetected {
                crate_name: node_name.to_owned(),
                dep: dep.name.as_str().to_owned(),
                bump,
                details,
            };
            sink.emit(event);
            assert(before + events.push(event@) =~= (before + events).push(event@));
            worst = worst.worst(dep.change);
        }
        influences.push(DepInfluence { dep_name: dep.name.clone(), bump });
        assert(influences.deep_view() =~= had.push(InfluenceView { dep: dep.name@, bump }));
    }
    let bump = required_bump_or(node_version, worst, Bump::Patch);
    CrateBump { change: worst, bump, influences }
}

/// Why a crate could not be evaluated.
#[derive(Debug, Clone, Copy, PartialEq, Eq, Structural)]
pub enum EvaluateError {
    /// The crate has no manifest in the workspace.
    NoManifestPath,
    /// The generated documentation of the crate is not rustdoc's JSON.
    UnreadableDocs,
}

/// Read the documentation of a crate from rustdoc's JSON, work out what becomes of
/// the crate, and report its leaks. Nothing is reported where the JSON cannot be
/// read.
pub fn analyze_rustdoc<S: EventSink>(
    node_name: &str,
    json: &str,
    affected_deps: &Vec<AffectedDep>,
    node_version: Option<&Version>,
    verbose: bool,
    sink: &mut S,
) -> (r: Result<CrateBump, EvaluateError>)
    ensures
        match rustdoc_document(json@) {
            Some(docs) => {
                let (bump, events) = analysis(
                    node_name@,
                    docs,
                    affected_deps.deep_view(),
                    match node_version {
                        Some(v) => Some(*v),
                        None => None,
                    },
                    verbose,
                );
                &&& r matches Ok(b) && b@ == bump
                &&& final(sink).emitted() == old(sink).emitted() + events
            },
            None => {
                &&& r matches Err(EvaluateError::UnreadableDocs)
                &&& final(sink).emitted() == old(sink).emitted()
            },
        },
{
    match parse_rustdoc(json) {
        Some(docs) => Ok(
            analyze_docs(node_name, &docs, affected_deps, node_version, verbose, sink),
        ),
        None => Err(EvaluateError::UnreadableDocs),
    }
}

/// What is known of a crate before its documentation is generated.
#[derive(Debug)]
pub enum PreCheckResult {
    /// What becomes of the crate is known.
    EarlyReturn(CrateBump),
    /// The documentation decides.
    NeedsRustdoc { manifest: ManifestPath, affected_deps: Vec<AffectedDep> },
}

/// What is known of a crate before its documentation is generated.
pub enum PreCheckView {
    EarlyReturn(CrateBumpView),
    NeedsRustdoc { manifest: Seq<char>, deps: Seq<AffectedView> },
    Failed(EvaluateError),
}

/// What the outcome of a pre-check says.
pub open spec fn pre_check_view(r: Result<PreCheckResult, EvaluateError>) -> PreCheckView {
    match r {
        Ok(PreCheckResult::EarlyReturn(bump)) => PreCheckView::EarlyReturn(bump@),
        Ok(PreCheckResult::NeedsRustdoc { manifest, affected_deps }) => {
            PreCheckView::NeedsRustdoc { manifest: manifest@, deps: affected_deps.deep_view() }
        },
        Err(e) => PreCheckView::Failed(e),
    }
}

/// What is known of a crate before its documentation is generated: nothing
/// becomes of one that changes in a breaking way anyhow, unless the tree is
/// wanted, nor of one whose dependencies do not change, nor of one without a
/// public API, unless these are wanted: then it needs a patch.
pub open spec fn pre_check(
    node: Node,
    ctx: WorkspaceContext,
    state: WaveView,
    tree: bool,
    include_binaries: bool,
) -> PreCheckView {
    let name = ctx.names()[node.id@];
    let deps = affected(node, ctx, state);
    if (!tree && state.breaking.contains(name)) || deps.len() == 0 {
        PreCheckView::EarlyReturn(untouched())
    } else if !ctx.pkg_has_lib@.contains(name) {
        if include_binaries {
            PreCheckView::EarlyReturn(
                CrateBumpView {
                    change: ChangeKind::Patch,
                    bump: bump_or(ctx.version(name), ChangeKind::Patch, Bump::Patch),
                    influences: same_influence(deps, Bump::Patch),
                },
            )
        } else {
            PreCheckView::EarlyReturn(untouched())
        }
    } else if ctx.manifests().dom().contains(name) {
        PreCheckView::NeedsRustdoc { manifest: ctx.manifests()[name], deps }
    } else {
        PreCheckView::Failed(EvaluateError::NoManifestPath)
    }
}

/// What a pre-check reports: a binary-only crate that needs a patch, or that the
/// analysis of a crate begins.
pub open spec fn pre_check_events(
    node: Node,
    ctx: WorkspaceContext,
    state: WaveView,
    tree: bool,
    include_binaries: bool,
) -> Seq<EventView> {
    let name = ctx.names()[node.id@];
    match pre_check(node, ctx, state, tree, include_binaries) {
        PreCheckView::EarlyReturn(bump) => if bump.change == ChangeKind::Patch {
            seq![EventView::BinaryCrateSkipped { name }]
        } else {
            Seq::empty()
        },
        _ => seq![
            EventView::AnalyzingCrate {
                name,
                deps: affected(node, ctx, state).map_values(|dep: AffectedView| dep.name),
            },
        ],
    }
}

fn dep_names(deps: &Vec<AffectedDep>) -> (r: Vec<String>)
    ensures
        texts(r@) == deps.deep_view().map_values(|dep: AffectedView| dep.name),
{
    let ghost all = deps.deep_view().map_values(|dep: AffectedView| dep.name);
    let mut r: Vec<String> = Vec::new();
    for i in 0..deps.len()
        invariant
            all == deps.deep_view().map_values(|dep: AffectedView| dep.name),
            texts(r@) == all.take(i as int),
    {
        let ghost before = texts(r@);
        r.push(deps[i].name.as_str().to_owned());
        assert(texts(r@) =~= before.push(all[i as int]));
        assert(all.take(i + 1) =~= all.take(i as int).push(all[i as int]));
    }
    assert(all.take(deps.len() as int) =~= all);
    r
}

fn leave_alone() -> (r: CrateBump)
    ensures
        r@ == untouched(),
{
    let r = CrateBump {
        change: ChangeKind::Unchanged,
        bump: Bump::Unchanged,
        influences: Vec::new(),
    };
    assert(r@ =~= untouched());
    r
}

fn check(node: &Node, ctx: &WorkspaceContext, state: &WaveState, cli: &Cli) -> (r: Result<
    PreCheckResult,
    EvaluateError,
>)
    requires
        is_known(*ctx, *node),
    ensures
        pre_check_view(r) == pre_check(*node, *ctx, state@, cli.tree, cli.include_binaries),
{
    let node_name = name_of(ctx, node.id.as_str());
    if !cli.tree && state.breaking_crates.contains(node_name.as_str()) {
        return Ok(PreCheckResult::EarlyReturn(leave_alone()));
    }
    let affected_deps = evaluate_affected_deps(node, ctx, state);
    assert(affected_deps.deep_view().len() == affected_deps@.len());
    if affected_deps.len() == 0 {
        return Ok(PreCheckResult::EarlyReturn(leave_alone()));
    }
    if !ctx.pkg_has_lib.contains(node_name.as_str()) {
        if !cli.include_binaries {
            return Ok(PreCheckResult::EarlyReturn(leave_alone()));
        }
        let bump = CrateBump {
            change: ChangeKind::Patch,
            bump: required_bump_or(
                ctx.pkg_versions.get(node_name.as_str()),
                ChangeKind::Patch,
                Bump::Patch,
            ),
            influences: influence_all(&affected_deps, Bump::Patch),
        };
        return Ok(PreCheckResult::EarlyReturn(bump));
    }
    match ctx.pkg_manifest_paths.get(node_name.as_str()) {
        Some(path) => Ok(PreCheckResult::NeedsRustdoc { manifest: path.clone(), affected_deps }),
        None => Err(EvaluateError::NoManifestPath),
    }
}

fn report_check<S: EventSink>(
    node: &Node,
    ctx: &WorkspaceContext,
    state: &WaveState,
    cli: &Cli,
    checked: &Result<PreCheckResult, EvaluateError>,
    sink: &mut S,
)
    requires
        is_known(*ctx, *node),
        pre_check_view(*checked) == pre_check(*node, *ctx, state@, cli.tree, cli.include_binaries),
    ensures
        final(sink).emitted() == old(sink).emitted() + pre_check_events(
            *node,
            *ctx,
            state@,
            cli.tree,
            cli.include_binaries,
        ),
{
    let ghost before = sink.emitted();
    assert(before + Seq::empty() =~= before);
    let name = name_of(ctx, node.id.as_str()).as_str().to_owned();
    match checked {
        Ok(PreCheckResult::EarlyReturn(bump)) => {
            if bump.change == ChangeKind::Patch {
                sink.emit(Event::BinaryCrateSkipped { name });
            }
        },
        _ => {
            let deps = evaluate_affected_deps(node, ctx, state);
            sink.emit(Event::AnalyzingCrate { name, deps: dep_names(&deps) });
        },
    }
}

/// Work out what can be said of a crate before its documentation is generated,
/// and report it.
pub fn pre_check_crate<S: EventSink>(
    node: &Node,
    ctx: &WorkspaceContext,
    state: &WaveState,
    cli: &Cli,
    sink: &mut S,
) -> (r: Result<PreCheckResult, EvaluateError>)
    requires
        is_known(*ctx, *node),
    ensures
        pre_check_view(r) == pre_check(*node, *ctx, state@, cli.tree, cli.include_binaries),
        final(sink).emitted() == old(sink).emitted() + pre_check_events(
            *node,
            *ctx,
            state@,
            cli.tree,
            cli.include_binaries,
        ),
{
    let checked = check(node, ctx, state, cli);
    report_check(node, ctx, state, cli, &checked, sink);
    checked
}

/// What came of generating the documentation of a crate.
#[derive(Debug)]
pub enum RustdocOutcome {
    /// The documentation, as rustdoc's JSON.
    Built(String),
    /// Why there is none.
    Failed(String),
}

/// Where the evaluation of a crate stands.
#[derive(Debug)]
pub enum CrateEvaluation {
    /// What becomes of the crate.
    Done(CrateBump),
    /// The documentation of the crate with this manifest has to be generated.
    NeedsRustdoc(ManifestPath),
}

/// Where the evaluation of a crate stands.
pub enum EvaluationView {
    Done(CrateBumpView),
    NeedsRustdoc(Seq<char>),
    Failed(EvaluateError),
}

/// What the outcome of an evaluation says.
pub open spec fn evaluation_view(r: Result<CrateEvaluation, EvaluateError>) -> EvaluationView {
    match r {
        Ok(CrateEvaluation::Done(bump)) => EvaluationView::Done(bump@),
        Ok(CrateEvaluation::NeedsRustdoc(manifest)) => EvaluationView::NeedsRustdoc(manifest@),
        Err(e) => EvaluationView::Failed(e),
    }
}

/// The evaluation of a crate: where it stands, the crates whose documentation
/// failed after it, and what is reported. It fails where a crate that needs its
/// documentation has no manifest, or the documentation cannot be read.
pub open spec fn evaluation(
    node: Node,
    ctx: WorkspaceContext,
    state: WaveView,
    cli: Cli,
    rustdoc: Option<RustdocOutcome>,
) -> (EvaluationView, Set<Seq<char>>, Seq<EventView>) {
    let name = ctx.names()[node.id@];
    let begin = pre_check_events(node, ctx, state, cli.tree, cli.include_binaries);
    match pre_check(node, ctx, state, cli.tree, cli.include_binaries) {
        PreCheckView::EarlyReturn(bump) => (EvaluationView::Done(bump), state.failed, begin),
        PreCheckView::Failed(e) => (EvaluationView::Failed(e), state.failed, begin),
        PreCheckView::NeedsRustdoc { manifest, deps } => match rustdoc {
            None => (EvaluationView::NeedsRustdoc(manifest), state.failed, begin),
            Some(RustdocOutcome::Built(json)) => match rustdoc_document(json@) {
                Some(docs) => {
                    let (bump, events) = analysis(name, docs, deps, ctx.version(name), cli.verbose);
                    (EvaluationView::Done(bump), state.failed, events)
                },
                None => (
                    EvaluationView::Failed(EvaluateError::UnreadableDocs),
                    state.failed,
                    Seq::empty(),
                ),
            },
            Some(RustdocOutcome::Failed(error)) => {
                let bump = fallback(deps, ctx.version(name));
                let event = EventView::RustdocFailed {
                    crate_name: name,
                    error: error@,
                    conservative_bump: bump.bump,
                };
                (EvaluationView::Done(bump), state.failed.insert(name), seq![event])
            },
        },
    }
}

/// Work out what becomes of a crate, and report it.
///
/// `rustdoc` is what came of generating the crate's documentation; it is given
/// once this function has asked for it.
pub fn evaluate_crate_bump<S: EventSink>(
    node: &Node,
    ctx: &WorkspaceContext,
    state: &mut WaveState,
    cli: &Cli,
    rustdoc: Option<&RustdocOutcome>,
    sink: &mut S,
) -> (r: Result<CrateEvaluation, EvaluateError>)
    requires
        is_known(*ctx, *node),
    ensures
        ({
            let (result, failed, events) = evaluation(
                *node,
                *ctx,
                old(state)@,
                *cli,
                match rustdoc {
                    Some(outcome) => Some(*outcome),
                    None => None,
                },
            );
            &&& evaluation_view(r) == result
            &&& final(state)@ == (WaveView { failed, ..old(state)@ })
            &&& final(sink).emitted() == old(sink).emitted() + events
        }),
{
    let ghost before = state@;
    let ghost emitted = sink.emitted();
    let node_name = name_of(ctx, node.id.as_str());
    let checked = check(node, ctx, state, cli);
    let result = match (checked, rustdoc) {
        (Ok(PreCheckResult::NeedsRustdoc { affected_deps, .. }), Some(outcome)) => {
            let version = ctx.pkg_versions.get(node_name.as_str());
            match outcome {
                RustdocOutcome::Built(json) => {
                    assert(emitted + Seq::empty() =~= emitted);
                    match analyze_rustdoc(
                        node_name.as_str(),
                        json.as_str(),
                        &affected_deps,
                        version,
                        cli.verbose,
                        sink,
                    ) {
                        Ok(bump) => Ok(CrateEvaluation::Done(bump)),
                        Err(e) => Err(e),
                    }
                },
                RustdocOutcome::Failed(error) => {
                    state.failed.insert(node_name.as_str().to_owned());
                    let bump = conservative_fallback(
                        node_name.as_str(),
                        &affected_deps,
                        version,
                        error.as_str(),
                        sink,
                    );
                    Ok(CrateEvaluation::Done(bump))
                },
            }
        },
        (checked, _) => {
            report_check(node, ctx, state, cli, &checked, sink);
            match checked {
                Ok(PreCheckResult::EarlyReturn(bump)) => Ok(CrateEvaluation::Done(bump)),
                Ok(PreCheckResult::NeedsRustdoc { manifest, .. }) => Ok(
                    CrateEvaluation::NeedsRustdoc(manifest),
                ),
                Err(e) => Err(e),
            }
        },
    };
    result
}

/// The dependency at position `i` is leaked.
pub open spec fn is_leaked(
    leaked: Map<Seq<char>, Seq<LeakView>>,
    deps: Seq<AffectedView>,
    i: int,
) -> bool {
    holds_name(leaked.dom(), deps[i].name)
}

/// The change that a crate hands on is a patch, or the worst change among the
/// dependencies that it leaks.
pub proof fn law_change_is_worst_leaked(
    node_name: Seq<char>,
    leaked: Map<Seq<char>, Seq<LeakView>>,
    deps: Seq<AffectedView>,
    version: Option<Version>,
    verbose: bool,
    n: nat,
)
    requires
        n <= deps.len(),
    ensures
        ({
            let worst = weigh(node_name, leaked, deps, version, verbose, n).0;
            &&& worst.rank() >= ChangeKind::Patch.rank()
            &&& forall|i: int|
                0 <= i < n && #[trigger] is_leaked(leaked, deps, i) ==> deps[i].change.rank()
                    <= worst.rank()
            &&& worst == ChangeKind::Patch || exists|i: int|
                0 <= i < n && #[trigger] is_leaked(leaked, deps, i) && deps[i].change == worst
        }),
    decreases n,
{
    if n > 0 {
        law_change_is_worst_leaked(node_name, leaked, deps, version, verbose, (n - 1) as nat);
        let before = weigh(node_name, leaked, deps, version, verbose, (n - 1) as nat).0;
        let worst = weigh(node_name, leaked, deps, version, verbose, n).0;
        let last = n - 1;
        if is_leaked(leaked, deps, last) {
            if worst != before {
                assert(deps[last].change == worst);
            }
        }
    }
}

/// Each dependency that changes has one influence on a crate, whatever the crate
/// leaks.
pub proof fn law_each_dep_has_an_influence(
    node_name: Seq<char>,
    leaked: Map<Seq<char>, Seq<LeakView>>,
    deps: Seq<AffectedView>,
    version: Option<Version>,
    verbose: bool,
    n: nat,
)
    requires
        n <= deps.len(),
    ensures
        ({
            let influences = weigh(node_name, leaked, deps, version, verbose, n).1;
            &&& influences.len() == n
            &&& forall|i: int| 0 <= i < n ==> (#[trigger] influences[i]).dep == deps[i].name
        }),
    decreases n,
{
    if n > 0 {
        law_each_dep_has_an_influence(node_name, leaked, deps, version, verbose, (n - 1) as nat);
    }
}

/// The worst change among dependencies is at least as bad as each of theirs, and
/// that of one of them.
pub proof fn lemma_worst_of(deps: Seq<AffectedView>)
    requires
        deps.len() > 0,
    ensures
        forall|i: int|
            0 <= i < deps.len() ==> (#[trigger] deps[i]).change.rank() <= worst_of(deps).rank(),
        exists|i: int| 0 <= i < deps.len() && (#[trigger] deps[i]).change == worst_of(deps),
    decreases deps.len(),
{
    if deps.len() > 1 {
        let few = deps.drop_last();
        lemma_worst_of(few);
        let k = choose|k: int| 0 <= k < few.len() && (#[trigger] few[k]).change == worst_of(few);
        assert(deps[k] == few[k]);
        assert(deps[deps.len() - 1] == deps.last());
        assert forall|i: int| 0 <= i < deps.len() implies (#[trigger] deps[i]).change.rank()
            <= worst_of(deps).rank() by {
            if i < few.len() {
                assert(few[i] == deps[i]);
            }
        }
    } else {
        assert(deps[0].change == worst_of(deps));
    }
}

proof fn lemma_affected_changes(
    node: Node,
    names: Map<Seq<char>, Seq<char>>,
    state: WaveView,
    n: nat,
)
    ensures
        forall|i: int|
            0 <= i < affected_deps(node, names, state, n).len() ==> change_of(
                state,
                (#[trigger] affected_deps(node, names, state, n)[i]).name,
            ) == Some(affected_deps(node, names, state, n)[i].change),
    decreases n,
{
    if n > 0 {
        lemma_affected_changes(node, names, state, (n - 1) as nat);
    }
}

/// The dependencies that affect a node are reached by the wave, each with the
/// change that it is reached with.
pub proof fn law_affected_deps_are_reached(node: Node, ctx: WorkspaceContext, state: WaveView)
    ensures
        forall|i: int|
            0 <= i < affected(node, ctx, state).len() ==> change_of(
                state,
                (#[trigger] affected(node, ctx, state)[i]).name,
            ) == Some(affected(node, ctx, state)[i].change),
{
    lemma_affected_changes(node, ctx.names(), state, node.deps@.len());
}

/// Without its documentation a crate is never assumed to change less than with
/// it, whatever the documentation says.
pub proof fn law_fallback_is_conservative(
    node: Node,
    ctx: WorkspaceContext,
    state: WaveView,
    docs: DocsView,
    verbose: bool,
)
    requires
        affected(node, ctx, state).len() > 0,
    ensures
        ({
            let name = ctx.names()[node.id@];
            let deps = affected(node, ctx, state);
            let version = ctx.version(name);
            analysis(name, docs, deps, version, verbose).0.change.rank() <= fallback(
                deps,
                version,
            ).change.rank()
        }),
{
    let name = ctx.names()[node.id@];
    let deps = affected(node, ctx, state);
    let version = ctx.version(name);
    let leaked = leaked_deps(docs, relevant_crates(docs.external_crates, deps));
    law_change_is_worst_leaked(name, leaked, deps, version, verbose, deps.len());
    lemma_worst_of(deps);
    law_affected_deps_are_reached(node, ctx, state);
    assert(deps[0].change.rank() <= worst_of(deps).rank());
}

/// A crate that leaks a dependency changes at least as much as this dependency.
pub proof fn law_leak_hands_the_change_on(
    node_name: Seq<char>,
    docs: DocsView,
    deps: Seq<AffectedView>,
    version: Option<Version>,
    verbose: bool,
    i: int,
)
    requires
        0 <= i < deps.len(),
        ({
            let leaked = leaked_deps(docs, relevant_crates(docs.external_crates, deps));
            is_leaked(leaked, deps, i)
        }),
    ensures
        analysis(node_name, docs, deps, version, verbose).0.change.rank()
            >= deps[i].change.rank(),
{
    let leaked = leaked_deps(docs, relevant_crates(docs.external_crates, deps));
    law_change_is_worst_leaked(node_name, leaked, deps, version, verbose, deps.len());
}

/// A crate that leaks none of its changing dependencies needs a patch and
/// reports nothing.
pub proof fn law_no_leak_means_patch(
    node_name: Seq<char>,
    leaked: Map<Seq<char>, Seq<LeakView>>,
    deps: Seq<AffectedView>,
    version: Option<Version>,
    verbose: bool,
    n: nat,
)
    requires
        n <= deps.len(),
        forall|i: int| 0 <= i < deps.len() ==> !(#[trigger] is_leaked(leaked, deps, i)),
    ensures
        ({
            let (worst, _, events) = weigh(node_name, leaked, deps, version, verbose, n);
            worst == ChangeKind::Patch && events.len() == 0
        }),
    decreases n,
{
    if n > 0 {
        law_no_leak_means_patch(node_name, leaked, deps, version, verbose, (n - 1) as nat);
        assert(!is_leaked(leaked, deps, n - 1));
    }
}

} // verus!
