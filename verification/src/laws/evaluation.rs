//! Laws of the evaluation of one crate: what its dependencies do to it.
use vstd::prelude::*;

use crate::cli::Cli;
use crate::evaluate::{
    affected, affected_deps, analysis, evaluation, fallback, is_leaked, law_change_is_worst_leaked,
    lemma_worst_of, names_one_of, relevant_crates, reported_leak, reported_leaks, weigh,
    AffectedView, EvaluateError, EvaluationView, InfluenceView, RustdocOutcome, WaveView,
};
use crate::ids::{ascending_ids, lemma_ascending_ids};
use crate::laws::leaks::law_leaked_iff_referred_to;
use crate::leak::{law_leaks_come_from_given_deps, leaked_deps, leaks, CrateRef, LeakView};
use crate::names::{ascending, lemma_ascending_of};
use crate::report::event::{EventView, LeakDetailView};
use crate::rustdoc::DocsView;
use crate::rustdoc_json::rustdoc_document;
use crate::semver::{bump_or, Bump, ChangeKind, Version};
use crate::text::underscored;
use crate::workspace::{DependencyKind, Node, WorkspaceContext};

verus! {

/// The wave has reached the dependency at position `i` with this change: the
/// dependency is a normal one on another package, and that is in the set of the
/// breaking crates, or only in that of the additive ones.
pub open spec fn is_reached(
    node: Node,
    names: Map<Seq<char>, Seq<char>>,
    state: WaveView,
    i: int,
    change: ChangeKind,
) -> bool {
    let dep = node.deps@[i];
    let name = names[dep.pkg@];
    &&& dep.pkg@ != node.id@
    &&& dep.dep_kinds@.contains(DependencyKind::Normal)
    &&& match change {
        ChangeKind::Breaking => state.breaking.contains(name),
        ChangeKind::Additive => state.additive.contains(name) && !state.breaking.contains(name),
        _ => false,
    }
}

/// `at` are the positions, ascending, of the dependencies that the wave has reached.
pub open spec fn reached_at(
    node: Node,
    names: Map<Seq<char>, Seq<char>>,
    state: WaveView,
    n: nat,
    at: Seq<int>,
) -> bool {
    &&& forall|k: int, l: int| 0 <= k < l < at.len() ==> at[k] < at[l]
    &&& forall|i: int, change: ChangeKind|
        0 <= i < n && #[trigger] is_reached(node, names, state, i, change) ==> at.contains(i)
    &&& forall|k: int| 0 <= k < at.len() ==> 0 <= #[trigger] at[k] < n
}

/// The affected dependencies are those that the wave has reached, each as often and
/// in the order in which the node has it, by its name and with its change.
pub proof fn law_affected_are_the_reached(node: Node, ctx: WorkspaceContext, state: WaveView)
    ensures
        exists|at: Seq<int>| #[trigger]
            reached_at(node, ctx.names(), state, node.deps@.len(), at) && lists_deps(
                node,
                ctx.names(),
                state,
                at,
                affected(node, ctx, state),
            ),
{
    lemma_affected(node, ctx.names(), state, node.deps@.len());
}

/// The list has the dependencies at these positions, by name and with their change.
pub open spec fn lists_deps(
    node: Node,
    names: Map<Seq<char>, Seq<char>>,
    state: WaveView,
    at: Seq<int>,
    list: Seq<AffectedView>,
) -> bool {
    &&& list.len() == at.len()
    &&& forall|k: int|
        0 <= k < list.len() ==> (#[trigger] list[k]).name == names[node.deps@[at[k]].pkg@]
            && is_reached(node, names, state, at[k], list[k].change)
}

proof fn lemma_affected(node: Node, names: Map<Seq<char>, Seq<char>>, state: WaveView, n: nat)
    requires
        n <= node.deps@.len(),
    ensures
        exists|at: Seq<int>| #[trigger]
            reached_at(node, names, state, n, at) && lists_deps(
                node,
                names,
                state,
                at,
                affected_deps(node, names, state, n),
            ),
    decreases n,
{
    let list = affected_deps(node, names, state, n);
    if n == 0 {
        let at = Seq::<int>::empty();
        assert(reached_at(node, names, state, n, at) && lists_deps(node, names, state, at, list));
    } else {
        let m = (n - 1) as nat;
        lemma_affected(node, names, state, m);
        let before = affected_deps(node, names, state, m);
        let had = choose|at: Seq<int>| #[trigger]
            reached_at(node, names, state, m, at) && lists_deps(node, names, state, at, before);
        if list == before {
            assert forall|i: int, change: ChangeKind|
                0 <= i < n && #[trigger] is_reached(node, names, state, i, change) implies had.contains(
                i,
            ) by {
                if i == m {
                    assert(list.len() == before.len() + 1);
                }
            }
            assert(reached_at(node, names, state, n, had) && lists_deps(
                node,
                names,
                state,
                had,
                list,
            ));
        } else {
            let at = had.push(m as int);
            assert forall|i: int, change: ChangeKind|
                0 <= i < n && #[trigger] is_reached(node, names, state, i, change) implies at.contains(
                i,
            ) by {
                if i < m {
                    let k = choose|k: int| 0 <= k < had.len() && had[k] == i;
                    assert(at[k] == i);
                } else {
                    assert(at[had.len() as int] == i);
                }
            }
            assert forall|k: int| 0 <= k < list.len() implies (#[trigger] list[k]).name
                == names[node.deps@[at[k]].pkg@] && is_reached(
                node,
                names,
                state,
                at[k],
                list[k].change,
            ) by {
                if k < before.len() {
                    assert(list[k] == before[k]);
                    assert(at[k] == had[k]);
                }
            }
            assert(reached_at(node, names, state, n, at) && lists_deps(
                node,
                names,
                state,
                at,
                list,
            ));
        }
    }
}

/// Without its documentation a crate is assumed to change as the worst of its
/// dependencies, and each of them is held to account for the whole bump.
pub proof fn law_fallback_assumes_the_worst(deps: Seq<AffectedView>, version: Option<Version>)
    requires
        deps.len() > 0,
    ensures
        ({
            let r = fallback(deps, version);
            &&& exists|i: int| 0 <= i < deps.len() && (#[trigger] deps[i]).change == r.change
            &&& forall|i: int|
                0 <= i < deps.len() ==> (#[trigger] deps[i]).change.rank() <= r.change.rank()
            &&& r.bump == bump_or(version, r.change, Bump::Minor)
            &&& r.influences.len() == deps.len()
            &&& forall|i: int|
                0 <= i < deps.len() ==> #[trigger] r.influences[i] == (InfluenceView {
                    dep: deps[i].name,
                    bump: r.bump,
                })
        }),
{
    lemma_worst_of(deps);
}

/// Two names are the same up to hyphens and underscores.
pub open spec fn same_name(a: Seq<char>, b: Seq<char>) -> bool {
    &&& a.len() == b.len()
    &&& forall|i: int|
        0 <= i < a.len() ==> (#[trigger] a[i] == b[i] || (a[i] == '-' && b[i] == '_') || (a[i]
            == '_' && b[i] == '-'))
}

/// An item of the documentation refers to a crate with the name `dep`, up to hyphens
/// and underscores.
pub open spec fn exposes_crate(docs: DocsView, dep: Seq<char>) -> bool {
    exists|item: u32, r: CrateRef|
        docs.items.dom().contains(item) && #[trigger] docs.items[item].refers_to(docs.paths, r)
            && docs.external_crates.dom().contains(r.0) && same_name(docs.external_crates[r.0], dep)
}

/// What each dependency does to a crate: one that the public API of the crate exposes
/// asks for the bump of its own change, any other for a patch. The crate changes as
/// the worst of those that it exposes, or by a patch.
pub proof fn law_exposed_deps_hand_their_change_on(
    node_name: Seq<char>,
    docs: DocsView,
    deps: Seq<AffectedView>,
    version: Option<Version>,
    verbose: bool,
)
    ensures
        ({
            let r = analysis(node_name, docs, deps, version, verbose).0;
            &&& r.influences.len() == deps.len()
            &&& forall|i: int|
                0 <= i < deps.len() ==> #[trigger] r.influences[i] == (InfluenceView {
                    dep: deps[i].name,
                    bump: if exposes_crate(docs, deps[i].name) {
                        bump_or(version, deps[i].change, Bump::Minor)
                    } else {
                        Bump::Patch
                    },
                })
            &&& r.change.rank() >= ChangeKind::Patch.rank()
            &&& forall|i: int|
                0 <= i < deps.len() && exposes_crate(docs, (#[trigger] deps[i]).name)
                    ==> deps[i].change.rank() <= r.change.rank()
            &&& r.change == ChangeKind::Patch || exists|i: int|
                0 <= i < deps.len() && exposes_crate(docs, (#[trigger] deps[i]).name)
                    && deps[i].change == r.change
            &&& r.bump == bump_or(version, r.change, Bump::Patch)
        }),
{
    let leaked = leaked_deps(docs, relevant_crates(docs.external_crates, deps));
    lemma_weigh(node_name, leaked, deps, version, verbose, deps.len());
    law_change_is_worst_leaked(node_name, leaked, deps, version, verbose, deps.len());
    let r = analysis(node_name, docs, deps, version, verbose).0;
    assert forall|i: int| 0 <= i < deps.len() implies is_leaked(leaked, deps, i) == exposes_crate(
        docs,
        (#[trigger] deps[i]).name,
    ) by {
        lemma_exposed(docs, deps, i);
    }
    assert forall|i: int| 0 <= i < deps.len() implies #[trigger] r.influences[i] == (
    InfluenceView {
        dep: deps[i].name,
        bump: if exposes_crate(docs, deps[i].name) {
            bump_or(version, deps[i].change, Bump::Minor)
        } else {
            Bump::Patch
        },
    }) by {
        assert(is_leaked(leaked, deps, i) == exposes_crate(docs, deps[i].name));
    }
    if r.change != ChangeKind::Patch {
        let i = choose|i: int|
            0 <= i < deps.len() && #[trigger] is_leaked(leaked, deps, i) && deps[i].change
                == r.change;
        assert(exposes_crate(docs, deps[i].name));
    }
}

/// Each exposed dependency is reported once, in their order, with the bump that it
/// asks for, and nothing else is reported.
pub proof fn law_exposed_deps_are_reported(
    node_name: Seq<char>,
    docs: DocsView,
    deps: Seq<AffectedView>,
    version: Option<Version>,
    verbose: bool,
)
    ensures
        exists|at: Seq<int>| #[trigger]
            exposed_at(docs, deps, at) && reports_leaks(
                node_name,
                deps,
                version,
                verbose,
                at,
                analysis(node_name, docs, deps, version, verbose).1,
            ),
{
    let leaked = leaked_deps(docs, relevant_crates(docs.external_crates, deps));
    lemma_events(node_name, leaked, deps, version, verbose, deps.len());
    let events = analysis(node_name, docs, deps, version, verbose).1;
    let at = choose|at: Seq<int>| #[trigger]
        leaked_at(leaked, deps, deps.len(), at) && reports_leaks(
            node_name,
            deps,
            version,
            verbose,
            at,
            events,
        );
    assert forall|i: int| 0 <= i < deps.len() implies (at.contains(i) <==> exposes_crate(
        docs,
        (#[trigger] deps[i]).name,
    )) by {
        lemma_exposed(docs, deps, i);
        assert(at.contains(i) == is_leaked(leaked, deps, i));
    }
    assert(exposed_at(docs, deps, at));
}

/// `at` are the positions, ascending, of the exposed dependencies.
pub open spec fn exposed_at(docs: DocsView, deps: Seq<AffectedView>, at: Seq<int>) -> bool {
    &&& forall|k: int, l: int| 0 <= k < l < at.len() ==> at[k] < at[l]
    &&& forall|k: int| 0 <= k < at.len() ==> 0 <= #[trigger] at[k] < deps.len()
    &&& forall|i: int|
        0 <= i < deps.len() ==> (at.contains(i) <==> exposes_crate(docs, (#[trigger] deps[i]).name))
}

/// The events report the dependencies at these positions, with details only where
/// these are asked for.
pub open spec fn reports_leaks(
    node_name: Seq<char>,
    deps: Seq<AffectedView>,
    version: Option<Version>,
    verbose: bool,
    at: Seq<int>,
    events: Seq<EventView>,
) -> bool {
    &&& events.len() == at.len()
    &&& forall|k: int|
        0 <= k < events.len() ==> (#[trigger] events[k] matches EventView::LeakDetected {
            crate_name,
            dep,
            bump,
            details,
        } && crate_name == node_name && dep == deps[at[k]].name && bump == bump_or(
            version,
            deps[at[k]].change,
            Bump::Minor,
        ) && (!verbose ==> details.len() == 0))
}

spec fn leaked_at(
    leaked: Map<Seq<char>, Seq<LeakView>>,
    deps: Seq<AffectedView>,
    n: nat,
    at: Seq<int>,
) -> bool {
    &&& forall|k: int, l: int| 0 <= k < l < at.len() ==> at[k] < at[l]
    &&& forall|k: int| 0 <= k < at.len() ==> 0 <= #[trigger] at[k] < n
    &&& forall|i: int| 0 <= i < n ==> (at.contains(i) <==> #[trigger] is_leaked(leaked, deps, i))
}

proof fn lemma_events(
    node_name: Seq<char>,
    leaked: Map<Seq<char>, Seq<LeakView>>,
    deps: Seq<AffectedView>,
    version: Option<Version>,
    verbose: bool,
    n: nat,
)
    requires
        n <= deps.len(),
    ensures
        exists|at: Seq<int>| #[trigger]
            leaked_at(leaked, deps, n, at) && reports_leaks(
                node_name,
                deps,
                version,
                verbose,
                at,
                weigh(node_name, leaked, deps, version, verbose, n).2,
            ),
    decreases n,
{
    let events = weigh(node_name, leaked, deps, version, verbose, n).2;
    if n == 0 {
        let at = Seq::<int>::empty();
        assert(leaked_at(leaked, deps, n, at) && reports_leaks(
            node_name,
            deps,
            version,
            verbose,
            at,
            events,
        ));
    } else {
        let m = (n - 1) as nat;
        lemma_events(node_name, leaked, deps, version, verbose, m);
        let before = weigh(node_name, leaked, deps, version, verbose, m).2;
        let had = choose|at: Seq<int>| #[trigger]
            leaked_at(leaked, deps, m, at) && reports_leaks(
                node_name,
                deps,
                version,
                verbose,
                at,
                before,
            );
        let last = m as int;
        if is_leaked(leaked, deps, last) {
            let at = had.push(last);
            assert(at[had.len() as int] == last);
            assert forall|i: int| 0 <= i < n implies (at.contains(i) <==> #[trigger] is_leaked(
                leaked,
                deps,
                i,
            )) by {
                if i < m {
                    assert(had.contains(i) <==> is_leaked(leaked, deps, i));
                    if had.contains(i) {
                        let k = choose|k: int| 0 <= k < had.len() && had[k] == i;
                        assert(at[k] == i);
                    }
                    if at.contains(i) {
                        let k = choose|k: int| 0 <= k < at.len() && at[k] == i;
                        assert(had[k] == i);
                    }
                }
            }
            assert forall|k: int| 0 <= k < events.len() implies (
            #[trigger] events[k] matches EventView::LeakDetected { crate_name, dep, bump, details }
                && crate_name == node_name && dep == deps[at[k]].name && bump == bump_or(
                version,
                deps[at[k]].change,
                Bump::Minor,
            ) && (!verbose ==> details.len() == 0)) by {
                if k < before.len() {
                    assert(events[k] == before[k]);
                    assert(at[k] == had[k]);
                }
            }
            assert(leaked_at(leaked, deps, n, at) && reports_leaks(
                node_name,
                deps,
                version,
                verbose,
                at,
                events,
            ));
        } else {
            assert(events == before);
            assert forall|i: int| 0 <= i < n implies (had.contains(i) <==> #[trigger] is_leaked(
                leaked,
                deps,
                i,
            )) by {
                if had.contains(i) {
                    let k = choose|k: int| 0 <= k < had.len() && had[k] == i;
                    assert(0 <= had[k] < m);
                }
            }
            assert(leaked_at(leaked, deps, n, had) && reports_leaks(
                node_name,
                deps,
                version,
                verbose,
                had,
                events,
            ));
        }
    }
}

proof fn lemma_weigh(
    node_name: Seq<char>,
    leaked: Map<Seq<char>, Seq<LeakView>>,
    deps: Seq<AffectedView>,
    version: Option<Version>,
    verbose: bool,
    n: nat,
)
    requires
        n <= deps.len(),
    ensures
        ({
            let influences = weigh(node_name, leaked, deps, version, verbose, n).1;
            &&& influences.len() == n
            &&& forall|i: int|
                0 <= i < n ==> #[trigger] influences[i] == (InfluenceView {
                    dep: deps[i].name,
                    bump: if is_leaked(leaked, deps, i) {
                        bump_or(version, deps[i].change, Bump::Minor)
                    } else {
                        Bump::Patch
                    },
                })
        }),
    decreases n,
{
    if n > 0 {
        lemma_weigh(node_name, leaked, deps, version, verbose, (n - 1) as nat);
    }
}

proof fn lemma_same_name(a: Seq<char>, b: Seq<char>)
    ensures
        same_name(a, b) <==> underscored(a) == underscored(b),
{
    if same_name(a, b) {
        assert(underscored(a) =~= underscored(b)) by {
            assert forall|i: int| 0 <= i < a.len() implies underscored(a)[i] == underscored(
                b,
            )[i] by {
                assert(a[i] == b[i] || (a[i] == '-' && b[i] == '_') || (a[i] == '_' && b[i]
                    == '-'));
            }
        }
    }
    if underscored(a) == underscored(b) {
        assert(underscored(a).len() == a.len());
        assert(underscored(b).len() == b.len());
        assert forall|i: int| 0 <= i < a.len() implies (#[trigger] a[i] == b[i] || (a[i] == '-'
            && b[i] == '_') || (a[i] == '_' && b[i] == '-')) by {
            assert(underscored(a)[i] == underscored(b)[i]);
        }
    }
}

proof fn lemma_exposed(docs: DocsView, deps: Seq<AffectedView>, i: int)
    requires
        0 <= i < deps.len(),
    ensures
        is_leaked(
            leaked_deps(docs, relevant_crates(docs.external_crates, deps)),
            deps,
            i,
        ) == exposes_crate(docs, deps[i].name),
{
    let crates = docs.external_crates;
    let known = relevant_crates(crates, deps);
    let leaked = leaked_deps(docs, known);
    let dep = deps[i].name;
    if is_leaked(leaked, deps, i) {
        let name = choose|name: Seq<char>| #[trigger]
            leaked.dom().contains(name) && underscored(name) == underscored(dep);
        law_leaked_iff_referred_to(docs, known, name);
        let (item, r) = choose|item: u32, r: CrateRef|
            docs.items.dom().contains(item) && #[trigger] docs.items[item].refers_to(docs.paths, r)
                && known.dom().contains(r.0) && known[r.0] == name;
        lemma_same_name(crates[r.0], dep);
        assert(docs.items[item].refers_to(docs.paths, r));
    }
    if exposes_crate(docs, dep) {
        let (item, r) = choose|item: u32, r: CrateRef|
            docs.items.dom().contains(item) && #[trigger] docs.items[item].refers_to(docs.paths, r)
                && crates.dom().contains(r.0) && same_name(crates[r.0], dep);
        let name = crates[r.0];
        lemma_same_name(name, dep);
        assert(underscored(deps[i].name) == underscored(name));
        assert(names_one_of(name, deps));
        assert(known.dom().contains(r.0) && known[r.0] == name);
        law_leaked_iff_referred_to(docs, known, name);
        assert(docs.items[item].refers_to(docs.paths, r));
        assert(leaked.dom().contains(name));
    }
}

/// With details asked for, the report of an exposed dependency shows each entry of
/// the leaks under the dependency's name, up to hyphens and underscores, and nothing
/// else.
pub proof fn law_details_are_the_leaks(
    node_name: Seq<char>,
    docs: DocsView,
    deps: Seq<AffectedView>,
    version: Option<Version>,
    k: int,
    detail: LeakDetailView,
)
    requires
        0 <= k < analysis(node_name, docs, deps, version, true).1.len(),
    ensures
        ({
            let known = relevant_crates(docs.external_crates, deps);
            analysis(node_name, docs, deps, version, true).1[k] matches EventView::LeakDetected {
                dep,
                details,
                ..
            } && (details.contains(detail) <==> exists|name: Seq<char>, leak: LeakView|
                same_name(name, dep) && #[trigger] leaks(docs, known, name).contains(leak)
                    && detail == (LeakDetailView {
                    item_kind: leak.item_kind,
                    item_name: leak.item_name,
                    leaked_types: ascending(leak.leaked_types),
                }))
        }),
{
    let known = relevant_crates(docs.external_crates, deps);
    let leaked = leaked_deps(docs, known);
    let names = ascending(leaked.dom());
    lemma_details(node_name, leaked, deps, version, deps.len());
    let event = analysis(node_name, docs, deps, version, true).1[k];
    assert(has_details(leaked, event));
    lemma_leaked_finite(docs, known);
    lemma_ascending_of(leaked.dom());
    if let EventView::LeakDetected { dep, details, .. } = event {
        lemma_reported(leaked, names, dep, names.len(), detail);
        if details.contains(detail) {
            let (j, leak) = choose|j: int, leak: LeakView|
                0 <= j < names.len() && underscored(names[j]) == underscored(dep)
                    && #[trigger] leaked[names[j]].contains(leak) && detail == reported_leak(leak);
            lemma_same_name(names[j], dep);
            assert(names.to_set().contains(names[j]));
            assert(leaks(docs, known, names[j]).contains(leak));
        }
        if exists|name: Seq<char>, leak: LeakView|
            same_name(name, dep) && #[trigger] leaks(docs, known, name).contains(leak) && detail
                == (LeakDetailView {
                item_kind: leak.item_kind,
                item_name: leak.item_name,
                leaked_types: ascending(leak.leaked_types),
            }) {
            let (name, leak) = choose|name: Seq<char>, leak: LeakView|
                same_name(name, dep) && #[trigger] leaks(docs, known, name).contains(leak)
                    && detail == (LeakDetailView {
                    item_kind: leak.item_kind,
                    item_name: leak.item_name,
                    leaked_types: ascending(leak.leaked_types),
                });
            lemma_same_name(name, dep);
            assert(leaked.dom().contains(name));
            assert(names.to_set().contains(name));
            let j = choose|j: int| 0 <= j < names.len() && names[j] == name;
            assert(leaked[names[j]].contains(leak));
        }
    }
}

spec fn has_details(leaked: Map<Seq<char>, Seq<LeakView>>, event: EventView) -> bool {
    let names = ascending(leaked.dom());
    event matches EventView::LeakDetected { dep, details, .. } && details == reported_leaks(
        leaked,
        names,
        dep,
        names.len(),
    )
}

proof fn lemma_details(
    node_name: Seq<char>,
    leaked: Map<Seq<char>, Seq<LeakView>>,
    deps: Seq<AffectedView>,
    version: Option<Version>,
    n: nat,
)
    requires
        n <= deps.len(),
    ensures
        forall|k: int|
            0 <= k < weigh(node_name, leaked, deps, version, true, n).2.len() ==> has_details(
                leaked,
                #[trigger] weigh(node_name, leaked, deps, version, true, n).2[k],
            ),
    decreases n,
{
    if n > 0 {
        lemma_details(node_name, leaked, deps, version, (n - 1) as nat);
        let before = weigh(node_name, leaked, deps, version, true, (n - 1) as nat).2;
        let events = weigh(node_name, leaked, deps, version, true, n).2;
        assert forall|k: int| 0 <= k < events.len() implies has_details(
            leaked,
            #[trigger] events[k],
        ) by {
            if k < before.len() {
                assert(events[k] == before[k]);
            }
        }
    }
}

proof fn lemma_reported(
    leaked: Map<Seq<char>, Seq<LeakView>>,
    names: Seq<Seq<char>>,
    dep: Seq<char>,
    n: nat,
    detail: LeakDetailView,
)
    requires
        n <= names.len(),
    ensures
        reported_leaks(leaked, names, dep, n).contains(detail) <==> exists|j: int, leak: LeakView|
            0 <= j < n && underscored(names[j]) == underscored(dep)
                && #[trigger] leaked[names[j]].contains(leak) && detail == reported_leak(leak),
    decreases n,
{
    if n > 0 {
        let m = (n - 1) as nat;
        lemma_reported(leaked, names, dep, m, detail);
        let before = reported_leaks(leaked, names, dep, m);
        let all = reported_leaks(leaked, names, dep, n);
        let name = names[n - 1];
        let shown = leaked[name].map_values(|leak: LeakView| reported_leak(leak));
        if underscored(name) == underscored(dep) {
            assert(all == before + shown);
            if before.contains(detail) {
                let k = choose|k: int| 0 <= k < before.len() && before[k] == detail;
                assert(all[k] == detail);
            }
            if all.contains(detail) {
                let k = choose|k: int| 0 <= k < all.len() && all[k] == detail;
                if k < before.len() {
                    assert(before[k] == detail);
                } else {
                    let leak = leaked[name][k - before.len()];
                    assert(shown[k - before.len()] == reported_leak(leak));
                    assert(leaked[names[n - 1]].contains(leak));
                }
            }
            if exists|leak: LeakView| #[trigger]
                leaked[names[n - 1]].contains(leak) && detail == reported_leak(leak) {
                let leak = choose|leak: LeakView| #[trigger]
                    leaked[names[n - 1]].contains(leak) && detail == reported_leak(leak);
                let k = choose|k: int| 0 <= k < leaked[name].len() && leaked[name][k] == leak;
                assert(all[before.len() + k] == shown[k]);
                assert(all[before.len() + k] == detail);
            }
        }
    }
}

proof fn lemma_leaked_finite(docs: DocsView, deps: Map<u32, Seq<char>>)
    ensures
        leaked_deps(docs, deps).dom().finite(),
{
    let ids = ascending_ids(deps.dom());
    let names = ids.map_values(|id: u32| deps[id]);
    let leaked = leaked_deps(docs, deps).dom();
    lemma_ascending_ids(deps.dom());
    vstd::seq_lib::seq_to_set_is_finite(names);
    assert forall|name: Seq<char>| leaked.contains(name) implies names.to_set().contains(name) by {
        law_leaks_come_from_given_deps(docs, deps, name);
        let id = choose|id: u32| #[trigger]
            deps.dom().contains(id) && id != 0 && deps[id] == name;
        assert(ids.contains(id));
        let k = choose|k: int| 0 <= k < ids.len() && ids[k] == id;
        assert(names[k] == name);
    }
    vstd::set_lib::lemma_set_subset_finite(names.to_set(), leaked);
}

/// The crate stays as it is: it has no affected dependency, or changes in a breaking
/// way already and the tree is not asked for, or has no public API and such crates are
/// not asked for.
pub open spec fn is_left_alone(
    node: Node,
    ctx: WorkspaceContext,
    state: WaveView,
    cli: Cli,
) -> bool {
    let name = ctx.names()[node.id@];
    ||| affected(node, ctx, state).len() == 0
    ||| state.breaking.contains(name) && !cli.tree
    ||| !ctx.pkg_has_lib@.contains(name) && !cli.include_binaries
}

/// A crate that is left alone neither changes nor is reported, whatever its
/// documentation is.
pub proof fn law_left_alone_means_unchanged(
    node: Node,
    ctx: WorkspaceContext,
    state: WaveView,
    cli: Cli,
    rustdoc: Option<RustdocOutcome>,
)
    requires
        is_left_alone(node, ctx, state, cli),
    ensures
        ({
            let (result, failed, events) = evaluation(node, ctx, state, cli, rustdoc);
            &&& result matches EvaluationView::Done(bump) && bump.change == ChangeKind::Unchanged
                && bump.bump == Bump::Unchanged && bump.influences.len() == 0
            &&& failed == state.failed
            &&& events.len() == 0
        }),
{
}

/// A crate without a public API that is not left alone needs a patch, for each of its
/// affected dependencies, and the run says so.
pub proof fn law_binary_needs_a_patch(
    node: Node,
    ctx: WorkspaceContext,
    state: WaveView,
    cli: Cli,
    rustdoc: Option<RustdocOutcome>,
)
    requires
        !is_left_alone(node, ctx, state, cli),
        !ctx.pkg_has_lib@.contains(ctx.names()[node.id@]),
    ensures
        ({
            let (result, failed, events) = evaluation(node, ctx, state, cli, rustdoc);
            let deps = affected(node, ctx, state);
            &&& result matches EvaluationView::Done(bump) && bump.change == ChangeKind::Patch
                && bump.bump == Bump::Patch && bump.influences.len() == deps.len() && (forall|
                i: int,
            |
                0 <= i < deps.len() ==> #[trigger] bump.influences[i] == (InfluenceView {
                    dep: deps[i].name,
                    bump: Bump::Patch,
                }))
            &&& failed == state.failed
            &&& events == seq![EventView::BinaryCrateSkipped { name: ctx.names()[node.id@] }]
        }),
{
}

/// A library that is not left alone has its documentation asked for, by its manifest,
/// and the run names the crate and its affected dependencies. Without a manifest the
/// evaluation fails.
pub proof fn law_library_needs_its_documentation(
    node: Node,
    ctx: WorkspaceContext,
    state: WaveView,
    cli: Cli,
)
    requires
        !is_left_alone(node, ctx, state, cli),
        ctx.pkg_has_lib@.contains(ctx.names()[node.id@]),
    ensures
        ({
            let name = ctx.names()[node.id@];
            let deps = affected(node, ctx, state);
            let (result, failed, events) = evaluation(node, ctx, state, cli, None);
            &&& ctx.manifests().dom().contains(name) ==> result == EvaluationView::NeedsRustdoc(
                ctx.manifests()[name],
            )
            &&& !ctx.manifests().dom().contains(name) ==> result == EvaluationView::Failed(
                EvaluateError::NoManifestPath,
            )
            &&& failed == state.failed
            &&& events.len() == 1
            &&& events[0] matches EventView::AnalyzingCrate { name: told, deps: names } && told
                == name && names.len() == deps.len() && (forall|i: int|
                0 <= i < deps.len() ==> #[trigger] names[i] == deps[i].name)
        }),
{
}

/// Once there is something to say of the documentation, it decides: what can be read is
/// analysed, what cannot be read is an error, and where it could not be generated the
/// crate is among the failed ones and the worst is assumed.
pub proof fn law_documentation_decides(
    node: Node,
    ctx: WorkspaceContext,
    state: WaveView,
    cli: Cli,
    rustdoc: RustdocOutcome,
)
    requires
        !is_left_alone(node, ctx, state, cli),
        ctx.pkg_has_lib@.contains(ctx.names()[node.id@]),
        ctx.manifests().dom().contains(ctx.names()[node.id@]),
    ensures
        ({
            let name = ctx.names()[node.id@];
            let deps = affected(node, ctx, state);
            let version = ctx.version(name);
            let (result, failed, events) = evaluation(node, ctx, state, cli, Some(rustdoc));
            match rustdoc {
                RustdocOutcome::Built(json) => {
                    &&& failed == state.failed
                    &&& match rustdoc_document(json@) {
                        Some(docs) => {
                            let found = analysis(name, docs, deps, version, cli.verbose);
                            result == EvaluationView::Done(found.0) && events == found.1
                        },
                        None => result == EvaluationView::Failed(EvaluateError::UnreadableDocs)
                            && events.len() == 0,
                    }
                },
                RustdocOutcome::Failed(error) => {
                    &&& failed == state.failed.insert(name)
                    &&& result == EvaluationView::Done(fallback(deps, version))
                    &&& events == seq![
                        EventView::RustdocFailed {
                            crate_name: name,
                            error: error@,
                            conservative_bump: fallback(deps, version).bump,
                        },
                    ]
                },
            }
        }),
{
}

} // verus!
