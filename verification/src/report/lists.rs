//! The lists of crates that need a bump.
use vstd::prelude::*;

use crate::display::{influence_tree, print_influence_tree};
use crate::evaluate::WorkspaceContext;
use crate::laws::bumps::{
    bumped_too_little, law_too_small_bump_is_an_error, reports_too_little,
};
use crate::names::{ascending, lemma_ascending_of, NameMap, NameSet};
use crate::propagate::{is_covered, settled, PropagationResult, ReachView};
use crate::report::event::{Event, EventView};
use crate::report::sink::EventSink;
use crate::semver::{bump_or, required_bump_or, Bump, ChangeKind};
use crate::text::texts;
use crate::types::{CrateName, MissingBumpItem, MissingBumpView, UnderBumpedItem, UnderBumpedView};

verus! {

/// The crates that need a major, a minor or a patch bump.
#[derive(Debug)]
pub struct BumpLists {
    pub major: NameSet,
    pub minor: NameSet,
    pub patch: NameSet,
}

/// The crates that need a major, a minor or a patch bump.
#[verifier::ext_equal]
pub struct ListsView {
    pub major: Set<Seq<char>>,
    pub minor: Set<Seq<char>>,
    pub patch: Set<Seq<char>>,
}

impl View for BumpLists {
    type V = ListsView;

    open spec fn view(&self) -> ListsView {
        ListsView { major: self.major@, minor: self.minor@, patch: self.patch@ }
    }
}

/// The bump that a breaking change of the crate `name` calls for.
pub open spec fn breaking_bump(ctx: WorkspaceContext, name: Seq<char>) -> Bump {
    bump_or(ctx.version(name), ChangeKind::Breaking, Bump::Minor)
}

/// The bump that an additive change of the crate `name` calls for.
pub open spec fn additive_bump(ctx: WorkspaceContext, name: Seq<char>) -> Bump {
    bump_or(ctx.version(name), ChangeKind::Additive, Bump::Patch)
}

/// The lists that follow from what a wave has reached.
pub open spec fn bump_lists(ctx: WorkspaceContext, reach: ReachView) -> ListsView {
    ListsView {
        major: Set::new(
            |name: Seq<char>|
                reach.breaking.contains(name) && breaking_bump(ctx, name) == Bump::Major,
        ),
        minor: Set::new(
            |name: Seq<char>|
                (reach.breaking.contains(name) && breaking_bump(ctx, name) != Bump::Major) || (
                reach.additive.contains(name) && additive_bump(ctx, name) == Bump::Minor),
        ),
        patch: Set::new(
            |name: Seq<char>|
                reach.patch.contains(name) || (reach.additive.contains(name) && additive_bump(
                    ctx,
                    name,
                ) != Bump::Minor),
        ),
    }
}

/// Work out the lists that follow from what a wave has reached.
pub fn compute_lists(ctx: &WorkspaceContext, result: &PropagationResult) -> (lists: BumpLists)
    ensures
        lists@ == bump_lists(*ctx, result@),
{
    let mut lists = BumpLists {
        major: NameSet::new(),
        minor: NameSet::new(),
        patch: result.patch_crates.clone(),
    };
    let breaking = result.state.breaking_crates.names();
    let ghost all = texts(breaking@);
    for i in 0..breaking.len()
        invariant
            all == texts(breaking@),
            lists.patch@ == result.patch_crates@,
            forall|name: Seq<char>| #[trigger]
                lists.major@.contains(name) <==> breaking_bump(*ctx, name) == Bump::Major
                    && exists|k: int| 0 <= k < i && #[trigger] all[k] == name,
            forall|name: Seq<char>| #[trigger]
                lists.minor@.contains(name) <==> breaking_bump(*ctx, name) != Bump::Major
                    && exists|k: int| 0 <= k < i && #[trigger] all[k] == name,
    {
        let name = &breaking[i];
        assert(all[i as int] == name@);
        let bump = required_bump_or(
            ctx.pkg_versions.get(name.as_str()),
            ChangeKind::Breaking,
            Bump::Minor,
        );
        match bump {
            Bump::Major => {
                lists.major.insert(name.clone());
            },
            _ => {
                lists.minor.insert(name.clone());
            },
        }
    }
    let ghost first = lists@;
    let ghost breaking_set = result.state.breaking_crates@;
    assert forall|name: Seq<char>| #[trigger] breaking_set.contains(name) <==> exists|k: int|
        0 <= k < all.len() && #[trigger] all[k] == name by {
        assert(all.to_set().contains(name) <==> all.contains(name));
    }
    let additive = result.state.additive_crates.names();
    let ghost rest = texts(additive@);
    for i in 0..additive.len()
        invariant
            rest == texts(additive@),
            lists.major@ == first.major,
            forall|name: Seq<char>| #[trigger]
                lists.minor@.contains(name) <==> first.minor.contains(name) || (additive_bump(
                    *ctx,
                    name,
                ) == Bump::Minor && exists|k: int| 0 <= k < i && #[trigger] rest[k] == name),
            forall|name: Seq<char>| #[trigger]
                lists.patch@.contains(name) <==> first.patch.contains(name) || (additive_bump(
                    *ctx,
                    name,
                ) != Bump::Minor && exists|k: int| 0 <= k < i && #[trigger] rest[k] == name),
    {
        let name = &additive[i];
        assert(rest[i as int] == name@);
        let bump = required_bump_or(
            ctx.pkg_versions.get(name.as_str()),
            ChangeKind::Additive,
            Bump::Patch,
        );
        match bump {
            Bump::Minor => {
                lists.minor.insert(name.clone());
            },
            _ => {
                lists.patch.insert(name.clone());
            },
        }
    }
    let ghost additive_set = result.state.additive_crates@;
    assert forall|name: Seq<char>| #[trigger] additive_set.contains(name) <==> exists|k: int|
        0 <= k < rest.len() && #[trigger] rest[k] == name by {
        assert(rest.to_set().contains(name) <==> rest.contains(name));
    }
    assert(lists@ =~= bump_lists(*ctx, result@));
    lists
}

/// What is reported of the results: the influence tree where it is wanted, the
/// three lists, and the crates whose documentation failed.
pub open spec fn result_events(
    ctx: WorkspaceContext,
    reach: ReachView,
    seeds: Set<Seq<char>>,
    show_tree: bool,
) -> Seq<EventView> {
    let lists = bump_lists(ctx, reach);
    let tree = if show_tree {
        seq![
            EventView::InfluenceTreeHeader,
            EventView::InfluenceTree { nodes: influence_tree(reach.edges, seeds) },
        ]
    } else {
        Seq::empty()
    };
    let summary = seq![
        EventView::AnalysisCompleteHeader,
        EventView::BumpList { level: Bump::Major, names: lists.major },
        EventView::BumpList { level: Bump::Minor, names: lists.minor },
        EventView::BumpList { level: Bump::Patch, names: lists.patch },
    ];
    let failed = if reach.failed =~= Set::empty() {
        Seq::empty()
    } else {
        seq![EventView::FailedRustdocSummary { names: reach.failed }]
    };
    tree + summary + failed
}

/// Compute the final MAJOR/MINOR/PATCH lists from propagation results,
/// report the influence tree (if requested) and the summary.
pub fn print_results<S: EventSink>(
    ctx: &WorkspaceContext,
    result: &PropagationResult,
    all_seeds: &NameSet,
    show_tree: bool,
    sink: &mut S,
) -> (lists: BumpLists)
    ensures
        lists@ == bump_lists(*ctx, result@),
        final(sink).emitted() == old(sink).emitted() + result_events(
            *ctx,
            result@,
            all_seeds@,
            show_tree,
        ),
{
    let lists = compute_lists(ctx, result);
    if show_tree {
        sink.emit(Event::InfluenceTreeHeader);
        print_influence_tree(all_seeds, &result.tree_edges, sink);
    }
    sink.emit(Event::AnalysisCompleteHeader);
    sink.emit(Event::BumpList { level: Bump::Major, names: lists.major.clone() });
    sink.emit(Event::BumpList { level: Bump::Minor, names: lists.minor.clone() });
    sink.emit(Event::BumpList { level: Bump::Patch, names: lists.patch.clone() });
    if !result.state.failed.is_empty() {
        sink.emit(Event::FailedRustdocSummary { names: result.state.failed.clone() });
    }
    assert(sink.emitted() =~= old(sink).emitted() + result_events(
        *ctx,
        result@,
        all_seeds@,
        show_tree,
    ));
    lists
}

/// The bump that each listed crate needs. A crate on several lists counts with
/// the last of them, in the order major, minor, patch.
pub open spec fn required_bumps(lists: ListsView) -> Map<Seq<char>, Bump> {
    Map::new(
        |name: Seq<char>|
            lists.major.contains(name) || lists.minor.contains(name) || lists.patch.contains(name),
        |name: Seq<char>|
            if lists.patch.contains(name) {
                Bump::Patch
            } else if lists.minor.contains(name) {
                Bump::Minor
            } else {
                Bump::Major
            },
    )
}

/// `required` with `level` for each of `names`.
spec fn leveled(
    required: Map<Seq<char>, Bump>,
    names: Set<Seq<char>>,
    level: Bump,
) -> Map<Seq<char>, Bump> {
    required.union_prefer_right(
        Map::new(|name: Seq<char>| names.contains(name), |name: Seq<char>| level),
    )
}

fn require(required: &mut NameMap<Bump>, names: &NameSet, level: Bump)
    ensures
        final(required)@ == leveled(old(required)@, names@, level),
{
    let ghost before = required@;
    let list = names.names();
    let ghost all = texts(list@);
    assert(required@ =~= leveled(before, all.take(0).to_set(), level));
    for i in 0..list.len()
        invariant
            all == texts(list@),
            required@ == leveled(before, all.take(i as int).to_set(), level),
    {
        let ghost few = all.take(i as int);
        let ghost more = all.take(i + 1);
        required.insert(list[i].clone(), level);
        assert(more =~= few.push(all[i as int]));
        assert forall|name: Seq<char>| #[trigger] more.to_set().contains(name) <==> few.to_set().insert(
            all[i as int],
        ).contains(name) by {
            if few.contains(name) {
                let k = choose|k: int| 0 <= k < few.len() && few[k] == name;
                assert(more[k] == name);
            }
            assert(more[i as int] == all[i as int]);
        }
        assert(required@ =~= leveled(before, more.to_set(), level));
    }
    assert(all.take(list.len() as int) =~= all);
}

/// The crates among the first `n` of `names` whose own bump is too small.
pub open spec fn under_bumped(
    required: Map<Seq<char>, Bump>,
    bumps: Map<Seq<char>, Bump>,
    failed: Set<Seq<char>>,
    names: Seq<Seq<char>>,
    n: nat,
) -> Seq<UnderBumpedView>
    decreases n,
{
    if n == 0 {
        Seq::empty()
    } else {
        let before = under_bumped(required, bumps, failed, names, (n - 1) as nat);
        let name = names[n - 1];
        if !failed.contains(name) && bumps.dom().contains(name) && bumps[name].rank()
            < required[name].rank() {
            before.push(
                UnderBumpedView { name, required: required[name], local: bumps[name] },
            )
        } else {
            before
        }
    }
}

/// The crates among the first `n` of `names` that have no bump of their own.
pub open spec fn missing_bumps(
    required: Map<Seq<char>, Bump>,
    bumps: Map<Seq<char>, Bump>,
    failed: Set<Seq<char>>,
    new_crates: Set<Seq<char>>,
    names: Seq<Seq<char>>,
    n: nat,
) -> Seq<MissingBumpView>
    decreases n,
{
    if n == 0 {
        Seq::empty()
    } else {
        let before = missing_bumps(required, bumps, failed, new_crates, names, (n - 1) as nat);
        let name = names[n - 1];
        if !bumps.dom().contains(name) && !failed.contains(name) && !new_crates.contains(name) {
            before.push(MissingBumpView { name, required: required[name] })
        } else {
            before
        }
    }
}

/// What is wrong with the local bumps: those that are too small, and, where
/// there is any local bump, those that are missing.
pub open spec fn bump_errors(
    lists: ListsView,
    bumps: Map<Seq<char>, Bump>,
    failed: Set<Seq<char>>,
    new_crates: Set<Seq<char>>,
) -> Seq<EventView> {
    let required = required_bumps(lists);
    let names = ascending(required.dom());
    let under = under_bumped(required, bumps, failed, names, names.len());
    let missing = missing_bumps(required, bumps, failed, new_crates, names, names.len());
    let first = if under.len() > 0 {
        seq![EventView::UnderBumped { items: under }]
    } else {
        Seq::empty()
    };
    let second = if !(bumps.dom() =~= Set::empty()) && missing.len() > 0 {
        seq![EventView::MissingBumps { items: missing }]
    } else {
        Seq::empty()
    };
    first + second
}

/// Check whether local version bumps are sufficient. Returns `true` when
/// there are validation errors (under-bumped or missing bumps).
pub fn validate_bumps<S: EventSink>(
    bump_lists: &BumpLists,
    local_bumps: &NameMap<Bump>,
    failed: &NameSet,
    new_crates: &NameSet,
    sink: &mut S,
) -> (has_errors: bool)
    ensures
        ({
            let errors = bump_errors(bump_lists@, local_bumps@, failed@, new_crates@);
            &&& has_errors == (errors.len() > 0)
            &&& final(sink).emitted() == old(sink).emitted() + errors
        }),
        forall|name: Seq<char>, level: Bump| #[trigger]
            bumped_too_little(bump_lists@, local_bumps@, failed@, name, level) ==> has_errors
                && reports_too_little(
                final(sink).emitted(),
                (UnderBumpedView { name, required: level, local: local_bumps@[name] }),
            ),
{
    let _ = bump_lists.major.names();
    let _ = bump_lists.minor.names();
    let _ = bump_lists.patch.names();
    let mut required: NameMap<Bump> = NameMap::new();
    require(&mut required, &bump_lists.major, Bump::Major);
    require(&mut required, &bump_lists.minor, Bump::Minor);
    require(&mut required, &bump_lists.patch, Bump::Patch);
    let ghost all = required_bumps(bump_lists@);
    assert(required@ =~= all);
    let ghost names = ascending(all.dom());
    let mut under: Vec<UnderBumpedItem> = Vec::new();
    let mut missing: Vec<MissingBumpItem> = Vec::new();
    assert(under.deep_view() =~= Seq::empty());
    assert(missing.deep_view() =~= Seq::empty());
    let count = required.len();
    let mut i: usize = 0;
    while i < count
        invariant
            i <= count,
            required@ == all,
            names == ascending(all.dom()),
            count == names.len(),
            count == all.dom().len(),
            under.deep_view() == under_bumped(all, local_bumps@, failed@, names, i as nat),
            missing.deep_view() == missing_bumps(
                all,
                local_bumps@,
                failed@,
                new_crates@,
                names,
                i as nat,
            ),
        decreases count - i,
    {
        let (name, needed) = required.entry(i);
        let ghost had_under = under.deep_view();
        let ghost had_missing = missing.deep_view();
        if !failed.contains(name) {
            match local_bumps.get(name) {
                Some(local) => {
                    if !local.at_least(*needed) {
                        let item = UnderBumpedItem {
                            name: CrateName::from(name),
                            required: *needed,
                            local: *local,
                        };
                        under.push(item);
                        assert(under.deep_view() =~= had_under.push(item.deep_view()));
                    }
                },
                None => {
                    if !new_crates.contains(name) {
                        let item = MissingBumpItem {
                            name: CrateName::from(name),
                            required: *needed,
                        };
                        missing.push(item);
                        assert(missing.deep_view() =~= had_missing.push(item.deep_view()));
                    }
                },
            }
        }
        i = i + 1;
    }
    let mut has_errors = false;
    assert(under.deep_view().len() == under@.len());
    assert(missing.deep_view().len() == missing@.len());
    if under.len() > 0 {
        has_errors = true;
        sink.emit(Event::UnderBumped { items: under });
    }
    if !local_bumps.is_empty() && missing.len() > 0 {
        has_errors = true;
        sink.emit(Event::MissingBumps { items: missing });
    }
    assert(sink.emitted() =~= old(sink).emitted() + bump_errors(
        bump_lists@,
        local_bumps@,
        failed@,
        new_crates@,
    ));
    assert forall|name: Seq<char>, level: Bump| #[trigger]
        bumped_too_little(bump_lists@, local_bumps@, failed@, name, level) implies has_errors
        && reports_too_little(
        sink.emitted(),
        (UnderBumpedView { name, required: level, local: local_bumps@[name] }),
    ) by {
        let errors = bump_errors(bump_lists@, local_bumps@, failed@, new_crates@);
        let item = UnderBumpedView { name, required: level, local: local_bumps@[name] };
        let before = old(sink).emitted();
        law_too_small_bump_is_an_error(
            bump_lists@,
            local_bumps@,
            failed@,
            new_crates@,
            name,
            level,
            local_bumps@[name],
        );
        let k = choose|k: int|
            0 <= k < errors.len() && (#[trigger] errors[k] matches EventView::UnderBumped { items }
                && items.contains(item));
        assert(sink.emitted()[before.len() + k] == errors[k]);
    }
    has_errors
}

/// The major list holds only crates of the workspace whose version is at least
/// `1.0.0`, and only such that change in a breaking way.
pub proof fn law_major_list_is_for_stable_crates(
    ctx: WorkspaceContext,
    reach: ReachView,
    name: Seq<char>,
)
    requires
        bump_lists(ctx, reach).major.contains(name),
    ensures
        reach.breaking.contains(name),
        ctx.version(name) matches Some(version) && version.major >= 1,
{
}

/// Every crate that a wave has reached is on a list, and every crate on a list
/// was reached.
pub proof fn law_lists_cover_the_reach(ctx: WorkspaceContext, reach: ReachView, name: Seq<char>)
    ensures
        required_bumps(bump_lists(ctx, reach)).dom().contains(name) <==> reach.breaking.contains(
            name,
        ) || reach.additive.contains(name) || reach.patch.contains(name),
{
}

/// Where no crate was reached in two ways, no crate is on two lists.
pub proof fn law_lists_are_disjoint(ctx: WorkspaceContext, reach: ReachView)
    requires
        reach.breaking.disjoint(reach.additive),
        reach.breaking.disjoint(reach.patch),
        reach.additive.disjoint(reach.patch),
    ensures
        ({
            let lists = bump_lists(ctx, reach);
            &&& lists.major.disjoint(lists.minor)
            &&& lists.major.disjoint(lists.patch)
            &&& lists.minor.disjoint(lists.patch)
        }),
{
    let lists = bump_lists(ctx, reach);
    assert forall|name: Seq<char>| !(lists.major.contains(name) && lists.minor.contains(name)) by {
        assert(!(reach.breaking.contains(name) && reach.additive.contains(name)));
    }
    assert forall|name: Seq<char>| !(lists.major.contains(name) && lists.patch.contains(name)) by {
        assert(!(reach.breaking.contains(name) && reach.additive.contains(name)));
        assert(!(reach.breaking.contains(name) && reach.patch.contains(name)));
    }
    assert forall|name: Seq<char>| !(lists.minor.contains(name) && lists.patch.contains(name)) by {
        assert(!(reach.breaking.contains(name) && reach.additive.contains(name)));
        assert(!(reach.breaking.contains(name) && reach.patch.contains(name)));
        assert(!(reach.additive.contains(name) && reach.patch.contains(name)));
    }
}

/// Seeds, new crates and crates that have a major bump already are on no list.
pub proof fn law_settled_crates_are_not_listed(
    ctx: WorkspaceContext,
    reach: ReachView,
    seeds: Set<Seq<char>>,
    new_crates: Set<Seq<char>>,
    bumps: Map<Seq<char>, Bump>,
    name: Seq<char>,
)
    requires
        is_covered(name, seeds, new_crates, bumps, Bump::Major),
    ensures
        !required_bumps(
            bump_lists(ctx, settled(reach, seeds, new_crates, bumps)),
        ).dom().contains(name),
{
}

proof fn lemma_no_under_bumped(
    required: Map<Seq<char>, Bump>,
    bumps: Map<Seq<char>, Bump>,
    failed: Set<Seq<char>>,
    names: Seq<Seq<char>>,
    n: nat,
)
    requires
        n <= names.len(),
        forall|k: int|
            0 <= k < names.len() && bumps.dom().contains(#[trigger] names[k])
                ==> bumps[names[k]].rank() >= required[names[k]].rank(),
    ensures
        under_bumped(required, bumps, failed, names, n).len() == 0,
    decreases n,
{
    if n > 0 {
        lemma_no_under_bumped(required, bumps, failed, names, (n - 1) as nat);
        assert(bumps.dom().contains(names[n - 1]) ==> bumps[names[n - 1]].rank()
            >= required[names[n - 1]].rank());
    }
}

proof fn lemma_no_missing(
    required: Map<Seq<char>, Bump>,
    bumps: Map<Seq<char>, Bump>,
    failed: Set<Seq<char>>,
    new_crates: Set<Seq<char>>,
    names: Seq<Seq<char>>,
    n: nat,
)
    requires
        n <= names.len(),
        forall|k: int| 0 <= k < names.len() ==> bumps.dom().contains(#[trigger] names[k]),
    ensures
        missing_bumps(required, bumps, failed, new_crates, names, n).len() == 0,
    decreases n,
{
    if n > 0 {
        lemma_no_missing(required, bumps, failed, new_crates, names, (n - 1) as nat);
        assert(bumps.dom().contains(names[n - 1]));
    }
}

/// Without any local bump there is nothing to complain about.
pub proof fn law_no_local_bumps_no_errors(
    lists: ListsView,
    failed: Set<Seq<char>>,
    new_crates: Set<Seq<char>>,
)
    ensures
        bump_errors(lists, Map::empty(), failed, new_crates).len() == 0,
{
    let required = required_bumps(lists);
    let names = ascending(required.dom());
    lemma_no_under_bumped(required, Map::empty(), failed, names, names.len());
}

/// Where every listed crate has a local bump that is large enough, there is
/// nothing to complain about.
pub proof fn law_sufficient_bumps_no_errors(
    lists: ListsView,
    bumps: Map<Seq<char>, Bump>,
    failed: Set<Seq<char>>,
    new_crates: Set<Seq<char>>,
)
    requires
        required_bumps(lists).dom().finite(),
        forall|name: Seq<char>| #[trigger]
            required_bumps(lists).dom().contains(name) ==> bumps.dom().contains(name)
                && bumps[name].rank() >= required_bumps(lists)[name].rank(),
    ensures
        bump_errors(lists, bumps, failed, new_crates).len() == 0,
{
    let required = required_bumps(lists);
    let names = ascending(required.dom());
    lemma_ascending_of(required.dom());
    assert forall|k: int| 0 <= k < names.len() implies bumps.dom().contains(#[trigger] names[k])
        && bumps[names[k]].rank() >= required[names[k]].rank() by {
        assert(names.to_set().contains(names[k]));
    }
    lemma_no_under_bumped(required, bumps, failed, names, names.len());
    lemma_no_missing(required, bumps, failed, new_crates, names, names.len());
}

} // verus!
