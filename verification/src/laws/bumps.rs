//! Laws of the bump lists: who has to bump what, and when that was not done.
use vstd::prelude::*;

use crate::cli::Cli;
use crate::display::influence_tree;
use crate::names::{ascending, lemma_ascending_of};
use crate::order::{lt, strictly_sorted};
use crate::propagate::{settled, ReachView};
use crate::report::event::EventView;
use crate::report::lists::{
    bump_errors, bump_lists, missing_bumps, required_bumps, result_events, under_bumped, ListsView,
};
use crate::run::{final_events, Run};
use crate::semver::Bump;
use crate::types::{MissingBumpView, UnderBumpedView};
use crate::workspace::WorkspaceContext;

verus! {

/// The lists ask the crate for this bump: where several lists name it, the patch
/// list counts before the minor list, and this before the major list.
pub open spec fn asks_for(lists: ListsView, name: Seq<char>, level: Bump) -> bool {
    match level {
        Bump::Patch => lists.patch.contains(name),
        Bump::Minor => lists.minor.contains(name) && !lists.patch.contains(name),
        Bump::Major => lists.major.contains(name) && !lists.minor.contains(name)
            && !lists.patch.contains(name),
        Bump::Unchanged => false,
    }
}

/// One bump is smaller than another.
pub open spec fn is_smaller(bump: Bump, other: Bump) -> bool {
    match other {
        Bump::Unchanged => false,
        Bump::Patch => bump == Bump::Unchanged,
        Bump::Minor => bump == Bump::Unchanged || bump == Bump::Patch,
        Bump::Major => bump != Bump::Major,
    }
}

/// The crate counts, and was bumped by less than the lists ask for.
pub open spec fn bumped_too_little(
    lists: ListsView,
    bumps: Map<Seq<char>, Bump>,
    failed: Set<Seq<char>>,
    name: Seq<char>,
    level: Bump,
) -> bool {
    &&& asks_for(lists, name, level)
    &&& !failed.contains(name)
    &&& bumps.dom().contains(name)
    &&& is_smaller(bumps[name], level)
}

/// The crate counts, is not new, and was not bumped, though the lists ask for it.
pub open spec fn not_bumped(
    lists: ListsView,
    bumps: Map<Seq<char>, Bump>,
    failed: Set<Seq<char>>,
    new_crates: Set<Seq<char>>,
    name: Seq<char>,
    level: Bump,
) -> bool {
    &&& asks_for(lists, name, level)
    &&& !failed.contains(name)
    &&& !new_crates.contains(name)
    &&& !bumps.dom().contains(name)
}

/// The events report that the crate was bumped too little.
pub open spec fn reports_too_little(events: Seq<EventView>, item: UnderBumpedView) -> bool {
    exists|k: int|
        0 <= k < events.len() && (#[trigger] events[k] matches EventView::UnderBumped { items }
            && items.contains(item))
}

/// The events report that the crate was not bumped.
pub open spec fn reports_missing(events: Seq<EventView>, item: MissingBumpView) -> bool {
    exists|k: int|
        0 <= k < events.len() && (#[trigger] events[k] matches EventView::MissingBumps { items }
            && items.contains(item))
}

/// The lists hold finitely many crates.
pub open spec fn are_finite(lists: ListsView) -> bool {
    lists.major.finite() && lists.minor.finite() && lists.patch.finite()
}

/// A crate with too small a local bump is an error, and is reported with the bump
/// that it has and the one that it needs; and nothing else is reported so.
pub proof fn law_too_small_bump_is_an_error(
    lists: ListsView,
    bumps: Map<Seq<char>, Bump>,
    failed: Set<Seq<char>>,
    new_crates: Set<Seq<char>>,
    name: Seq<char>,
    level: Bump,
    local: Bump,
)
    requires
        are_finite(lists),
    ensures
        ({
            let errors = bump_errors(lists, bumps, failed, new_crates);
            let item = UnderBumpedView { name, required: level, local };
            &&& bumped_too_little(lists, bumps, failed, name, level) ==> errors.len() > 0
            &&& reports_too_little(errors, item) <==> bumped_too_little(
                lists,
                bumps,
                failed,
                name,
                level,
            ) && bumps[name] == local
        }),
{
    let required = required_bumps(lists);
    let names = ascending(required.dom());
    assert(names.take(names.len() as int) =~= names);
    let errors = bump_errors(lists, bumps, failed, new_crates);
    let item = UnderBumpedView { name, required: level, local };
    lemma_required(lists, name, level);
    lemma_under(required, bumps, failed, names, names.len());
    let under = under_bumped(required, bumps, failed, names, names.len());
    if bumped_too_little(lists, bumps, failed, name, level) {
        assert(names.contains(name));
        let k = choose|k: int| 0 <= k < names.len() && names[k] == name;
        let found = UnderBumpedView { name, required: level, local: bumps[name] };
        assert(is_too_little(required, bumps, failed, names[k]));
        assert(under.contains(found));
        assert(under.len() > 0);
        assert(errors[0] == EventView::UnderBumped { items: under });
    }
    if reports_too_little(errors, item) {
        let k = choose|k: int|
            0 <= k < errors.len() && (#[trigger] errors[k] matches EventView::UnderBumped { items }
                && items.contains(item));
        assert(errors[k] == EventView::UnderBumped { items: under });
        assert(under.contains(item));
        assert(names.contains(item.name));
    }
}

/// Where any crate was bumped, a crate without a local bump is an error, unless it
/// is new or could not be looked at. It is reported with the bump that it needs; and
/// nothing else is reported so.
pub proof fn law_missing_bump_is_an_error(
    lists: ListsView,
    bumps: Map<Seq<char>, Bump>,
    failed: Set<Seq<char>>,
    new_crates: Set<Seq<char>>,
    name: Seq<char>,
    level: Bump,
)
    requires
        are_finite(lists),
    ensures
        ({
            let errors = bump_errors(lists, bumps, failed, new_crates);
            let owed = not_bumped(lists, bumps, failed, new_crates, name, level) && bumps.dom()
                != Set::<Seq<char>>::empty();
            &&& owed ==> errors.len() > 0
            &&& reports_missing(errors, MissingBumpView { name, required: level }) <==> owed
        }),
{
    let required = required_bumps(lists);
    let names = ascending(required.dom());
    assert(names.take(names.len() as int) =~= names);
    let errors = bump_errors(lists, bumps, failed, new_crates);
    let item = MissingBumpView { name, required: level };
    lemma_required(lists, name, level);
    lemma_missing(required, bumps, failed, new_crates, names, names.len());
    let under = under_bumped(required, bumps, failed, names, names.len());
    let missing = missing_bumps(required, bumps, failed, new_crates, names, names.len());
    if not_bumped(lists, bumps, failed, new_crates, name, level) && bumps.dom() != Set::<
        Seq<char>,
    >::empty() {
        assert(names.contains(name));
        let k = choose|k: int| 0 <= k < names.len() && names[k] == name;
        assert(is_missing(bumps, failed, new_crates, names[k]));
        assert(missing.contains(item));
        assert(missing.len() > 0);
        assert(errors[errors.len() - 1] == EventView::MissingBumps { items: missing });
    }
    if reports_missing(errors, item) {
        let k = choose|k: int|
            0 <= k < errors.len() && (#[trigger] errors[k] matches EventView::MissingBumps { items }
                && items.contains(item));
        assert(errors[k] == EventView::MissingBumps { items: missing });
        assert(missing.contains(item));
        assert(names.contains(item.name));
    }
}

/// There is an error only for a crate that was bumped too little or, where any crate
/// was bumped, not at all.
pub proof fn law_errors_have_a_cause(
    lists: ListsView,
    bumps: Map<Seq<char>, Bump>,
    failed: Set<Seq<char>>,
    new_crates: Set<Seq<char>>,
)
    requires
        are_finite(lists),
        bump_errors(lists, bumps, failed, new_crates).len() > 0,
    ensures
        exists|name: Seq<char>, level: Bump|
            #![trigger asks_for(lists, name, level)]
            bumped_too_little(lists, bumps, failed, name, level) || not_bumped(
                lists,
                bumps,
                failed,
                new_crates,
                name,
                level,
            ),
{
    let required = required_bumps(lists);
    let names = ascending(required.dom());
    assert(names.take(names.len() as int) =~= names);
    let under = under_bumped(required, bumps, failed, names, names.len());
    let missing = missing_bumps(required, bumps, failed, new_crates, names, names.len());
    lemma_required(lists, Seq::empty(), Bump::Patch);
    lemma_under(required, bumps, failed, names, names.len());
    lemma_missing(required, bumps, failed, new_crates, names, names.len());
    if under.len() > 0 {
        let item = under[0];
        assert(under.contains(item));
        lemma_required(lists, item.name, item.required);
        assert(names.contains(item.name));
        assert(asks_for(lists, item.name, item.required));
        assert(bumped_too_little(lists, bumps, failed, item.name, item.required));
    } else {
        let item = missing[0];
        assert(missing.contains(item));
        lemma_required(lists, item.name, item.required);
        assert(names.contains(item.name));
        assert(asks_for(lists, item.name, item.required));
        assert(not_bumped(lists, bumps, failed, new_crates, item.name, item.required));
    }
}

/// Each report names its crates once and in the order of their names; that of the
/// crates bumped too little comes first.
pub proof fn law_reported_crates_are_in_order(
    lists: ListsView,
    bumps: Map<Seq<char>, Bump>,
    failed: Set<Seq<char>>,
    new_crates: Set<Seq<char>>,
)
    requires
        are_finite(lists),
    ensures
        ({
            let errors = bump_errors(lists, bumps, failed, new_crates);
            &&& errors.len() <= 2
            &&& errors.len() == 2 ==> errors[0] is UnderBumped && errors[1] is MissingBumps
            &&& forall|k: int|
                0 <= k < errors.len() ==> match #[trigger] errors[k] {
                    EventView::UnderBumped { items } => forall|i: int, j: int|
                        0 <= i < j < items.len() ==> lt(
                            #[trigger] items[i].name,
                            #[trigger] items[j].name,
                        ),
                    EventView::MissingBumps { items } => forall|i: int, j: int|
                        0 <= i < j < items.len() ==> lt(
                            #[trigger] items[i].name,
                            #[trigger] items[j].name,
                        ),
                    _ => false,
                }
        }),
{
    let required = required_bumps(lists);
    let names = ascending(required.dom());
    assert(names.take(names.len() as int) =~= names);
    lemma_required(lists, Seq::empty(), Bump::Patch);
    lemma_under(required, bumps, failed, names, names.len());
    lemma_missing(required, bumps, failed, new_crates, names, names.len());
}

/// A crate with a breaking change is on the major list if its version is at least
/// 1.0.0; before that, or if its version is not known, it is on the minor list. One
/// with an additive change is on the minor list if its version is at least 1.0.0, and
/// else on the patch list. One with a patch is on the patch list. No other crate is
/// on a list.
pub proof fn law_lists_go_by_change_and_version(
    ctx: WorkspaceContext,
    reach: ReachView,
    name: Seq<char>,
)
    ensures
        ({
            let lists = bump_lists(ctx, reach);
            let known = ctx.pkg_versions@.dom().contains(name);
            let stable = known && ctx.pkg_versions@[name].major >= 1;
            &&& lists.major.contains(name) <==> reach.breaking.contains(name) && stable
            &&& lists.minor.contains(name) <==> (reach.breaking.contains(name) && !stable) || (
            reach.additive.contains(name) && stable)
            &&& lists.patch.contains(name) <==> reach.patch.contains(name) || (
            reach.additive.contains(name) && !stable)
        }),
{
}

/// The results end with the three lists; before them stands the tree if it is asked
/// for, and after them the crates that could not be looked at, if there are any.
pub proof fn law_results_show_the_lists(
    ctx: WorkspaceContext,
    reach: ReachView,
    seeds: Set<Seq<char>>,
    show_tree: bool,
)
    ensures
        ({
            let lists = bump_lists(ctx, reach);
            let events = result_events(ctx, reach, seeds, show_tree);
            let start = if show_tree {
                2int
            } else {
                0
            };
            let end = if reach.failed == Set::<Seq<char>>::empty() {
                start + 4
            } else {
                start + 5
            };
            &&& events.len() == end
            &&& show_tree ==> events[0] == EventView::InfluenceTreeHeader
            &&& show_tree ==> events[1] == (EventView::InfluenceTree {
                nodes: influence_tree(reach.edges, seeds),
            })
            &&& events[start] == EventView::AnalysisCompleteHeader
            &&& events[start + 1] == (EventView::BumpList {
                level: Bump::Major,
                names: lists.major,
            })
            &&& events[start + 2] == (EventView::BumpList {
                level: Bump::Minor,
                names: lists.minor,
            })
            &&& events[start + 3] == (EventView::BumpList {
                level: Bump::Patch,
                names: lists.patch,
            })
            &&& reach.failed != Set::<Seq<char>>::empty() ==> events[start + 4] == (
            EventView::FailedRustdocSummary { names: reach.failed })
        }),
{
}

/// At the end of an analysis a crate is on the major list exactly where the wave has
/// reached it with a breaking change, it is neither a seed nor new, its own bump is not
/// a major one, and its version is at least 1.0.0; and correspondingly for the other
/// lists.
pub proof fn law_final_lists(
    run: Run,
    cli: Cli,
    level: Bump,
    names: Set<Seq<char>>,
    name: Seq<char>,
)
    requires
        level != Bump::Unchanged,
        final_events(run, cli).contains((EventView::BumpList { level, names })),
    ensures
        ({
            let reach = run@.reach;
            let free = run.all_seeds@.contains(name) || run.new_crates@.contains(name);
            let own = if run.local_bumps@.dom().contains(name) {
                run.local_bumps@[name]
            } else {
                Bump::Unchanged
            };
            let stable = run.ctx.pkg_versions@.dom().contains(name)
                && run.ctx.pkg_versions@[name].major >= 1;
            let breaking = reach.breaking.contains(name) && !free && own != Bump::Major;
            let additive = reach.additive.contains(name) && !free && is_smaller(own, Bump::Minor);
            let patch = reach.patch.contains(name) && !free && own == Bump::Unchanged;
            names.contains(name) <==> match level {
                Bump::Major => breaking && stable,
                Bump::Minor => (breaking && !stable) || (additive && stable),
                _ => patch || (additive && !stable),
            }
        }),
{
    let left = settled(run@.reach, run.all_seeds@, run.new_crates@, run.local_bumps@);
    let first = result_events(run.ctx, left, run.all_seeds@, cli.tree);
    let lists = bump_lists(run.ctx, left);
    let rest = bump_errors(lists, run.local_bumps@, left.failed, run.new_crates@);
    let event = EventView::BumpList { level, names };
    let all = final_events(run, cli);
    assert(all == first + rest);
    let k = choose|k: int| 0 <= k < all.len() && all[k] == event;
    law_results_show_the_lists(run.ctx, left, run.all_seeds@, cli.tree);
    law_lists_go_by_change_and_version(run.ctx, left, name);
    if k >= first.len() {
        assert(rest[k - first.len()] == event);
        assert(rest[k - first.len()] is UnderBumped || rest[k - first.len()] is MissingBumps);
    } else {
        assert(first[k] == event);
    }
}

/// The end of an analysis shows one list for each level, and with them the errors of
/// the local bumps, the failed crates aside.
pub proof fn law_final_events_show_lists_and_errors(run: Run, cli: Cli)
    ensures
        ({
            let left = settled(run@.reach, run.all_seeds@, run.new_crates@, run.local_bumps@);
            let lists = bump_lists(run.ctx, left);
            let errors = bump_errors(lists, run.local_bumps@, run@.reach.failed, run.new_crates@);
            let all = final_events(run, cli);
            &&& all.contains((EventView::BumpList { level: Bump::Major, names: lists.major }))
            &&& all.contains((EventView::BumpList { level: Bump::Minor, names: lists.minor }))
            &&& all.contains((EventView::BumpList { level: Bump::Patch, names: lists.patch }))
            &&& all.len() >= errors.len()
            &&& all.skip(all.len() - errors.len()) == errors
        }),
{
    let left = settled(run@.reach, run.all_seeds@, run.new_crates@, run.local_bumps@);
    let first = result_events(run.ctx, left, run.all_seeds@, cli.tree);
    let lists = bump_lists(run.ctx, left);
    let rest = bump_errors(lists, run.local_bumps@, left.failed, run.new_crates@);
    let all = final_events(run, cli);
    law_results_show_the_lists(run.ctx, left, run.all_seeds@, cli.tree);
    let start = if cli.tree {
        2int
    } else {
        0
    };
    assert(all == first + rest);
    assert(all[start + 1] == first[start + 1]);
    assert(all[start + 2] == first[start + 2]);
    assert(all[start + 3] == first[start + 3]);
    assert(all.skip(all.len() - rest.len()) =~= rest);
}

spec fn is_too_little(
    required: Map<Seq<char>, Bump>,
    bumps: Map<Seq<char>, Bump>,
    failed: Set<Seq<char>>,
    name: Seq<char>,
) -> bool {
    !failed.contains(name) && bumps.dom().contains(name) && is_smaller(bumps[name], required[name])
}

spec fn is_missing(
    bumps: Map<Seq<char>, Bump>,
    failed: Set<Seq<char>>,
    new_crates: Set<Seq<char>>,
    name: Seq<char>,
) -> bool {
    !failed.contains(name) && !new_crates.contains(name) && !bumps.dom().contains(name)
}

proof fn lemma_required(lists: ListsView, name: Seq<char>, level: Bump)
    requires
        are_finite(lists),
    ensures
        ({
            let required = required_bumps(lists);
            let names = ascending(required.dom());
            &&& asks_for(lists, name, level) <==> required.dom().contains(name) && required[name]
                == level
            &&& strictly_sorted(names)
            &&& forall|other: Seq<char>| #[trigger]
                names.contains(other) <==> required.dom().contains(other)
        }),
{
    let required = required_bumps(lists);
    let names = ascending(required.dom());
    assert(required.dom() =~= lists.major.union(lists.minor).union(lists.patch));
    lemma_ascending_of(required.dom());
    assert forall|other: Seq<char>| #[trigger] names.contains(other) <==> required.dom().contains(
        other,
    ) by {
        assert(names.to_set().contains(other) == names.contains(other));
    }
}

proof fn lemma_under(
    required: Map<Seq<char>, Bump>,
    bumps: Map<Seq<char>, Bump>,
    failed: Set<Seq<char>>,
    names: Seq<Seq<char>>,
    n: nat,
)
    requires
        n <= names.len(),
        strictly_sorted(names),
    ensures
        ({
            let under = under_bumped(required, bumps, failed, names, n);
            &&& forall|k: int|
                0 <= k < n && is_too_little(required, bumps, failed, #[trigger] names[k])
                    ==> under.contains(
                    (UnderBumpedView {
                        name: names[k],
                        required: required[names[k]],
                        local: bumps[names[k]],
                    }),
                )
            &&& forall|item: UnderBumpedView| #[trigger]
                under.contains(item) ==> names.take(n as int).contains(item.name) && is_too_little(
                    required,
                    bumps,
                    failed,
                    item.name,
                ) && item.required == required[item.name] && item.local == bumps[item.name]
            &&& forall|i: int, j: int|
                0 <= i < j < under.len() ==> lt(#[trigger] under[i].name, #[trigger] under[j].name)
        }),
    decreases n,
{
    if n > 0 {
        let m = (n - 1) as nat;
        lemma_under(required, bumps, failed, names, m);
        let before = under_bumped(required, bumps, failed, names, m);
        let under = under_bumped(required, bumps, failed, names, n);
        let name = names[n - 1];
        let item = UnderBumpedView { name, required: required[name], local: bumps[name] };
        lemma_prefix(names, n);
        if is_too_little(required, bumps, failed, name) {
            assert(under == before.push(item));
            assert(under[under.len() - 1] == item);
            assert forall|i: int, j: int| 0 <= i < j < under.len() implies lt(
                #[trigger] under[i].name,
                #[trigger] under[j].name,
            ) by {
                assert(under[i] == before[i]);
                if j == before.len() {
                    assert(before.contains(before[i]));
                    let few = names.take(m as int);
                    let k = choose|k: int| 0 <= k < few.len() && few[k] == before[i].name;
                    assert(lt(names[k], names[n - 1]));
                } else {
                    assert(under[j] == before[j]);
                }
            }
            assert forall|found: UnderBumpedView| before.contains(found) implies under.contains(
                found,
            ) by {
                let k = choose|k: int| 0 <= k < before.len() && before[k] == found;
                assert(under[k] == found);
            }
            assert forall|found: UnderBumpedView| #[trigger] under.contains(found) implies found
                == item || before.contains(found) by {
                let k = choose|k: int| 0 <= k < under.len() && under[k] == found;
                if k < before.len() {
                    assert(before[k] == found);
                }
            }
        } else {
            assert(under == before);
        }
    }
}

proof fn lemma_missing(
    required: Map<Seq<char>, Bump>,
    bumps: Map<Seq<char>, Bump>,
    failed: Set<Seq<char>>,
    new_crates: Set<Seq<char>>,
    names: Seq<Seq<char>>,
    n: nat,
)
    requires
        n <= names.len(),
        strictly_sorted(names),
    ensures
        ({
            let missing = missing_bumps(required, bumps, failed, new_crates, names, n);
            &&& forall|k: int|
                0 <= k < n && is_missing(bumps, failed, new_crates, #[trigger] names[k])
                    ==> missing.contains(
                    (MissingBumpView { name: names[k], required: required[names[k]] }),
                )
            &&& forall|item: MissingBumpView| #[trigger]
                missing.contains(item) ==> names.take(n as int).contains(item.name) && is_missing(
                    bumps,
                    failed,
                    new_crates,
                    item.name,
                ) && item.required == required[item.name]
            &&& forall|i: int, j: int|
                0 <= i < j < missing.len() ==> lt(
                    #[trigger] missing[i].name,
                    #[trigger] missing[j].name,
                )
        }),
    decreases n,
{
    if n > 0 {
        let m = (n - 1) as nat;
        lemma_missing(required, bumps, failed, new_crates, names, m);
        let before = missing_bumps(required, bumps, failed, new_crates, names, m);
        let missing = missing_bumps(required, bumps, failed, new_crates, names, n);
        let name = names[n - 1];
        let item = MissingBumpView { name, required: required[name] };
        lemma_prefix(names, n);
        if is_missing(bumps, failed, new_crates, name) {
            assert(missing == before.push(item));
            assert(missing[missing.len() - 1] == item);
            assert forall|i: int, j: int| 0 <= i < j < missing.len() implies lt(
                #[trigger] missing[i].name,
                #[trigger] missing[j].name,
            ) by {
                assert(missing[i] == before[i]);
                if j == before.len() {
                    assert(before.contains(before[i]));
                    let few = names.take(m as int);
                    let k = choose|k: int| 0 <= k < few.len() && few[k] == before[i].name;
                    assert(lt(names[k], names[n - 1]));
                } else {
                    assert(missing[j] == before[j]);
                }
            }
            assert forall|found: MissingBumpView| before.contains(found) implies missing.contains(
                found,
            ) by {
                let k = choose|k: int| 0 <= k < before.len() && before[k] == found;
                assert(missing[k] == found);
            }
            assert forall|found: MissingBumpView| #[trigger] missing.contains(found) implies found
                == item || before.contains(found) by {
                let k = choose|k: int| 0 <= k < missing.len() && missing[k] == found;
                if k < before.len() {
                    assert(before[k] == found);
                }
            }
        } else {
            assert(missing == before);
        }
    }
}

proof fn lemma_prefix(names: Seq<Seq<char>>, n: nat)
    requires
        0 < n <= names.len(),
    ensures
        names.take(n as int).contains(names[n - 1]),
        forall|name: Seq<char>| #[trigger]
            names.take(n - 1).contains(name) ==> names.take(n as int).contains(name),
        forall|name: Seq<char>| #[trigger]
            names.take(n as int).contains(name) ==> names.contains(name),
{
    let few = names.take(n - 1);
    let more = names.take(n as int);
    assert(more[n - 1] == names[n - 1]);
    assert forall|name: Seq<char>| #[trigger] few.contains(name) implies more.contains(name) by {
        let k = choose|k: int| 0 <= k < few.len() && few[k] == name;
        assert(more[k] == name);
    }
    assert forall|name: Seq<char>| #[trigger] more.contains(name) implies names.contains(name) by {
        let k = choose|k: int| 0 <= k < more.len() && more[k] == name;
        assert(names[k] == name);
    }
}

} // verus!
