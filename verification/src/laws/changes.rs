//! Laws of detected changes: what the manifests of two refs tell.
use vstd::prelude::*;

use crate::manifest::{entries_in, get_in, TomlView};
use crate::names::{ascending, lemma_ascending_of};
use crate::report::event::{BumpSource, EventView};
use crate::seeds::{
    dep_version, dep_versions, no_changes, note_deps, note_manifest, note_manifests, note_package,
    package_of, required_version, with_deps, with_missing_deps, BaseSide, ChangesView,
    ManifestChange,
};
use crate::semver::{bump_for, change_between, ChangeKind, VersionView};

verus! {

/// The manifest can be read at both refs, requires the dependency at both, and the
/// versions that the two requirements name differ in this way.
pub open spec fn changes_dep(change: ManifestChange, name: Seq<char>, kind: ChangeKind) -> bool {
    match (change.old, change.new) {
        (BaseSide::Manifest(old), Some(new)) => {
            let from = dep_versions(old.doc@);
            let to = dep_versions(new.doc@);
            &&& from.dom().contains(name)
            &&& to.dom().contains(name)
            &&& required_version(from[name]) is Ok
            &&& required_version(to[name]) is Ok
            &&& change_between(required_version(from[name])->Ok_0, required_version(to[name])->Ok_0)
                == kind
        },
        _ => false,
    }
}

/// The manifest has a package at both refs, which the base ref calls `name`, and
/// its versions there are `from` and `to`.
pub open spec fn has_package(
    change: ManifestChange,
    name: Seq<char>,
    from: VersionView,
    to: VersionView,
) -> bool {
    match (change.old, change.new) {
        (BaseSide::Manifest(old), Some(new)) => {
            &&& package_of(change.file@, old) == Some((name, from))
            &&& package_of(change.file@, new) matches Some(found) && found.1 == to
        },
        _ => false,
    }
}

/// The manifest has a package at both refs, which the base ref calls `name`, and
/// its versions there differ in this way.
pub open spec fn changes_package(
    change: ManifestChange,
    name: Seq<char>,
    kind: ChangeKind,
) -> bool {
    exists|from: VersionView, to: VersionView| #[trigger]
        has_package(change, name, from, to) && change_between(from, to) == kind
}

/// The event tells of a change that the manifest shows.
pub open spec fn tells_of(event: EventView, change: ManifestChange) -> bool {
    match event {
        EventView::DepVersionChanged { name, old, new, kind } => {
            &&& changes_dep(change, name, kind)
            &&& kind == ChangeKind::Breaking || kind == ChangeKind::Additive
            &&& change.old matches BaseSide::Manifest(side) && dep_versions(side.doc@)[name] == old
            &&& change.new matches Some(side) && dep_versions(side.doc@)[name] == new
        },
        EventView::LocalPackageBump { name, old, new, kind, source } => {
            &&& has_package(change, name, old, new)
            &&& kind == change_between(old, new)
            &&& kind != ChangeKind::Unchanged
            &&& source == BumpSource::Package
        },
        EventView::NewCrate { name } => is_new(change, name),
        EventView::RemovedCrate { name } => is_removed(change, name),
        _ => false,
    }
}

/// The base ref has no such manifest, and that of the target ref is of the package
/// `name`.
pub open spec fn is_new(change: ManifestChange, name: Seq<char>) -> bool {
    &&& change.old is Absent
    &&& change.new matches Some(side) && package_of(change.file@, side) matches Some(found)
        && found.0 == name
}

/// The target ref has no such manifest, and that of the base ref is of the package
/// `name`.
pub open spec fn is_removed(change: ManifestChange, name: Seq<char>) -> bool {
    &&& change.new is None
    &&& change.old matches BaseSide::Manifest(side) && package_of(change.file@, side) matches Some(
        found,
    ) && found.0 == name
}

/// The changes found in the first `n` changed manifests.
pub open spec fn found(
    events: Seq<EventView>,
    changed: Seq<ManifestChange>,
    n: nat,
) -> ChangesView {
    note_manifests(no_changes(events), changed, n)
}

/// Each dependency whose required version changes in a breaking way, in whatever
/// manifest, is a breaking seed; with an additive change it is a breaking or an
/// additive seed. Whether the manifest has a package plays no part.
pub proof fn law_changed_dependencies_are_seeds(
    events: Seq<EventView>,
    changed: Seq<ManifestChange>,
    n: nat,
    i: int,
    name: Seq<char>,
)
    requires
        0 <= i < n <= changed.len(),
    ensures
        changes_dep(changed[i], name, ChangeKind::Breaking) ==> found(
            events,
            changed,
            n,
        ).breaking.contains(name),
        changes_dep(changed[i], name, ChangeKind::Additive) ==> found(
            events,
            changed,
            n,
        ).breaking.contains(name) || found(events, changed, n).additive.contains(name),
    decreases n,
{
    let m = (n - 1) as nat;
    let before = found(events, changed, m);
    lemma_manifest(before, changed[n - 1]);
    if i < m {
        law_changed_dependencies_are_seeds(events, changed, m, i, name);
    }
}

/// Each package whose version changes has a local bump: that which the change asks
/// for, given the old version, in the first manifest that shows a change of the
/// package. By a breaking change there it is a breaking seed, by an additive one an
/// additive seed.
pub proof fn law_changed_packages_are_bumped(
    events: Seq<EventView>,
    changed: Seq<ManifestChange>,
    n: nat,
    i: int,
    name: Seq<char>,
    from: VersionView,
    to: VersionView,
)
    requires
        0 <= i < n <= changed.len(),
        has_package(changed[i], name, from, to),
        change_between(from, to) != ChangeKind::Unchanged,
        forall|j: int, kind: ChangeKind|
            0 <= j < i && #[trigger] changes_package(changed[j], name, kind) ==> kind
                == ChangeKind::Unchanged,
    ensures
        found(events, changed, n).bumps.dom().contains(name),
        found(events, changed, n).bumps[name] == bump_for(from.major, change_between(from, to)),
        change_between(from, to) == ChangeKind::Breaking ==> found(
            events,
            changed,
            n,
        ).breaking.contains(name),
        change_between(from, to) == ChangeKind::Additive ==> found(
            events,
            changed,
            n,
        ).additive.contains(name),
    decreases n,
{
    let m = (n - 1) as nat;
    let before = found(events, changed, m);
    lemma_manifest(before, changed[n - 1]);
    if i < m {
        law_changed_packages_are_bumped(events, changed, m, i, name, from, to);
    } else {
        if before.bumps.dom().contains(name) {
            law_bumps_come_from_packages(events, changed, m, name);
            let (j, old, new) = choose|j: int, old: VersionView, new: VersionView|
                0 <= j < m && #[trigger] has_package(changed[j], name, old, new)
                    && change_between(old, new) != ChangeKind::Unchanged && before.bumps[name]
                    == bump_for(old.major, change_between(old, new));
            assert(changes_package(changed[j], name, change_between(old, new)));
        }
    }
}

/// Each local bump is that of a package whose version changes in a manifest.
pub proof fn law_bumps_come_from_packages(
    events: Seq<EventView>,
    changed: Seq<ManifestChange>,
    n: nat,
    name: Seq<char>,
)
    requires
        n <= changed.len(),
        found(events, changed, n).bumps.dom().contains(name),
    ensures
        exists|i: int, from: VersionView, to: VersionView|
            0 <= i < n && #[trigger] has_package(changed[i], name, from, to) && change_between(
                from,
                to,
            ) != ChangeKind::Unchanged && found(events, changed, n).bumps[name] == bump_for(
                from.major,
                change_between(from, to),
            ),
    decreases n,
{
    if n > 0 {
        let m = (n - 1) as nat;
        let before = found(events, changed, m);
        let after = found(events, changed, n);
        lemma_manifest(before, changed[n - 1]);
        if before.bumps.dom().contains(name) {
            law_bumps_come_from_packages(events, changed, m, name);
            let (j, old, new) = choose|j: int, old: VersionView, new: VersionView|
                0 <= j < m && #[trigger] has_package(changed[j], name, old, new)
                    && change_between(old, new) != ChangeKind::Unchanged && before.bumps[name]
                    == bump_for(old.major, change_between(old, new));
            assert(0 <= j < n && has_package(changed[j], name, old, new));
            assert(after.bumps[name] == before.bumps[name]);
        }
    }
}

/// Each breaking seed is a dependency or a package that changes in a breaking way
/// in one of the manifests, and each additive seed one that changes in an additive
/// way.
pub proof fn law_seeds_come_from_changes(
    events: Seq<EventView>,
    changed: Seq<ManifestChange>,
    n: nat,
    name: Seq<char>,
)
    requires
        n <= changed.len(),
    ensures
        found(events, changed, n).breaking.contains(name) ==> exists|i: int|
            0 <= i < n && (changes_dep(#[trigger] changed[i], name, ChangeKind::Breaking)
                || changes_package(changed[i], name, ChangeKind::Breaking)),
        found(events, changed, n).additive.contains(name) ==> exists|i: int|
            0 <= i < n && (changes_dep(#[trigger] changed[i], name, ChangeKind::Additive)
                || changes_package(changed[i], name, ChangeKind::Additive)),
    decreases n,
{
    if n > 0 {
        let m = (n - 1) as nat;
        law_seeds_come_from_changes(events, changed, m, name);
        lemma_manifest(found(events, changed, m), changed[n - 1]);
    }
}

/// Each event after the given ones tells of a change that one of the manifests
/// shows; and the given ones stay.
pub proof fn law_events_tell_of_changes(
    events: Seq<EventView>,
    changed: Seq<ManifestChange>,
    n: nat,
)
    requires
        n <= changed.len(),
    ensures
        events.len() <= found(events, changed, n).events.len(),
        found(events, changed, n).events.take(events.len() as int) == events,
        forall|k: int|
            events.len() <= k < found(events, changed, n).events.len() ==> exists|i: int|
                0 <= i < n && tells_of(
                    #[trigger] found(events, changed, n).events[k],
                    #[trigger] changed[i],
                ),
    decreases n,
{
    let now = found(events, changed, n).events;
    if n > 0 {
        let m = (n - 1) as nat;
        let before = found(events, changed, m).events;
        law_events_tell_of_changes(events, changed, m);
        lemma_manifest(found(events, changed, m), changed[n - 1]);
        assert(now.take(before.len() as int) == before);
        assert forall|k: int| 0 <= k < before.len() implies now[k] == before[k] by {
            assert(now.take(before.len() as int)[k] == before[k]);
        }
        assert forall|k: int| 0 <= k < events.len() implies now[k] == events[k] by {
            assert(before.take(events.len() as int)[k] == events[k]);
        }
        assert forall|k: int| events.len() <= k < now.len() implies exists|i: int|
            0 <= i < n && tells_of(#[trigger] now[k], #[trigger] changed[i]) by {
            if k < before.len() {
                let i = choose|i: int|
                    0 <= i < m && tells_of(#[trigger] before[k], #[trigger] changed[i]);
                assert(tells_of(now[k], changed[i]));
            } else {
                assert(tells_of(now[k], changed[n - 1]));
            }
        }
    }
    assert(now.take(events.len() as int) =~= events);
}

/// A package whose manifest is not at the base ref is a new crate, and the run says
/// so; of one whose manifest is gone at the target ref the run says that it was
/// removed.
pub proof fn law_new_and_removed_crates_are_told(
    events: Seq<EventView>,
    changed: Seq<ManifestChange>,
    n: nat,
    i: int,
    name: Seq<char>,
)
    requires
        0 <= i < n <= changed.len(),
    ensures
        is_new(changed[i], name) ==> found(events, changed, n).new_crates.contains(name) && found(
            events,
            changed,
            n,
        ).events.contains((EventView::NewCrate { name })),
        is_removed(changed[i], name) ==> found(events, changed, n).events.contains(
            (EventView::RemovedCrate { name }),
        ),
    decreases n,
{
    let m = (n - 1) as nat;
    let before = found(events, changed, m);
    let after = found(events, changed, n);
    lemma_manifest(before, changed[n - 1]);
    assert forall|event: EventView| before.events.contains(event) implies after.events.contains(
        event,
    ) by {
        let k = choose|k: int| 0 <= k < before.events.len() && before.events[k] == event;
        assert(after.events.take(before.events.len() as int)[k] == event);
        assert(after.events[k] == event);
    }
    if i < m {
        law_new_and_removed_crates_are_told(events, changed, m, i, name);
    } else {
        assert(after.events.len() == before.events.len() + 1 ==> after.events[after.events.len()
            - 1] == after.events.last());
    }
}

/// The new crates are those of the manifests that are not at the base ref, and no
/// others.
pub proof fn law_new_crates_are_those_without_a_base(
    events: Seq<EventView>,
    changed: Seq<ManifestChange>,
    n: nat,
    name: Seq<char>,
)
    requires
        n <= changed.len(),
    ensures
        found(events, changed, n).new_crates.contains(name) <==> exists|i: int|
            0 <= i < n && is_new(#[trigger] changed[i], name),
    decreases n,
{
    if n > 0 {
        let m = (n - 1) as nat;
        law_new_crates_are_those_without_a_base(events, changed, m, name);
        let before = found(events, changed, m);
        let change = changed[n - 1];
        lemma_manifest(before, change);
        if let (BaseSide::Manifest(old), Some(new)) = (change.old, change.new) {
            let to = dep_versions(new.doc@);
            let names = ascending(to.dom());
            lemma_deps(before, dep_versions(old.doc@), to, names, names.len());
        }
        assert(found(events, changed, n).new_crates.contains(name) <==> before.new_crates.contains(
            name,
        ) || is_new(change, name));
    }
}

/// A dependency whose change was found to be breaking before is not made an additive
/// seed by a later change of its requirement.
pub proof fn law_breaking_dependency_is_not_made_additive(
    events: Seq<EventView>,
    changed: Seq<ManifestChange>,
    n: nat,
    name: Seq<char>,
)
    requires
        n <= changed.len(),
        found(events, changed, n).additive.contains(name),
    ensures
        exists|i: int|
            0 <= i < n && (changes_package(#[trigger] changed[i], name, ChangeKind::Additive) || (
            changes_dep(changed[i], name, ChangeKind::Additive) && !broke_before(
                changed,
                i,
                name,
            ))),
    decreases n,
{
    if n > 0 {
        let m = (n - 1) as nat;
        let before = found(events, changed, m);
        let change = changed[n - 1];
        lemma_manifest(before, change);
        if before.additive.contains(name) {
            law_breaking_dependency_is_not_made_additive(events, changed, m, name);
        } else if !changes_package(change, name, ChangeKind::Additive) {
            lemma_manifest_additive(before, change, name);
            if broke_before(changed, m as int, name) {
                let j = choose|j: int|
                    0 <= j < m && changes_dep(#[trigger] changed[j], name, ChangeKind::Breaking);
                law_changed_dependencies_are_seeds(events, changed, m, j, name);
            }
        }
    }
}

/// One of the first `i` manifests changes the dependency in a breaking way.
pub open spec fn broke_before(changed: Seq<ManifestChange>, i: int, name: Seq<char>) -> bool {
    exists|j: int| 0 <= j < i && changes_dep(#[trigger] changed[j], name, ChangeKind::Breaking)
}

/// A dependency that a manifest makes an additive seed was no breaking seed before.
proof fn lemma_manifest_additive(changes: ChangesView, change: ManifestChange, name: Seq<char>)
    requires
        note_manifest(changes, change).additive.contains(name),
        !changes.additive.contains(name),
        !changes_package(change, name, ChangeKind::Additive),
    ensures
        !changes.breaking.contains(name),
        changes_dep(change, name, ChangeKind::Additive),
{
    lemma_manifest(changes, change);
    if let (BaseSide::Manifest(old), Some(new)) = (change.old, change.new) {
        let from = dep_versions(old.doc@);
        let to = dep_versions(new.doc@);
        let names = ascending(to.dom());
        lemma_deps_additive(changes, from, to, names, names.len(), name);
        if let (Some((own, before)), Some((_, later))) = (
            package_of(change.file@, old),
            package_of(change.file@, new),
        ) {
            assert(has_package(change, own, before, later));
            assert(changes_package(change, own, change_between(before, later)));
        }
    }
}

proof fn lemma_deps_additive(
    changes: ChangesView,
    old: Map<Seq<char>, Seq<char>>,
    new: Map<Seq<char>, Seq<char>>,
    names: Seq<Seq<char>>,
    n: nat,
    name: Seq<char>,
)
    requires
        n <= names.len(),
    ensures
        changes.breaking.subset_of(note_deps(changes, old, new, names, n).breaking),
        changes.breaking.contains(name) && !changes.additive.contains(name) ==> !note_deps(
            changes,
            old,
            new,
            names,
            n,
        ).additive.contains(name),
    decreases n,
{
    if n > 0 {
        lemma_deps_additive(changes, old, new, names, (n - 1) as nat, name);
    }
}

/// Each change of a dependency is told once: no two of the events after the given ones
/// tell of the same dependency and the same kind of change.
pub proof fn law_changes_are_told_once(
    events: Seq<EventView>,
    changed: Seq<ManifestChange>,
    n: nat,
    k: int,
    l: int,
)
    requires
        n <= changed.len(),
        events.len() <= k < l < found(events, changed, n).events.len(),
    ensures
        !same_dep_change(found(events, changed, n).events[k], found(events, changed, n).events[l]),
{
    lemma_told_once(events, changed, n);
}

/// Both events tell of the same dependency and the same kind of change.
pub open spec fn same_dep_change(one: EventView, other: EventView) -> bool {
    match (one, other) {
        (
            EventView::DepVersionChanged { name: a, kind: b, .. },
            EventView::DepVersionChanged { name: c, kind: d, .. },
        ) => a == c && b == d,
        _ => false,
    }
}

/// The dependency that the event tells of is among the seeds.
spec fn is_noted(event: EventView, changes: ChangesView) -> bool {
    match event {
        EventView::DepVersionChanged { name, kind, .. } => (kind == ChangeKind::Breaking
            && changes.breaking.contains(name)) || (kind == ChangeKind::Additive
            && changes.additive.contains(name)),
        _ => true,
    }
}

/// After the first `from` events each tells of a seed, and none tells what another does.
spec fn told_once(changes: ChangesView, from: nat) -> bool {
    &&& from <= changes.events.len()
    &&& forall|k: int|
        from <= k < changes.events.len() ==> is_noted(#[trigger] changes.events[k], changes)
    &&& forall|k: int, l: int|
        from <= k < l < changes.events.len() ==> !same_dep_change(
            #[trigger] changes.events[k],
            #[trigger] changes.events[l],
        )
}

proof fn lemma_told_once(events: Seq<EventView>, changed: Seq<ManifestChange>, n: nat)
    requires
        n <= changed.len(),
    ensures
        told_once(found(events, changed, n), events.len()),
    decreases n,
{
    if n > 0 {
        let m = (n - 1) as nat;
        lemma_told_once(events, changed, m);
        let before = found(events, changed, m);
        let change = changed[n - 1];
        let after = found(events, changed, n);
        if let (BaseSide::Manifest(old), Some(new)) = (change.old, change.new) {
            let from = dep_versions(old.doc@);
            let to = dep_versions(new.doc@);
            let names = ascending(to.dom());
            let noted = note_deps(before, from, to, names, names.len());
            lemma_deps_told_once(before, from, to, names, names.len(), events.len());
            if let (Some((own, was)), Some((_, is))) = (
                package_of(change.file@, old),
                package_of(change.file@, new),
            ) {
                assert(after == note_package(noted, own, was, is));
                if after.events != noted.events {
                    assert(after.events.drop_last() =~= noted.events);
                }
                lemma_told_more(noted, after, events.len());
            }
        } else {
            if after.events != before.events {
                assert(after.events.drop_last() =~= before.events);
            }
            lemma_told_more(before, after, events.len());
        }
    }
}

/// One more event that tells of no dependency keeps what holds of the others.
proof fn lemma_told_more(before: ChangesView, after: ChangesView, from: nat)
    requires
        told_once(before, from),
        before.breaking.subset_of(after.breaking),
        before.additive.subset_of(after.additive),
        after.events == before.events || (after.events.len() == before.events.len() + 1
            && after.events.drop_last() == before.events
            && !(after.events.last() is DepVersionChanged)),
    ensures
        told_once(after, from),
{
    assert forall|k: int| 0 <= k < before.events.len() implies after.events[k]
        == before.events[k] by {
        if after.events != before.events {
            assert(after.events.drop_last()[k] == before.events[k]);
        }
    }
    assert forall|k: int| from <= k < after.events.len() implies is_noted(
        #[trigger] after.events[k],
        after,
    ) by {
        if k < before.events.len() {
            assert(is_noted(before.events[k], before));
        }
    }
    assert forall|k: int, l: int| from <= k < l < after.events.len() implies !same_dep_change(
        #[trigger] after.events[k],
        #[trigger] after.events[l],
    ) by {
        if l < before.events.len() {
            assert(!same_dep_change(before.events[k], before.events[l]));
        }
    }
}

proof fn lemma_deps_told_once(
    changes: ChangesView,
    old: Map<Seq<char>, Seq<char>>,
    new: Map<Seq<char>, Seq<char>>,
    names: Seq<Seq<char>>,
    n: nat,
    from: nat,
)
    requires
        n <= names.len(),
        told_once(changes, from),
    ensures
        told_once(note_deps(changes, old, new, names, n), from),
    decreases n,
{
    if n > 0 {
        let m = (n - 1) as nat;
        lemma_deps_told_once(changes, old, new, names, m, from);
        let before = note_deps(changes, old, new, names, m);
        let after = note_deps(changes, old, new, names, n);
        let count = before.events.len();
        assert forall|k: int| 0 <= k < count implies after.events[k] == before.events[k] by {}
        assert forall|k: int| from <= k < after.events.len() implies is_noted(
            #[trigger] after.events[k],
            after,
        ) by {
            if k < count {
                assert(is_noted(before.events[k], before));
            }
        }
        assert forall|k: int, l: int| from <= k < l < after.events.len() implies !same_dep_change(
            #[trigger] after.events[k],
            #[trigger] after.events[l],
        ) by {
            if l < count {
                assert(!same_dep_change(before.events[k], before.events[l]));
            } else {
                assert(is_noted(before.events[k], before));
            }
        }
    }
}

/// What the requirements of one manifest add to the changes.
proof fn lemma_deps(
    changes: ChangesView,
    old: Map<Seq<char>, Seq<char>>,
    new: Map<Seq<char>, Seq<char>>,
    names: Seq<Seq<char>>,
    n: nat,
)
    requires
        n <= names.len(),
    ensures
        ({
            let after = note_deps(changes, old, new, names, n);
            &&& after.bumps == changes.bumps
            &&& after.new_crates == changes.new_crates
            &&& changes.breaking.subset_of(after.breaking)
            &&& changes.additive.subset_of(after.additive)
            &&& changes.events.len() <= after.events.len()
            &&& after.events.take(changes.events.len() as int) == changes.events
            &&& forall|k: int|
                0 <= k < n && differs(old, new, #[trigger] names[k], ChangeKind::Breaking)
                    ==> after.breaking.contains(names[k])
            &&& forall|k: int|
                0 <= k < n && differs(old, new, #[trigger] names[k], ChangeKind::Additive)
                    ==> after.breaking.contains(names[k]) || after.additive.contains(names[k])
            &&& forall|name: Seq<char>| #[trigger]
                after.breaking.contains(name) && !changes.breaking.contains(name)
                    ==> names.contains(name) && differs(old, new, name, ChangeKind::Breaking)
            &&& forall|name: Seq<char>| #[trigger]
                after.additive.contains(name) && !changes.additive.contains(name)
                    ==> names.contains(name) && differs(old, new, name, ChangeKind::Additive)
            &&& forall|k: int|
                changes.events.len() <= k < after.events.len() ==> (
                #[trigger] after.events[k] matches EventView::DepVersionChanged {
                    name,
                    old: o,
                    new: w,
                    kind,
                } && names.contains(name) && differs(old, new, name, kind) && o == old[name] && w
                    == new[name] && (kind == ChangeKind::Breaking || kind == ChangeKind::Additive))
        }),
    decreases n,
{
    let after = note_deps(changes, old, new, names, n);
    if n > 0 {
        let m = (n - 1) as nat;
        lemma_deps(changes, old, new, names, m);
        let before = note_deps(changes, old, new, names, m);
        let name = names[n - 1];
        assert(names.contains(name));
        assert(after.events == before.events || after.events.drop_last() == before.events) by {
            if after.events != before.events {
                assert(after.events.drop_last() =~= before.events);
            }
        }
        assert forall|k: int| 0 <= k < before.events.len() implies after.events[k]
            == before.events[k] by {
            if after.events != before.events {
                assert(after.events.drop_last()[k] == before.events[k]);
            }
        }
        assert forall|k: int| 0 <= k < changes.events.len() implies after.events[k]
            == changes.events[k] by {
            assert(before.events.take(changes.events.len() as int)[k] == changes.events[k]);
        }
        assert forall|k: int| changes.events.len() <= k < after.events.len() implies (
        #[trigger] after.events[k] matches EventView::DepVersionChanged {
            name,
            old: o,
            new: w,
            kind,
        } && names.contains(name) && differs(old, new, name, kind) && o == old[name] && w
            == new[name] && (kind == ChangeKind::Breaking || kind == ChangeKind::Additive)) by {
            if k < before.events.len() {
                assert(after.events[k] == before.events[k]);
            }
        }
    }
    assert(after.events.take(changes.events.len() as int) =~= changes.events);
}

/// The versions that two sets of requirements name for `name` differ in this way.
spec fn differs(
    old: Map<Seq<char>, Seq<char>>,
    new: Map<Seq<char>, Seq<char>>,
    name: Seq<char>,
    kind: ChangeKind,
) -> bool {
    &&& old.dom().contains(name)
    &&& required_version(old[name]) is Ok
    &&& required_version(new[name]) is Ok
    &&& change_between(required_version(old[name])->Ok_0, required_version(new[name])->Ok_0) == kind
}

proof fn lemma_finite(versions: Map<Seq<char>, Seq<char>>, deps: Seq<(Seq<char>, TomlView)>, i: int)
    requires
        versions.dom().finite(),
        0 <= i,
    ensures
        with_deps(versions, deps, i).dom().finite(),
        with_missing_deps(versions, deps, i).dom().finite(),
    decreases deps.len() - i,
{
    if i < deps.len() {
        lemma_finite(versions, deps, i + 1);
        if let Some(version) = dep_version(deps[i].1) {
            let more = versions.insert(deps[i].0, version);
            assert(more.dom() =~= versions.dom().insert(deps[i].0));
            lemma_finite(more, deps, i + 1);
        }
    }
}

proof fn lemma_dep_versions_finite(doc: TomlView)
    ensures
        dep_versions(doc).dom().finite(),
{
    let none = Map::<Seq<char>, Seq<char>>::empty();
    assert(none.dom() =~= Set::empty());
    let shared = entries_in(get_in(doc.get("workspace"@), "dependencies"@));
    let normal = entries_in(doc.get("dependencies"@));
    let dev = entries_in(doc.get("dev-dependencies"@));
    let build = entries_in(doc.get("build-dependencies"@));
    lemma_finite(none, shared, 0);
    let first = with_deps(none, shared, 0);
    lemma_finite(first, normal, 0);
    let second = with_missing_deps(first, normal, 0);
    lemma_finite(second, dev, 0);
    lemma_finite(with_missing_deps(second, dev, 0), build, 0);
}

/// What one manifest adds to the changes.
proof fn lemma_manifest(changes: ChangesView, change: ManifestChange)
    ensures
        ({
            let after = note_manifest(changes, change);
            &&& changes.breaking.subset_of(after.breaking)
            &&& changes.additive.subset_of(after.additive)
            &&& changes.new_crates.subset_of(after.new_crates)
            &&& changes.events.len() <= after.events.len()
            &&& after.events.take(changes.events.len() as int) == changes.events
            &&& forall|name: Seq<char>|
                changes_dep(change, name, ChangeKind::Breaking) ==> #[trigger]
                    after.breaking.contains(name)
            &&& forall|name: Seq<char>|
                changes_dep(change, name, ChangeKind::Additive) ==> #[trigger]
                    after.breaking.contains(name) || #[trigger] after.additive.contains(name)
            &&& forall|name: Seq<char>| #[trigger]
                after.breaking.contains(name) && !changes.breaking.contains(name) ==> changes_dep(
                    change,
                    name,
                    ChangeKind::Breaking,
                ) || changes_package(change, name, ChangeKind::Breaking)
            &&& forall|name: Seq<char>| #[trigger]
                after.additive.contains(name) && !changes.additive.contains(name) ==> changes_dep(
                    change,
                    name,
                    ChangeKind::Additive,
                ) || changes_package(change, name, ChangeKind::Additive)
            &&& forall|name: Seq<char>| #[trigger]
                changes.bumps.dom().contains(name) ==> after.bumps.dom().contains(name)
                    && after.bumps[name] == changes.bumps[name]
            &&& forall|name: Seq<char>| #[trigger]
                after.bumps.dom().contains(name) && !changes.bumps.dom().contains(name) ==> exists|
                    from: VersionView,
                    to: VersionView,
                | #[trigger]
                    has_package(change, name, from, to) && change_between(from, to)
                        != ChangeKind::Unchanged && after.bumps[name] == bump_for(
                        from.major,
                        change_between(from, to),
                    )
            &&& forall|name: Seq<char>, from: VersionView, to: VersionView| #[trigger]
                has_package(change, name, from, to) && change_between(from, to)
                    != ChangeKind::Unchanged && !changes.bumps.dom().contains(name) ==> {
                    &&& after.bumps.dom().contains(name)
                    &&& after.bumps[name] == bump_for(from.major, change_between(from, to))
                    &&& change_between(from, to) == ChangeKind::Breaking
                        ==> after.breaking.contains(name)
                    &&& change_between(from, to) == ChangeKind::Additive
                        ==> after.additive.contains(name)
                }
            &&& forall|k: int|
                changes.events.len() <= k < after.events.len() ==> tells_of(
                    #[trigger] after.events[k],
                    change,
                )
        }),
{
    let after = note_manifest(changes, change);
    let file = change.file@;
    if let (BaseSide::Manifest(old), Some(new)) = (change.old, change.new) {
        let from = dep_versions(old.doc@);
        let to = dep_versions(new.doc@);
        let names = ascending(to.dom());
        lemma_dep_versions_finite(new.doc@);
        lemma_ascending_of(to.dom());
        lemma_deps(changes, from, to, names, names.len());
        let noted = note_deps(changes, from, to, names, names.len());
        assert forall|name: Seq<char>| #[trigger] names.contains(name) == to.dom().contains(
            name,
        ) by {
            assert(names.to_set().contains(name) == names.contains(name));
        }
        assert forall|name: Seq<char>, kind: ChangeKind| #[trigger]
            changes_dep(change, name, kind) implies names.contains(name) && differs(
            from,
            to,
            name,
            kind,
        ) by {}
        assert forall|name: Seq<char>| changes_dep(change, name, ChangeKind::Breaking) implies #[trigger]
        noted.breaking.contains(name) by {
            let k = choose|k: int| 0 <= k < names.len() && names[k] == name;
            assert(differs(from, to, names[k], ChangeKind::Breaking));
        }
        assert forall|name: Seq<char>| changes_dep(change, name, ChangeKind::Additive) implies #[trigger]
        noted.breaking.contains(name) || #[trigger] noted.additive.contains(name) by {
            let k = choose|k: int| 0 <= k < names.len() && names[k] == name;
            assert(differs(from, to, names[k], ChangeKind::Additive));
        }
        assert forall|name: Seq<char>, kind: ChangeKind|
            names.contains(name) && #[trigger] differs(from, to, name, kind) implies changes_dep(
            change,
            name,
            kind,
        ) by {}
        assert forall|k: int|
            changes.events.len() <= k < noted.events.len() implies tells_of(
            #[trigger] noted.events[k],
            change,
        ) by {}
        if let (Some((name, before)), Some((other, later))) = (
            package_of(file, old),
            package_of(file, new),
        ) {
            assert(has_package(change, name, before, later));
            let kind = change_between(before, later);
            assert(changes_package(change, name, kind));
            assert(after == note_package(noted, name, before, later));
            assert forall|k: int| 0 <= k < noted.events.len() implies after.events[k]
                == noted.events[k] by {}
            assert forall|k: int| 0 <= k < changes.events.len() implies after.events[k]
                == changes.events[k] by {
                assert(noted.events.take(changes.events.len() as int)[k] == changes.events[k]);
            }
            assert forall|k: int|
                changes.events.len() <= k < after.events.len() implies tells_of(
                #[trigger] after.events[k],
                change,
            ) by {
                if k < noted.events.len() {
                    assert(tells_of(noted.events[k], change));
                }
            }
        } else {
            assert(after == noted);
        }
    }
    assert(after.events.take(changes.events.len() as int) =~= changes.events);
}

} // verus!
