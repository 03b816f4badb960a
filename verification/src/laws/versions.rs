//! Laws of versions, changes and bumps.
use vstd::prelude::*;

use crate::semver::{
    bump_for, bump_or, change_between, parsed_version, version_of, Bump, ChangeKind, Version,
    VersionView,
};

verus! {

/// A change is breaking if and only if the major numbers differ, or the minor
/// numbers do below `1.0.0`.
pub proof fn law_breaking_change(old: VersionView, new: VersionView)
    ensures
        change_between(old, new) == ChangeKind::Breaking <==> old.major != new.major || (old.major
            == 0 && old.minor != new.minor),
{
}

/// From `1.0.0` on, a change of the minor number under the same major number is
/// additive, whatever the patch numbers are; no other change is.
pub proof fn law_additive_change(old: VersionView, new: VersionView)
    ensures
        change_between(old, new) == ChangeKind::Additive <==> old.major == new.major && old.major
            >= 1 && old.minor != new.minor,
{
}

/// A change is a patch if and only if the patch numbers differ and the major and
/// minor numbers do not.
pub proof fn law_patch_change(old: VersionView, new: VersionView)
    ensures
        change_between(old, new) == ChangeKind::Patch <==> old.major == new.major && old.minor
            == new.minor && old.patch != new.patch,
{
}

/// A version that is read from a text keeps the text.
pub proof fn law_version_keeps_its_text(text: Seq<char>)
    ensures
        version_of(text) matches Some(version) ==> version.text == text && parsed_version(text)
            == Some((version.major, version.minor, version.patch)),
        version_of(text) is None <==> parsed_version(text) is None,
{
}

/// Changes and bumps are ordered from none to the largest.
pub proof fn law_order_of_changes_and_bumps()
    ensures
        ChangeKind::Unchanged.rank() < ChangeKind::Patch.rank() < ChangeKind::Additive.rank()
            < ChangeKind::Breaking.rank(),
        Bump::Unchanged.rank() < Bump::Patch.rank() < Bump::Minor.rank() < Bump::Major.rank(),
{
}

/// Of two changes the worse one is one of them, and neither is worse than it.
pub proof fn law_worse_is_the_larger(a: ChangeKind, b: ChangeKind)
    ensures
        a.worse(b) == a || a.worse(b) == b,
        a.worse(b).rank() >= a.rank(),
        a.worse(b).rank() >= b.rank(),
        a.worse(b) == b.worse(a),
        a.worse(ChangeKind::Breaking) == ChangeKind::Breaking,
        a.worse(ChangeKind::Unchanged) == a,
{
}

/// The labels of different changes, and of different bumps, differ.
pub proof fn law_labels_tell_apart(a: ChangeKind, b: ChangeKind, c: Bump, d: Bump)
    ensures
        a.label() == b.label() ==> a == b,
        c.label() == d.label() ==> c == d,
{
    reveal_strlit("None");
    reveal_strlit("Patch");
    reveal_strlit("Additive");
    reveal_strlit("Breaking");
    reveal_strlit("Minor");
    reveal_strlit("Major");
    assert("None"@[0] == 'N');
    assert("Patch"@[0] == 'P');
    assert("Additive"@[0] == 'A');
    assert("Breaking"@[0] == 'B');
    assert("Minor"@[0] == 'M' && "Minor"@[1] == 'i');
    assert("Major"@[0] == 'M' && "Major"@[1] == 'a');
}

/// The numbers of a version after a bump.
pub open spec fn after_bump(version: (nat, nat, nat), bump: Bump) -> (nat, nat, nat) {
    match bump {
        Bump::Major => (version.0 + 1, 0, 0),
        Bump::Minor => (version.0, version.1 + 1, 0),
        Bump::Patch => (version.0, version.1, version.2 + 1),
        Bump::Unchanged => version,
    }
}

/// A crate that is bumped as a change requires is then seen to change in this
/// way. Below `1.0.0` an additive change looks like a patch.
pub proof fn law_required_bump_makes_the_change(
    old: VersionView,
    new: VersionView,
    change: ChangeKind,
)
    requires
        (new.major as nat, new.minor as nat, new.patch as nat) == after_bump(
            (old.major as nat, old.minor as nat, old.patch as nat),
            bump_for(old.major, change),
        ),
    ensures
        old.major >= 1 || change != ChangeKind::Additive ==> change_between(old, new) == change,
        old.major == 0 && change == ChangeKind::Additive ==> change_between(old, new)
            == ChangeKind::Patch,
{
}

/// A minor bump is for an additive change from `1.0.0` on, and for a breaking
/// change below.
pub proof fn law_minor_bump(major: u64, change: ChangeKind)
    ensures
        bump_for(major, change) == Bump::Minor <==> (change == ChangeKind::Additive && major >= 1)
            || (change == ChangeKind::Breaking && major == 0),
{
}

/// A patch bump is for a patch, and for an additive change below `1.0.0`.
pub proof fn law_patch_bump(major: u64, change: ChangeKind)
    ensures
        bump_for(major, change) == Bump::Patch <==> change == ChangeKind::Patch || (change
            == ChangeKind::Additive && major == 0),
        bump_for(major, change) == Bump::Unchanged <==> change == ChangeKind::Unchanged,
{
}

/// Where the version of a crate is known, its major number decides on the bump;
/// otherwise the given bump is taken.
pub proof fn law_known_version_decides(version: Version, change: ChangeKind, unknown: Bump)
    ensures
        bump_or(None, change, unknown) == unknown,
        bump_or(Some(version), change, unknown) == Bump::Major <==> change == ChangeKind::Breaking
            && version.major >= 1,
        bump_or(Some(version), change, unknown) == Bump::Minor <==> (change == ChangeKind::Additive
            && version.major >= 1) || (change == ChangeKind::Breaking && version.major == 0),
        bump_or(Some(version), change, unknown) == Bump::Patch <==> change == ChangeKind::Patch || (
        change == ChangeKind::Additive && version.major == 0),
        bump_or(Some(version), change, unknown) == Bump::Unchanged <==> change
            == ChangeKind::Unchanged,
{
}

/// Bumps and changes are shown by their names.
pub proof fn law_names_of_bumps_and_changes()
    ensures
        Bump::Major.label() == "Major"@,
        Bump::Minor.label() == "Minor"@,
        Bump::Patch.label() == "Patch"@,
        Bump::Unchanged.label() == "None"@,
        ChangeKind::Breaking.label() == "Breaking"@,
        ChangeKind::Additive.label() == "Additive"@,
        ChangeKind::Patch.label() == "Patch"@,
        ChangeKind::Unchanged.label() == "None"@,
{
}

} // verus!
