//! Versions, semantic changes and the bumps that they call for.
use vstd::prelude::*;

use crate::order::{
    le, lemma_le_antisymmetric, lemma_le_reflexive, lemma_le_total, lemma_le_transitive,
    lemma_sort_by, sort_by, stable_sort,
};
use crate::text::{copy_texts, join, join_texts, occurrences, texts};

verus! {

/// How much of a version number has to change.
#[derive(Debug, Clone, Copy, PartialEq, Eq, PartialOrd, Ord, Structural)]
pub enum Bump {
    Unchanged,
    Patch,
    Minor,
    Major,
}

impl Bump {
    /// The place of a bump in the order Unchanged, Patch, Minor, Major.
    pub open spec fn rank(self) -> int {
        match self {
            Bump::Unchanged => 0,
            Bump::Patch => 1,
            Bump::Minor => 2,
            Bump::Major => 3,
        }
    }

    /// The name of the bump.
    pub open spec fn label(self) -> Seq<char> {
        match self {
            Bump::Unchanged => "None"@,
            Bump::Patch => "Patch"@,
            Bump::Minor => "Minor"@,
            Bump::Major => "Major"@,
        }
    }

    /// The name of the bump.
    pub fn as_str(self) -> (r: &'static str)
        ensures
            r@ == self.label(),
    {
        match self {
            Bump::Unchanged => "None",
            Bump::Patch => "Patch",
            Bump::Minor => "Minor",
            Bump::Major => "Major",
        }
    }

    /// Whether this bump is at least as large as another.
    pub fn at_least(self, other: Bump) -> (r: bool)
        ensures
            r == (self.rank() >= other.rank()),
    {
        let mine: u8 = match self {
            Bump::Unchanged => 0,
            Bump::Patch => 1,
            Bump::Minor => 2,
            Bump::Major => 3,
        };
        let theirs: u8 = match other {
            Bump::Unchanged => 0,
            Bump::Patch => 1,
            Bump::Minor => 2,
            Bump::Major => 3,
        };
        mine >= theirs
    }
}

/// Semantic classification of a version change, independent of the version scheme.
#[derive(Debug, Clone, Copy, PartialEq, Eq, PartialOrd, Ord, Structural)]
pub enum ChangeKind {
    Unchanged,
    Patch,
    Additive,
    Breaking,
}

impl ChangeKind {
    /// The place of a change in the order Unchanged, Patch, Additive, Breaking.
    pub open spec fn rank(self) -> int {
        match self {
            ChangeKind::Unchanged => 0,
            ChangeKind::Patch => 1,
            ChangeKind::Additive => 2,
            ChangeKind::Breaking => 3,
        }
    }

    /// The name of the change.
    pub open spec fn label(self) -> Seq<char> {
        match self {
            ChangeKind::Unchanged => "None"@,
            ChangeKind::Patch => "Patch"@,
            ChangeKind::Additive => "Additive"@,
            ChangeKind::Breaking => "Breaking"@,
        }
    }

    /// The name of the change.
    pub fn as_str(self) -> (r: &'static str)
        ensures
            r@ == self.label(),
    {
        match self {
            ChangeKind::Unchanged => "None",
            ChangeKind::Patch => "Patch",
            ChangeKind::Additive => "Additive",
            ChangeKind::Breaking => "Breaking",
        }
    }

    /// The larger of two changes.
    pub open spec fn worse(self, other: ChangeKind) -> ChangeKind {
        if self.rank() >= other.rank() {
            self
        } else {
            other
        }
    }

    /// The larger of two changes.
    pub fn worst(self, other: ChangeKind) -> (r: ChangeKind)
        ensures
            r == self.worse(other),
    {
        match (self, other) {
            (ChangeKind::Breaking, _) | (_, ChangeKind::Breaking) => ChangeKind::Breaking,
            (ChangeKind::Additive, _) | (_, ChangeKind::Additive) => ChangeKind::Additive,
            (ChangeKind::Patch, _) | (_, ChangeKind::Patch) => ChangeKind::Patch,
            (ChangeKind::Unchanged, ChangeKind::Unchanged) => ChangeKind::Unchanged,
        }
    }
}

/// A semantic version: its three numbers and its full text.
#[derive(Debug, PartialEq, Eq)]
pub struct Version {
    pub major: u64,
    pub minor: u64,
    pub patch: u64,
    pub text: String,
}

/// What a version says.
pub struct VersionView {
    pub major: u64,
    pub minor: u64,
    pub patch: u64,
    pub text: Seq<char>,
}

impl View for Version {
    type V = VersionView;

    open spec fn view(&self) -> VersionView {
        VersionView {
            major: self.major,
            minor: self.minor,
            patch: self.patch,
            text: self.text@,
        }
    }
}

impl Clone for Version {
    fn clone(&self) -> (copy: Version)
        ensures
            copy == *self,
    {
        Version {
            major: self.major,
            minor: self.minor,
            patch: self.patch,
            text: self.text.clone(),
        }
    }
}

/// `n` in decimal digits, without leading zeros.
pub open spec fn decimal(n: nat) -> Seq<char>
    decreases n,
{
    if n < 10 {
        seq![(48 + n) as char]
    } else {
        decimal(n / 10).push((48 + n % 10) as char)
    }
}

/// Only digits occur in a decimal number.
pub proof fn lemma_decimal_digits(n: nat, c: char)
    requires
        !('0' <= c <= '9'),
    ensures
        occurrences(decimal(n), c) == 0,
    decreases n,
{
    if n < 10 {
        reveal_with_fuel(occurrences, 2);
    } else {
        lemma_decimal_digits(n / 10, c);
        assert(decimal(n).drop_last() =~= decimal(n / 10));
    }
}

/// The text of a version that consists of three numbers alone.
pub open spec fn release_text(major: u64, minor: u64, patch: u64) -> Seq<char> {
    decimal(major as nat) + "."@ + decimal(minor as nat) + "."@ + decimal(patch as nat)
}

/// The three numbers that `semver::Version::parse` finds in `text`; none where
/// it reports an error.
pub uninterp spec fn parsed_version(text: Seq<char>) -> Option<(u64, u64, u64)>;

/// `semver::Error` says why a text is not a version.
#[verifier::external_type_specification]
#[verifier::external_body]
pub struct ExSemverError(::semver::Error);

/// Where `text` is three numbers with dots between them, `r` has these numbers.
pub open spec fn reads_release(text: Seq<char>, r: Result<Version, ::semver::Error>) -> bool {
    forall|major: u64, minor: u64, patch: u64|
        text == #[trigger] release_text(major, minor, patch) ==> (r matches Ok(version)
            && version.major == major && version.minor == minor && version.patch == patch)
}

/// `semver::Version::parse` depends on the text alone. It accepts no two
/// spellings of one version, so what it accepts is the version's full text.
/// Three numbers in decimal with dots between them are a version.
#[verifier::external_body]
fn semver_parse(text: &str) -> (r: Result<Version, ::semver::Error>)
    ensures
        match r {
            Ok(version) => parsed_version(text@) == Some(
                (version.major, version.minor, version.patch),
            ) && version.text@ == text@,
            Err(_) => parsed_version(text@) is None,
        },
        reads_release(text@, r),
{
    let version = ::semver::Version::parse(text)?;
    Ok(
        Version {
            major: version.major,
            minor: version.minor,
            patch: version.patch,
            text: version.to_string(),
        },
    )
}

/// The version that `text` spells.
pub open spec fn version_of(text: Seq<char>) -> Option<VersionView> {
    match parsed_version(text) {
        Some((major, minor, patch)) => Some(VersionView { major, minor, patch, text }),
        None => None,
    }
}

impl Version {
    /// Read a version; `None` where the text is not one.
    pub fn parse(text: &str) -> (r: Option<Version>)
        ensures
            version_of(text@) == match r {
                Some(version) => Some(version@),
                None => None,
            },
            forall|major: u64, minor: u64, patch: u64|
                text@ == #[trigger] release_text(major, minor, patch) ==> r is Some
                    && version_of(text@) == Some(
                    VersionView { major, minor, patch, text: text@ },
                ),
    {
        match semver_parse(text) {
            Ok(version) => Some(version),
            Err(_) => None,
        }
    }
}

/// The change between two versions, by their numbers.
///
/// For `0.y.z` a minor change is breaking. From `1.0.0` on a major change is
/// breaking and a minor change is additive.
pub open spec fn change_between(old: VersionView, new: VersionView) -> ChangeKind {
    let initial = old.major == 0 && new.major == 0;
    if old.major != new.major {
        ChangeKind::Breaking
    } else if old.minor != new.minor {
        if initial {
            ChangeKind::Breaking
        } else {
            ChangeKind::Additive
        }
    } else if old.patch != new.patch {
        ChangeKind::Patch
    } else {
        ChangeKind::Unchanged
    }
}

/// Classify the semantic change between two versions.
/// For `0.y.z`: minor change = Breaking, patch change = Patch.
/// For `>=1.0.0`: major change = Breaking, minor change = Additive, patch change = Patch.
pub fn classify_version_change(old: &Version, new: &Version) -> (change: ChangeKind)
    ensures
        change == change_between(old@, new@),
        change == ChangeKind::Breaking <==> old.major != new.major || (old.major == 0 && old.minor
            != new.minor),
        change == ChangeKind::Additive <==> old.major == new.major && old.major >= 1 && old.minor
            != new.minor,
        change == ChangeKind::Patch <==> old.major == new.major && old.minor == new.minor
            && old.patch != new.patch,
{
    if old.major == 0 && new.major == 0 {
        if old.minor != new.minor {
            ChangeKind::Breaking
        } else if old.patch != new.patch {
            ChangeKind::Patch
        } else {
            ChangeKind::Unchanged
        }
    } else if old.major != new.major {
        ChangeKind::Breaking
    } else if old.minor != new.minor {
        ChangeKind::Additive
    } else if old.patch != new.patch {
        ChangeKind::Patch
    } else {
        ChangeKind::Unchanged
    }
}

/// The bump that a change calls for in a crate whose major version is `major`.
pub open spec fn bump_for(major: u64, change: ChangeKind) -> Bump {
    match change {
        ChangeKind::Breaking => if major == 0 {
            Bump::Minor
        } else {
            Bump::Major
        },
        ChangeKind::Additive => if major == 0 {
            Bump::Patch
        } else {
            Bump::Minor
        },
        ChangeKind::Patch => Bump::Patch,
        ChangeKind::Unchanged => Bump::Unchanged,
    }
}

/// Map a semantic change kind to the concrete version bump needed,
/// based on the consumer crate's current version scheme.
pub fn required_bump(version: &Version, change: ChangeKind) -> (bump: Bump)
    ensures
        bump == bump_for(version.major, change),
{
    match change {
        ChangeKind::Breaking => {
            if version.major == 0 {
                Bump::Minor
            } else {
                Bump::Major
            }
        },
        ChangeKind::Additive => {
            if version.major == 0 {
                Bump::Patch
            } else {
                Bump::Minor
            }
        },
        ChangeKind::Patch => Bump::Patch,
        ChangeKind::Unchanged => Bump::Unchanged,
    }
}

/// The bump that a change calls for, or `unknown` where the crate's version is
/// not known.
pub open spec fn bump_or(version: Option<Version>, change: ChangeKind, unknown: Bump) -> Bump {
    match version {
        Some(v) => bump_for(v.major, change),
        None => unknown,
    }
}

/// The bump that a change calls for, or `unknown` where the crate's version is
/// not known.
pub fn required_bump_or(version: Option<&Version>, change: ChangeKind, unknown: Bump) -> (bump:
    Bump)
    ensures
        bump == bump_or(
            match version {
                Some(v) => Some(*v),
                None => None,
            },
            change,
            unknown,
        ),
{
    match version {
        Some(v) => required_bump(v, change),
        None => unknown,
    }
}

/// `name` between double quotes.
pub open spec fn quoted(name: Seq<char>) -> Seq<char> {
    "\""@ + name + "\""@
}

/// A list of names in ascending order, as `{"a", "b", "c"}`.
pub open spec fn name_set_text(names: Seq<Seq<char>>) -> Seq<char> {
    "{"@ + join(
        sort_by(names, |n: Seq<char>| n).map_values(|n: Seq<char>| quoted(n)),
        ", "@,
    ) + "}"@
}

/// Format a set of strings as `{"a", "b", "c"}` for user-facing output.
pub fn format_name_set(names: &Vec<String>) -> (r: String)
    ensures
        r@ == name_set_text(texts(names@)),
{
    let copy = copy_texts(names);
    let ghost unsorted = copy@;
    let sorted = stable_sort(copy);
    proof {
        let key = |s: String| crate::order::Keyed::key(&s);
        crate::order::lemma_sort_by_map(
            unsorted,
            key,
            |s: String| s@,
            |n: Seq<char>| n,
        );
        assert(texts(sorted@) == sort_by(texts(names@), |n: Seq<char>| n));
    }
    let mut quotes: Vec<String> = Vec::new();
    let ghost wanted = texts(sorted@).map_values(|n: Seq<char>| quoted(n));
    for i in 0..sorted.len()
        invariant
            wanted == texts(sorted@).map_values(|n: Seq<char>| quoted(n)),
            texts(quotes@) == wanted.take(i as int),
    {
        let mut quote = String::new();
        quote.append("\"");
        quote.append(sorted[i].as_str());
        quote.append("\"");
        assert(quote@ =~= quoted(sorted@[i as int]@));
        let ghost before = texts(quotes@);
        quotes.push(quote);
        assert(texts(quotes@) =~= before.push(wanted[i as int]));
        assert(wanted.take(i + 1) =~= wanted.take(i as int).push(wanted[i as int]));
    }
    assert(wanted.take(sorted.len() as int) =~= wanted);
    let mut r = String::new();
    r.append("{");
    r.append(join_texts(&quotes, ", ").as_str());
    r.append("}");
    assert(r@ =~= name_set_text(texts(names@)));
    r
}

/// Lists that hold the same names equally often are formatted alike.
pub proof fn law_name_set_text_ignores_order(a: Seq<Seq<char>>, b: Seq<Seq<char>>)
    requires
        a.to_multiset() == b.to_multiset(),
    ensures
        name_set_text(a) == name_set_text(b),
{
    let key = |n: Seq<char>| n;
    lemma_sort_by(a, key);
    lemma_sort_by(b, key);
    let leq = |x: Seq<char>, y: Seq<char>| le(x, y);
    let sa = sort_by(a, key);
    let sb = sort_by(b, key);
    assert forall|i: int, j: int| 0 <= i < j < sa.len() implies #[trigger] leq(sa[i], sa[j]) by {
        assert(le(key(sa[i]), key(sa[j])));
    }
    assert forall|i: int, j: int| 0 <= i < j < sb.len() implies #[trigger] leq(sb[i], sb[j]) by {
        assert(le(key(sb[i]), key(sb[j])));
    }
    assert(vstd::relations::total_ordering(leq)) by {
        assert forall|x: Seq<char>| #[trigger] leq(x, x) by {
            lemma_le_reflexive(x);
        }
        assert forall|x: Seq<char>, y: Seq<char>| #[trigger] leq(x, y) && #[trigger] leq(
            y,
            x,
        ) implies x == y by {
            lemma_le_antisymmetric(x, y);
        }
        assert forall|x: Seq<char>, y: Seq<char>, z: Seq<char>| #[trigger]
            leq(x, y) && #[trigger] leq(y, z) implies leq(x, z) by {
            lemma_le_transitive(x, y, z);
        }
        assert forall|x: Seq<char>, y: Seq<char>| #[trigger] leq(x, y) || #[trigger] leq(y, x) by {
            lemma_le_total(x, y);
        }
    }
    vstd::seq_lib::lemma_sorted_unique(sa, sb, leq);
}

/// A version is unchanged against itself, and only versions with the same
/// three numbers are.
pub proof fn law_no_change_means_same_numbers(old: VersionView, new: VersionView)
    ensures
        (change_between(old, new) == ChangeKind::Unchanged) == (old.major == new.major && old.minor
            == new.minor && old.patch == new.patch),
{
}

/// The direction of a change does not matter to its kind.
pub proof fn law_change_is_symmetric(old: VersionView, new: VersionView)
    ensures
        change_between(old, new) == change_between(new, old),
{
}

/// Between two versions below `1.0.0` no change is additive.
pub proof fn law_initial_versions_have_no_additive_change(old: VersionView, new: VersionView)
    requires
        old.major == 0,
        new.major == 0,
    ensures
        change_between(old, new) != ChangeKind::Additive,
{
}

/// A larger change never calls for a smaller bump.
pub proof fn law_bump_grows_with_change(major: u64, small: ChangeKind, large: ChangeKind)
    requires
        small.rank() <= large.rank(),
    ensures
        bump_for(major, small).rank() <= bump_for(major, large).rank(),
{
}

/// Only a breaking change from `1.0.0` on calls for a major bump.
pub proof fn law_major_bump_is_for_breaking_releases(major: u64, change: ChangeKind)
    ensures
        (bump_for(major, change) == Bump::Major) == (change == ChangeKind::Breaking && major > 0),
{
}

/// A crate that is bumped as a breaking change requires is seen to change in a
/// breaking way: bumping as required never hides a breaking change.
pub proof fn law_required_bump_reveals_breaking(old: VersionView, new: VersionView)
    requires
        match bump_for(old.major, ChangeKind::Breaking) {
            Bump::Major => new.major > old.major,
            _ => new.major == old.major && new.minor > old.minor,
        },
    ensures
        change_between(old, new) == ChangeKind::Breaking,
{
}

} // verus!
