//! Seeds: version changes between two states of the manifests.
use vstd::prelude::*;

use crate::laws::changes::{changes_dep, law_changed_dependencies_are_seeds};
use crate::manifest::{entries_in, get_from, get_in, str_from, text_in, TomlValue, TomlView};
use crate::names::{ascending, NameMap, NameSet};
use crate::order::text_eq;
use crate::report::event::{BumpSource, Event, EventView};
use crate::report::sink::EventSink;
use crate::semver::{
    bump_for, change_between, classify_version_change, decimal, lemma_decimal_digits, release_text,
    required_bump, version_of, Bump, ChangeKind, Version, VersionView,
};
use crate::text::{
    contains_char, count_char, ends_with, lemma_occurrences_concat, lemma_occurrences_contains,
    lines, occurrences, part, split_lines, strip_leading, strip_leading_char, text_ends_with,
    texts, to_chars, trim, trim_text,
};

verus! {

/// Why a version requirement was not read as one version.
#[derive(Debug, Clone, Copy, PartialEq, Eq, Structural)]
pub enum RequirementError {
    /// It holds more than one comparison, or a wildcard.
    Complex,
    /// What it names is not a version.
    Invalid,
}

/// A requirement without white space around it and without the leading
/// operators `^`, `~` and `=`.
pub open spec fn bare_requirement(requirement: Seq<char>) -> Seq<char> {
    strip_leading(strip_leading(strip_leading(trim(requirement), '^'), '~'), '=')
}

/// The requirement compares more than once, or with a wildcard.
pub open spec fn is_complex(bare: Seq<char>) -> bool {
    bare.contains(',') || bare.contains('>') || bare.contains('<') || bare.contains('*')
}

/// `bare` with as many `.0` as make it three parts.
pub open spec fn three_parts(bare: Seq<char>) -> Seq<char> {
    if occurrences(bare, '.') == 0 {
        bare + ".0.0"@
    } else if occurrences(bare, '.') == 1 {
        bare + ".0"@
    } else {
        bare
    }
}

/// The version that a requirement names.
pub open spec fn required_version(requirement: Seq<char>) -> Result<VersionView, RequirementError> {
    let bare = bare_requirement(requirement);
    if is_complex(bare) {
        Err(RequirementError::Complex)
    } else {
        match version_of(three_parts(bare)) {
            Some(version) => Ok(version),
            None => Err(RequirementError::Invalid),
        }
    }
}

/// What a result with a version says.
pub open spec fn version_result<E>(r: Result<Version, E>) -> Result<VersionView, E> {
    match r {
        Ok(version) => Ok(version@),
        Err(e) => Err(e),
    }
}

/// `bare` spells the three numbers of a version, or leaves out the last one or
/// two of them where they are zero.
pub open spec fn spells(bare: Seq<char>, major: u64, minor: u64, patch: u64) -> bool {
    ||| bare == release_text(major, minor, patch)
    ||| patch == 0 && bare == decimal(major as nat) + "."@ + decimal(minor as nat)
    ||| minor == 0 && patch == 0 && bare == decimal(major as nat)
}

proof fn lemma_spells(bare: Seq<char>, major: u64, minor: u64, patch: u64)
    requires
        spells(bare, major, minor, patch),
    ensures
        !is_complex(bare),
        three_parts(bare) == release_text(major, minor, patch),
{
    reveal_strlit(".");
    reveal_strlit(".0");
    reveal_strlit(".0.0");
    let a = decimal(major as nat);
    let b = decimal(minor as nat);
    let c = decimal(patch as nat);
    let dot = "."@;
    assert(dot =~= seq!['.']);
    assert forall|x: char| !('0' <= x <= '9') implies #[trigger] occurrences(bare, x) == if x
        != '.' {
        0
    } else if bare == a {
        0
    } else if bare == a + dot + b {
        1
    } else {
        2nat
    } by {
        lemma_decimal_digits(major as nat, x);
        lemma_decimal_digits(minor as nat, x);
        lemma_decimal_digits(patch as nat, x);
        assert(occurrences(dot, x) == if x == '.' {
            1
        } else {
            0nat
        }) by {
            reveal_with_fuel(occurrences, 2);
        }
        lemma_occurrences_concat(a, dot, x);
        lemma_occurrences_concat(a + dot, b, x);
        lemma_occurrences_concat(a + dot + b, dot, x);
        lemma_occurrences_concat(a + dot + b + dot, c, x);
    }
    assert(!is_complex(bare)) by {
        lemma_occurrences_contains(bare, ',');
        lemma_occurrences_contains(bare, '>');
        lemma_occurrences_contains(bare, '<');
        lemma_occurrences_contains(bare, '*');
    }
    assert(occurrences(bare, '.') <= 2);
    assert(decimal(0) =~= seq!['0']);
    if bare == a {
        assert(three_parts(bare) =~= a + dot + decimal(0) + dot + decimal(0));
    } else if bare == a + dot + b {
        assert(three_parts(bare) =~= a + dot + b + dot + decimal(0));
    }
}

/// Read a version requirement such as `^1.2` as the version that it names.
pub fn normalize_version(ver_str: &str) -> (r: Result<Version, RequirementError>)
    ensures
        version_result(r) == required_version(ver_str@),
        forall|major: u64, minor: u64, patch: u64| #[trigger]
            spells(bare_requirement(ver_str@), major, minor, patch) ==> (r matches Ok(version)
                && version.major == major && version.minor == minor && version.patch == patch),
{
    let trimmed = trim_text(ver_str);
    let no_caret = strip_leading_char(trimmed.as_str(), '^');
    let no_tilde = strip_leading_char(no_caret.as_str(), '~');
    let ver = strip_leading_char(no_tilde.as_str(), '=');
    proof {
        assert forall|major: u64, minor: u64, patch: u64| #[trigger]
            spells(ver@, major, minor, patch) implies !is_complex(ver@) && three_parts(ver@)
            == release_text(major, minor, patch) by {
            lemma_spells(ver@, major, minor, patch);
        }
    }
    if contains_char(ver.as_str(), ',') || contains_char(ver.as_str(), '>') || contains_char(
        ver.as_str(),
        '<',
    ) || contains_char(ver.as_str(), '*') {
        return Err(RequirementError::Complex);
    }
    let dots = count_char(ver.as_str(), '.');
    let mut normalized = ver;
    if dots == 0 {
        normalized.append(".0.0");
    } else if dots == 1 {
        normalized.append(".0");
    }
    match Version::parse(normalized.as_str()) {
        Some(version) => Ok(version),
        None => Err(RequirementError::Invalid),
    }
}

/// The version requirement of a dependency: the value itself, or the table's
/// `version`.
pub open spec fn dep_version(value: TomlView) -> Option<Seq<char>> {
    match value {
        TomlView::Text(s) => Some(s),
        TomlView::Table(_) => text_in(value.get("version"@)),
        _ => None,
    }
}

/// The version requirement of a dependency.
pub fn dep_version_string(value: &TomlValue) -> (r: Option<String>)
    ensures
        dep_version(value@) == match r {
            Some(s) => Some(s@),
            None => None,
        },
{
    match value {
        TomlValue::Text(s) => Some(s.clone()),
        TomlValue::Table(_) => {
            match str_from(value.get("version")) {
                Some(s) => Some(s.to_owned()),
                None => None,
            }
        },
        _ => None,
    }
}

/// `versions` with the requirement of each dependency from position `i` on, in
/// place of an earlier one.
pub open spec fn with_deps(
    versions: Map<Seq<char>, Seq<char>>,
    deps: Seq<(Seq<char>, TomlView)>,
    i: int,
) -> Map<Seq<char>, Seq<char>>
    decreases deps.len() - i,
{
    if i < 0 || i >= deps.len() {
        versions
    } else {
        let next = match dep_version(deps[i].1) {
            Some(version) => versions.insert(deps[i].0, version),
            None => versions,
        };
        with_deps(next, deps, i + 1)
    }
}

/// `versions` with the requirement of each dependency from position `i` on that
/// has none yet.
pub open spec fn with_missing_deps(
    versions: Map<Seq<char>, Seq<char>>,
    deps: Seq<(Seq<char>, TomlView)>,
    i: int,
) -> Map<Seq<char>, Seq<char>>
    decreases deps.len() - i,
{
    if i < 0 || i >= deps.len() {
        versions
    } else {
        let next = match dep_version(deps[i].1) {
            Some(version) if !versions.dom().contains(deps[i].0) => versions.insert(
                deps[i].0,
                version,
            ),
            _ => versions,
        };
        with_missing_deps(next, deps, i + 1)
    }
}

/// The version requirements of a manifest: those of the workspace, and after
/// them those of the package's dependencies, dev-dependencies and
/// build-dependencies, the first one of each dependency.
pub open spec fn dep_versions(doc: TomlView) -> Map<Seq<char>, Seq<char>> {
    let workspace = with_deps(
        Map::empty(),
        entries_in(get_in(doc.get("workspace"@), "dependencies"@)),
        0,
    );
    let normal = with_missing_deps(workspace, entries_in(doc.get("dependencies"@)), 0);
    let dev = with_missing_deps(normal, entries_in(doc.get("dev-dependencies"@)), 0);
    with_missing_deps(dev, entries_in(doc.get("build-dependencies"@)), 0)
}

/// What a map of texts says.
pub open spec fn text_map(map: Map<Seq<char>, String>) -> Map<Seq<char>, Seq<char>> {
    map.map_values(|s: String| s@)
}

fn add_deps(versions: &mut NameMap<String>, deps: Option<&TomlValue>, replace: bool)
    ensures
        ({
            let entries = entries_in(
                match deps {
                    Some(v) => Some(v@),
                    None => None,
                },
            );
            text_map(final(versions)@) == if replace {
                with_deps(text_map(old(versions)@), entries, 0)
            } else {
                with_missing_deps(text_map(old(versions)@), entries, 0)
            }
        }),
{
    let ghost pairs = entries_in(
        match deps {
            Some(v) => Some(v@),
            None => None,
        },
    );
    let Some(value) = deps else {
        return ;
    };
    let Some(entries) = value.as_table() else {
        return ;
    };
    let ghost before = text_map(versions@);
    for i in 0..entries.len()
        invariant
            pairs.len() == entries.len(),
            forall|k: int|
                0 <= k < pairs.len() ==> #[trigger] pairs[k] == (
                    entries@[k].key@,
                    entries@[k].value@,
                ),
            replace ==> with_deps(before, pairs, 0) == with_deps(
                text_map(versions@),
                pairs,
                i as int,
            ),
            !replace ==> with_missing_deps(before, pairs, 0) == with_missing_deps(
                text_map(versions@),
                pairs,
                i as int,
            ),
    {
        let entry = &entries[i];
        let ghost now = versions@;
        assert(pairs[i as int] == (entry.key@, entry.value@));
        assert(text_map(now).dom() =~= now.dom());
        if let Some(version) = dep_version_string(&entry.value) {
            let ghost v = version;
            if replace || !versions.contains_key(entry.key.as_str()) {
                versions.insert(entry.key.clone(), version);
                assert(text_map(versions@) =~= text_map(now).insert(entry.key@, v@));
            }
        }
    }
}

/// The version requirements of a manifest.
pub fn extract_dep_versions(doc: &TomlValue) -> (versions: NameMap<String>)
    ensures
        text_map(versions@) == dep_versions(doc@),
{
    let mut versions: NameMap<String> = NameMap::new();
    assert(text_map(versions@) =~= Map::empty());
    add_deps(&mut versions, get_from(doc.get("workspace"), "dependencies"), true);
    add_deps(&mut versions, doc.get("dependencies"), false);
    add_deps(&mut versions, doc.get("dev-dependencies"), false);
    add_deps(&mut versions, doc.get("build-dependencies"), false);
    versions
}

proof fn lemma_missing_deps_keep(
    versions: Map<Seq<char>, Seq<char>>,
    deps: Seq<(Seq<char>, TomlView)>,
    i: int,
    name: Seq<char>,
)
    requires
        versions.dom().contains(name),
    ensures
        with_missing_deps(versions, deps, i).dom().contains(name),
        with_missing_deps(versions, deps, i)[name] == versions[name],
    decreases deps.len() - i,
{
    if 0 <= i < deps.len() {
        let next = match dep_version(deps[i].1) {
            Some(version) if !versions.dom().contains(deps[i].0) => versions.insert(
                deps[i].0,
                version,
            ),
            _ => versions,
        };
        lemma_missing_deps_keep(next, deps, i + 1, name);
    }
}

/// A requirement of the workspace takes priority over those of the package.
pub proof fn law_workspace_requirement_takes_priority(doc: TomlView, name: Seq<char>)
    requires
        with_deps(
            Map::empty(),
            entries_in(get_in(doc.get("workspace"@), "dependencies"@)),
            0,
        ).dom().contains(name),
    ensures
        dep_versions(doc).dom().contains(name),
        dep_versions(doc)[name] == with_deps(
            Map::empty(),
            entries_in(get_in(doc.get("workspace"@), "dependencies"@)),
            0,
        )[name],
{
    let workspace = with_deps(
        Map::empty(),
        entries_in(get_in(doc.get("workspace"@), "dependencies"@)),
        0,
    );
    let normal = with_missing_deps(workspace, entries_in(doc.get("dependencies"@)), 0);
    let dev = with_missing_deps(normal, entries_in(doc.get("dev-dependencies"@)), 0);
    lemma_missing_deps_keep(workspace, entries_in(doc.get("dependencies"@)), 0, name);
    lemma_missing_deps_keep(normal, entries_in(doc.get("dev-dependencies"@)), 0, name);
    lemma_missing_deps_keep(dev, entries_in(doc.get("build-dependencies"@)), 0, name);
}

/// A path without trailing separators and trailing `.` components.
pub open spec fn trim_tail(path: Seq<char>) -> Seq<char>
    decreases path.len(),
{
    if path.len() > 1 && (path.last() == '/' || (path.last() == '.' && path[path.len() - 2]
        == '/')) {
        trim_tail(path.drop_last())
    } else {
        path
    }
}

/// The position behind the last separator; zero where there is none.
pub open spec fn after_last_slash(path: Seq<char>) -> nat
    decreases path.len(),
{
    if path.len() == 0 || path.last() == '/' {
        path.len()
    } else {
        after_last_slash(path.drop_last())
    }
}

/// The path of the directory that holds `path`, whose components are separated
/// by `/`; none for the root and for the empty path.
pub open spec fn parent_dir(path: Seq<char>) -> Option<Seq<char>> {
    let whole = trim_tail(path);
    if whole.len() == 0 || whole == seq!['/'] {
        None
    } else {
        Some(trim_tail(whole.take(after_last_slash(whole) as int)))
    }
}

fn trimmed_len(chars: &Vec<char>, len: usize) -> (r: usize)
    requires
        len <= chars.len(),
    ensures
        r <= len,
        chars@.take(r as int) == trim_tail(chars@.take(len as int)),
{
    let mut end: usize = len;
    while end > 1 && (chars[end - 1] == '/' || (chars[end - 1] == '.' && chars[end - 2] == '/'))
        invariant
            end <= len <= chars.len(),
            trim_tail(chars@.take(end as int)) == trim_tail(chars@.take(len as int)),
        decreases end,
    {
        assert(chars@.take(end as int).drop_last() =~= chars@.take(end - 1));
        end = end - 1;
    }
    end
}

/// The directory that holds a path.
pub fn parent_of(path: &str) -> (r: Option<String>)
    ensures
        parent_dir(path@) == match r {
            Some(dir) => Some(dir@),
            None => None,
        },
{
    let chars = to_chars(path);
    assert(chars@.take(chars.len() as int) =~= path@);
    let len = trimmed_len(&chars, chars.len());
    let ghost whole = trim_tail(path@);
    if len == 0 || (len == 1 && chars[0] == '/') {
        assert(len == 1 ==> whole =~= seq!['/']);
        return None;
    }
    assert(whole != seq!['/']) by {
        if whole == seq!['/'] {
            assert(whole.len() == 1 && whole[0] == '/');
        }
    }
    let mut cut: usize = len;
    while cut > 0 && chars[cut - 1] != '/'
        invariant
            cut <= len <= chars.len(),
            whole == chars@.take(len as int),
            after_last_slash(whole) == after_last_slash(chars@.take(cut as int)),
        decreases cut,
    {
        assert(chars@.take(cut as int).drop_last() =~= chars@.take(cut - 1));
        cut = cut - 1;
    }
    assert(whole.take(cut as int) =~= chars@.take(cut as int));
    let end = trimmed_len(&chars, cut);
    assert(chars@.subrange(0, end as int) =~= chars@.take(end as int));
    Some(part(&chars, 0, end))
}

/// The directory above `dir`; the empty path above the top.
pub open spec fn dir_above(dir: Seq<char>) -> Seq<char> {
    match parent_dir(dir) {
        Some(parent) => parent,
        None => Seq::empty(),
    }
}

/// The path of the manifest in `dir`.
pub open spec fn manifest_in(dir: Seq<char>) -> Seq<char> {
    if dir.len() == 0 {
        "Cargo.toml"@
    } else {
        dir + "/Cargo.toml"@
    }
}

/// Why the version of a workspace was not found.
#[derive(Debug, Clone, Copy, PartialEq, Eq, Structural)]
pub enum WorkspaceError {
    /// The crate's manifest path names no file in a directory.
    NoParentDir,
    /// The workspace's version is not a version.
    InvalidVersion,
    /// The workspace has no `package.version`.
    NoVersion,
    /// No directory above the crate has a workspace manifest.
    NoManifest,
}

/// Where the search for a workspace's version stands.
pub enum WorkspaceLookup {
    /// The version.
    Found(Version),
    /// The manifest that has to be read next.
    Read(String),
}

/// Where the search for a workspace's version stands.
pub enum WorkspaceLookupView {
    Found(VersionView),
    Read(Seq<char>),
}

/// What the outcome of a search says.
pub open spec fn lookup_result(r: Result<WorkspaceLookup, WorkspaceError>) -> Result<
    WorkspaceLookupView,
    WorkspaceError,
> {
    match r {
        Ok(WorkspaceLookup::Found(version)) => Ok(WorkspaceLookupView::Found(version@)),
        Ok(WorkspaceLookup::Read(path)) => Ok(WorkspaceLookupView::Read(path@)),
        Err(e) => Err(e),
    }
}

/// What a list of manifests says, those that could not be read left out.
pub open spec fn manifest_views(manifests: Seq<Option<TomlValue>>) -> Seq<Option<TomlView>> {
    manifests.map_values(
        |m: Option<TomlValue>|
            match m {
                Some(doc) => Some(doc@),
                None => None::<TomlView>,
            },
    )
}

/// The search for the nearest workspace manifest above `dir`, upwards from it;
/// `manifests` holds what was found in the directories above, from position `i`
/// on.
pub open spec fn search_up(
    dir: Seq<char>,
    manifests: Seq<Option<TomlView>>,
    i: int,
) -> Result<WorkspaceLookupView, WorkspaceError>
    decreases manifests.len() - i,
{
    let above = dir_above(dir);
    if i < 0 || i >= manifests.len() {
        Ok(WorkspaceLookupView::Read(manifest_in(above)))
    } else {
        match get_in(manifests[i], "workspace"@) {
            Some(workspace) => match text_in(
                get_in(workspace.get("package"@), "version"@),
            ) {
                Some(text) => match version_of(text) {
                    Some(version) => Ok(WorkspaceLookupView::Found(version)),
                    None => Err(WorkspaceError::InvalidVersion),
                },
                None => Err(WorkspaceError::NoVersion),
            },
            None => if above.len() == 0 {
                Err(WorkspaceError::NoManifest)
            } else {
                search_up(above, manifests, i + 1)
            },
        }
    }
}

/// The search for the workspace version of the crate whose manifest is at
/// `path`.
pub open spec fn workspace_search(path: Seq<char>, manifests: Seq<Option<TomlView>>) -> Result<
    WorkspaceLookupView,
    WorkspaceError,
> {
    match parent_dir(path) {
        Some(dir) => search_up(dir, manifests, 0),
        None => Err(WorkspaceError::NoParentDir),
    }
}

/// Find the version that a crate inherits from its workspace.
///
/// `manifests` holds, in the order in which they were asked for, the manifests
/// that this function has asked for so far; `None` stands for one that does not
/// exist or cannot be read.
pub fn find_workspace_version(crate_toml_path: &str, manifests: &Vec<Option<TomlValue>>) -> (r:
    Result<WorkspaceLookup, WorkspaceError>)
    ensures
        lookup_result(r) == workspace_search(crate_toml_path@, manifest_views(manifests@)),
{
    let ghost views = manifest_views(manifests@);
    let mut dir = match parent_of(crate_toml_path) {
        Some(dir) => dir,
        None => {
            return Err(WorkspaceError::NoParentDir);
        },
    };
    let mut i: usize = 0;
    loop
        invariant
            i <= manifests.len(),
            views == manifest_views(manifests@),
            workspace_search(crate_toml_path@, views) == search_up(dir@, views, i as int),
        decreases manifests.len() - i,
    {
        let above = match parent_of(dir.as_str()) {
            Some(parent) => parent,
            None => String::new(),
        };
        if i == manifests.len() {
            let mut candidate = String::new();
            if above.as_str().is_empty() {
                candidate.append("Cargo.toml");
                assert(candidate@ =~= "Cargo.toml"@);
            } else {
                candidate.append(above.as_str());
                candidate.append("/Cargo.toml");
                assert(candidate@ =~= above@ + "/Cargo.toml"@);
            }
            return Ok(WorkspaceLookup::Read(candidate));
        }
        assert(views[i as int] == match manifests@[i as int] {
            Some(doc) => Some(doc@),
            None => None,
        });
        let found = match &manifests[i] {
            Some(doc) => doc.get("workspace"),
            None => None,
        };
        match found {
            Some(workspace) => {
                return match str_from(get_from(workspace.get("package"), "version")) {
                    Some(text) => match Version::parse(text) {
                        Some(version) => Ok(WorkspaceLookup::Found(version)),
                        None => Err(WorkspaceError::InvalidVersion),
                    },
                    None => Err(WorkspaceError::NoVersion),
                };
            },
            None => {
                if above.as_str().is_empty() {
                    return Err(WorkspaceError::NoManifest);
                }
            },
        }
        dir = above;
        i = i + 1;
    }
}

/// Why a manifest does not give a package and its version.
#[derive(Debug, Clone, Copy, PartialEq, Eq, Structural)]
pub enum ManifestError {
    /// There is no `package` table.
    NoPackage,
    /// The package has no name.
    NoName,
    /// The package has no version.
    NoVersion,
    /// The package's version is not a version.
    InvalidVersion,
    /// The package's version is neither text nor inherited.
    UnexpectedFormat,
    /// The version is inherited and could not be found.
    Workspace(WorkspaceError),
}

/// Where the search for a package's name and version stands.
pub enum PackageLookup {
    /// The name and the version.
    Found { name: String, version: Version },
    /// The manifest that has to be read next.
    Read { path: String },
}

/// Where the search for a package's name and version stands.
pub enum PackageLookupView {
    Found { name: Seq<char>, version: VersionView },
    Read { path: Seq<char> },
}

/// What the outcome of a search says.
pub open spec fn package_result(r: Result<PackageLookup, ManifestError>) -> Result<
    PackageLookupView,
    ManifestError,
> {
    match r {
        Ok(PackageLookup::Found { name, version }) => Ok(
            PackageLookupView::Found { name: name@, version: version@ },
        ),
        Ok(PackageLookup::Read { path }) => Ok(PackageLookupView::Read { path: path@ }),
        Err(e) => Err(e),
    }
}

/// The name and version of the package of a manifest. The version is the text
/// of `package.version`, or, where `package.version.workspace` is true, that of
/// the workspace.
pub open spec fn package_search(
    doc: TomlView,
    path: Seq<char>,
    manifests: Seq<Option<TomlView>>,
) -> Result<PackageLookupView, ManifestError> {
    match doc.get("package"@) {
        None => Err(ManifestError::NoPackage),
        Some(package) => match text_in(package.get("name"@)) {
            None => Err(ManifestError::NoName),
            Some(name) => match package.get("version"@) {
                None => Err(ManifestError::NoVersion),
                Some(TomlView::Text(text)) => match version_of(text) {
                    Some(version) => Ok(PackageLookupView::Found { name, version }),
                    None => Err(ManifestError::InvalidVersion),
                },
                Some(value) => if value.get("workspace"@) == Some(TomlView::Flag(true)) {
                    match workspace_search(path, manifests) {
                        Ok(WorkspaceLookupView::Found(version)) => Ok(
                            PackageLookupView::Found { name, version },
                        ),
                        Ok(WorkspaceLookupView::Read(path)) => Ok(
                            PackageLookupView::Read { path },
                        ),
                        Err(e) => Err(ManifestError::Workspace(e)),
                    }
                } else {
                    Err(ManifestError::UnexpectedFormat)
                },
            },
        },
    }
}

/// Find the name and the version of the package of a manifest.
///
/// `manifests` holds, in the order in which they were asked for, the manifests
/// that this function has asked for so far.
pub fn extract_package_version(
    doc: &TomlValue,
    file_path: &str,
    manifests: &Vec<Option<TomlValue>>,
) -> (r: Result<PackageLookup, ManifestError>)
    ensures
        package_result(r) == package_search(doc@, file_path@, manifest_views(manifests@)),
{
    let package = match doc.get("package") {
        Some(package) => package,
        None => {
            return Err(ManifestError::NoPackage);
        },
    };
    let name = match str_from(package.get("name")) {
        Some(name) => name.to_owned(),
        None => {
            return Err(ManifestError::NoName);
        },
    };
    let value = match package.get("version") {
        Some(value) => value,
        None => {
            return Err(ManifestError::NoVersion);
        },
    };
    if let Some(text) = value.as_str() {
        return match Version::parse(text) {
            Some(version) => Ok(PackageLookup::Found { name, version }),
            None => Err(ManifestError::InvalidVersion),
        };
    }
    let inherited = match value.get("workspace") {
        Some(flag) => flag.as_bool() == Some(true),
        None => false,
    };
    if !inherited {
        return Err(ManifestError::UnexpectedFormat);
    }
    match find_workspace_version(file_path, manifests) {
        Ok(WorkspaceLookup::Found(version)) => Ok(PackageLookup::Found { name, version }),
        Ok(WorkspaceLookup::Read(path)) => Ok(PackageLookup::Read { path }),
        Err(e) => Err(ManifestError::Workspace(e)),
    }
}

/// The manifests among the lines of a list of changed files, from line `i` on.
pub open spec fn manifests_among(files: Seq<Seq<char>>, i: int) -> Seq<Seq<char>>
    decreases files.len() - i,
{
    if i < 0 || i >= files.len() {
        Seq::empty()
    } else if ends_with(files[i], "Cargo.toml"@) {
        seq![files[i]] + manifests_among(files, i + 1)
    } else {
        manifests_among(files, i + 1)
    }
}

/// The manifests in the output of `git diff --name-only`.
pub fn changed_cargo_tomls(diff: &str) -> (r: Vec<String>)
    ensures
        texts(r@) == manifests_among(lines(diff@), 0),
{
    let files = split_lines(diff);
    let ghost all = texts(files@);
    let mut r: Vec<String> = Vec::new();
    assert(texts(r@) + manifests_among(all, 0) =~= manifests_among(all, 0));
    for i in 0..files.len()
        invariant
            all == texts(files@),
            texts(r@) + manifests_among(all, i as int) == manifests_among(all, 0),
    {
        let file = &files[i];
        let ghost before = texts(r@);
        assert(all[i as int] == file@);
        if text_ends_with(file.as_str(), "Cargo.toml") {
            r.push(file.clone());
            assert(texts(r@) =~= before.push(file@));
            assert(before + (seq![file@] + manifests_among(all, i + 1)) =~= texts(r@)
                + manifests_among(all, i + 1));
        }
    }
    assert(texts(r@) + Seq::<Seq<char>>::empty() =~= texts(r@));
    r
}

/// A manifest as it is at one of the two refs.
pub struct ManifestSide {
    /// The manifest.
    pub doc: TomlValue,
    /// The manifests that `extract_package_version` has asked for, in that order.
    pub above: Vec<Option<TomlValue>>,
}

/// What the base ref has of a manifest.
pub enum BaseSide {
    /// The base ref has no such file.
    Absent,
    /// The base ref has the file, and it is no TOML document.
    Unreadable,
    /// The manifest.
    Manifest(ManifestSide),
}

/// A manifest that differs between the two refs.
pub struct ManifestChange {
    /// The path of the manifest.
    pub file: String,
    /// The manifest at the base ref.
    pub old: BaseSide,
    /// The manifest at the target ref, where it exists there and can be read.
    pub new: Option<ManifestSide>,
}

/// The package of a manifest, where its name and version are known.
pub open spec fn package_of(file: Seq<char>, side: ManifestSide) -> Option<
    (Seq<char>, VersionView),
> {
    match package_search(side.doc@, file, manifest_views(side.above@)) {
        Ok(PackageLookupView::Found { name, version }) => Some((name, version)),
        _ => None,
    }
}

/// The manifest that has to be read before the package of a side is known;
/// `None` where no other manifest matters.
pub fn needed_manifest(file: &str, side: &ManifestSide) -> (r: Option<String>)
    ensures
        match r {
            Some(path) => package_search(side.doc@, file@, manifest_views(side.above@)) == Ok::<
                PackageLookupView,
                ManifestError,
            >(PackageLookupView::Read { path: path@ }),
            None => !(package_search(side.doc@, file@, manifest_views(side.above@)) matches Ok(
                PackageLookupView::Read { .. },
            )),
        },
{
    match extract_package_version(&side.doc, file, &side.above) {
        Ok(PackageLookup::Read { path }) => Some(path),
        _ => None,
    }
}

fn find_package(file: &str, side: &ManifestSide) -> (r: Option<(String, Version)>)
    ensures
        package_of(file@, *side) == match r {
            Some((name, version)) => Some((name@, version@)),
            None => None,
        },
{
    match extract_package_version(&side.doc, file, &side.above) {
        Ok(PackageLookup::Found { name, version }) => Some((name, version)),
        _ => None,
    }
}

/// Result of scanning manifest differences for version changes.
pub struct VersionChanges {
    pub breaking_seeds: NameSet,
    pub additive_seeds: NameSet,
    pub local_bumps: NameMap<Bump>,
    /// Crates whose manifest did not exist on the base ref.
    pub new_crates: NameSet,
}

/// The version changes found so far, and what was reported of them.
#[verifier::ext_equal]
pub struct ChangesView {
    pub breaking: Set<Seq<char>>,
    pub additive: Set<Seq<char>>,
    pub bumps: Map<Seq<char>, Bump>,
    pub new_crates: Set<Seq<char>>,
    pub events: Seq<EventView>,
}

/// What `changes` says, beside the events in `events`.
pub open spec fn changes_view(changes: VersionChanges, events: Seq<EventView>) -> ChangesView {
    ChangesView {
        breaking: changes.breaking_seeds@,
        additive: changes.additive_seeds@,
        bumps: changes.local_bumps@,
        new_crates: changes.new_crates@,
        events,
    }
}

/// No version change, after the events in `events`.
pub open spec fn no_changes(events: Seq<EventView>) -> ChangesView {
    ChangesView {
        breaking: Set::empty(),
        additive: Set::empty(),
        bumps: Map::empty(),
        new_crates: Set::empty(),
        events,
    }
}

/// The requirement on the dependency `name` has changed from `old` to `new`: a
/// breaking change makes a breaking seed, an additive one an additive seed
/// unless the dependency is a breaking seed already. Each is reported once.
pub open spec fn note_dep(
    changes: ChangesView,
    name: Seq<char>,
    old: Seq<char>,
    new: Seq<char>,
) -> ChangesView {
    match (required_version(old), required_version(new)) {
        (Ok(from), Ok(to)) => {
            let kind = change_between(from, to);
            let event = EventView::DepVersionChanged { name, old, new, kind };
            if old == new {
                changes
            } else if kind == ChangeKind::Breaking && !changes.breaking.contains(name) {
                ChangesView {
                    breaking: changes.breaking.insert(name),
                    events: changes.events.push(event),
                    ..changes
                }
            } else if kind == ChangeKind::Additive && !changes.breaking.contains(name)
                && !changes.additive.contains(name) {
                ChangesView {
                    additive: changes.additive.insert(name),
                    events: changes.events.push(event),
                    ..changes
                }
            } else {
                changes
            }
        },
        _ => changes,
    }
}

/// The first `n` of the dependencies in `names`, each of which has a
/// requirement in `new`.
pub open spec fn note_deps(
    changes: ChangesView,
    old: Map<Seq<char>, Seq<char>>,
    new: Map<Seq<char>, Seq<char>>,
    names: Seq<Seq<char>>,
    n: nat,
) -> ChangesView
    decreases n,
{
    if n == 0 {
        changes
    } else {
        let before = note_deps(changes, old, new, names, (n - 1) as nat);
        let name = names[n - 1];
        if old.dom().contains(name) {
            note_dep(before, name, old[name], new[name])
        } else {
            before
        }
    }
}

/// The local package `name` has changed from `old` to `new`.
pub open spec fn note_package(
    changes: ChangesView,
    name: Seq<char>,
    old: VersionView,
    new: VersionView,
) -> ChangesView {
    let kind = change_between(old, new);
    if changes.bumps.dom().contains(name) || kind == ChangeKind::Unchanged {
        changes
    } else {
        ChangesView {
            breaking: if kind == ChangeKind::Breaking {
                changes.breaking.insert(name)
            } else {
                changes.breaking
            },
            additive: if kind == ChangeKind::Additive {
                changes.additive.insert(name)
            } else {
                changes.additive
            },
            bumps: changes.bumps.insert(name, bump_for(old.major, kind)),
            events: changes.events.push(
                EventView::LocalPackageBump { name, old, new, kind, source: BumpSource::Package },
            ),
            ..changes
        }
    }
}

/// What a changed manifest adds to the version changes.
pub open spec fn note_manifest(changes: ChangesView, change: ManifestChange) -> ChangesView {
    let file = change.file@;
    match (change.old, change.new) {
        (BaseSide::Manifest(old), Some(new)) => {
            let from = dep_versions(old.doc@);
            let to = dep_versions(new.doc@);
            let names = ascending(to.dom());
            let noted = note_deps(changes, from, to, names, names.len());
            match (package_of(file, old), package_of(file, new)) {
                (Some((name, before)), Some((_, after))) => note_package(
                    noted,
                    name,
                    before,
                    after,
                ),
                _ => noted,
            }
        },
        (BaseSide::Absent, Some(new)) => match package_of(file, new) {
            Some((name, _)) => ChangesView {
                new_crates: changes.new_crates.insert(name),
                events: changes.events.push(EventView::NewCrate { name }),
                ..changes
            },
            None => changes,
        },
        (BaseSide::Manifest(old), None) => match package_of(file, old) {
            Some((name, _)) => ChangesView {
                events: changes.events.push(EventView::RemovedCrate { name }),
                ..changes
            },
            None => changes,
        },
        _ => changes,
    }
}

/// What the first `n` changed manifests add to the version changes.
pub open spec fn note_manifests(
    changes: ChangesView,
    changed: Seq<ManifestChange>,
    n: nat,
) -> ChangesView
    decreases n,
{
    if n == 0 {
        changes
    } else {
        note_manifest(note_manifests(changes, changed, (n - 1) as nat), changed[n - 1])
    }
}

fn add_dep<S: EventSink>(
    changes: &mut VersionChanges,
    name: &str,
    before: &str,
    after: &str,
    sink: &mut S,
)
    ensures
        changes_view(*final(changes), final(sink).emitted()) == note_dep(
            changes_view(*old(changes), old(sink).emitted()),
            name@,
            before@,
            after@,
        ),
{
    if text_eq(before, after) {
        return;
    }
    let kind = match (normalize_version(before), normalize_version(after)) {
        (Ok(from), Ok(to)) => classify_version_change(&from, &to),
        _ => {
            return;
        },
    };
    let noteworthy = match kind {
        ChangeKind::Breaking => changes.breaking_seeds.insert(name.to_owned()),
        ChangeKind::Additive => !changes.breaking_seeds.contains(name)
            && changes.additive_seeds.insert(name.to_owned()),
        _ => false,
    };
    if noteworthy {
        sink.emit(
            Event::DepVersionChanged {
                name: name.to_owned(),
                old: before.to_owned(),
                new: after.to_owned(),
                kind,
            },
        );
    }
    assert(changes_view(*changes, sink.emitted()) =~= note_dep(
        changes_view(*old(changes), old(sink).emitted()),
        name@,
        before@,
        after@,
    ));
}

fn add_changed_deps<S: EventSink>(
    changes: &mut VersionChanges,
    before: &TomlValue,
    after: &TomlValue,
    sink: &mut S,
)
    ensures
        ({
            let to = dep_versions(after@);
            let names = ascending(to.dom());
            changes_view(*final(changes), final(sink).emitted()) == note_deps(
                changes_view(*old(changes), old(sink).emitted()),
                dep_versions(before@),
                to,
                names,
                names.len(),
            )
        }),
{
    let old_deps = extract_dep_versions(before);
    let new_deps = extract_dep_versions(after);
    let ghost from = dep_versions(before@);
    let ghost to = dep_versions(after@);
    let ghost names = ascending(to.dom());
    let ghost start = changes_view(*changes, sink.emitted());
    assert(to.dom() =~= new_deps@.dom());
    let count = new_deps.len();
    let mut i: usize = 0;
    while i < count
        invariant
            i <= count,
            count == names.len(),
            count == new_deps@.dom().len(),
            names == ascending(new_deps@.dom()),
            text_map(old_deps@) == from,
            text_map(new_deps@) == to,
            changes_view(*changes, sink.emitted()) == note_deps(start, from, to, names, i as nat),
        decreases count - i,
    {
        let (name, new_text) = new_deps.entry(i);
        assert(to[name@] == new_text@);
        assert(from.dom().contains(name@) == old_deps@.dom().contains(name@));
        if let Some(old_text) = old_deps.get(name) {
            assert(from[name@] == old_text@);
            add_dep(changes, name, old_text.as_str(), new_text.as_str(), sink);
        }
        i = i + 1;
    }
}

fn add_package<S: EventSink>(
    changes: &mut VersionChanges,
    name: String,
    before: Version,
    after: Version,
    sink: &mut S,
)
    ensures
        changes_view(*final(changes), final(sink).emitted()) == note_package(
            changes_view(*old(changes), old(sink).emitted()),
            name@,
            before@,
            after@,
        ),
{
    if changes.local_bumps.contains_key(name.as_str()) {
        return;
    }
    let kind = classify_version_change(&before, &after);
    let bump = match kind {
        ChangeKind::Breaking => {
            changes.breaking_seeds.insert(name.clone());
            required_bump(&before, kind)
        },
        ChangeKind::Additive => {
            changes.additive_seeds.insert(name.clone());
            required_bump(&before, kind)
        },
        ChangeKind::Patch => Bump::Patch,
        ChangeKind::Unchanged => {
            return;
        },
    };
    changes.local_bumps.insert(name.clone(), bump);
    sink.emit(
        Event::LocalPackageBump {
            name,
            old: before,
            new: after,
            kind,
            source: BumpSource::Package,
        },
    );
    assert(changes_view(*changes, sink.emitted()) =~= note_package(
        changes_view(*old(changes), old(sink).emitted()),
        name@,
        before@,
        after@,
    ));
}

fn add_manifest<S: EventSink>(changes: &mut VersionChanges, change: &ManifestChange, sink: &mut S)
    ensures
        changes_view(*final(changes), final(sink).emitted()) == note_manifest(
            changes_view(*old(changes), old(sink).emitted()),
            *change,
        ),
{
    let file = change.file.as_str();
    match (&change.old, &change.new) {
        (BaseSide::Manifest(before), Some(after)) => {
            add_changed_deps(changes, &before.doc, &after.doc, sink);
            match (find_package(file, before), find_package(file, after)) {
                (Some((name, from)), Some((_, to))) => {
                    add_package(changes, name, from, to, sink);
                },
                _ => {},
            }
        },
        (BaseSide::Absent, Some(after)) => {
            if let Some((name, _)) = find_package(file, after) {
                changes.new_crates.insert(name.clone());
                sink.emit(Event::NewCrate { name });
            }
        },
        (BaseSide::Manifest(before), None) => {
            if let Some((name, _)) = find_package(file, before) {
                sink.emit(Event::RemovedCrate { name });
            }
        },
        _ => {},
    }
    assert(changes_view(*changes, sink.emitted()) =~= note_manifest(
        changes_view(*old(changes), old(sink).emitted()),
        *change,
    ));
}

/// The base ref has no manifest for the package `name`, which the target ref has.
pub open spec fn adds_crate(change: ManifestChange, name: Seq<char>) -> bool {
    match (change.old, change.new) {
        (BaseSide::Absent, Some(new)) => match package_of(change.file@, new) {
            Some((n, _)) => n == name,
            None => false,
        },
        _ => false,
    }
}

/// One of the first `n` changed manifests adds the crate `name`.
pub open spec fn is_added(changed: Seq<ManifestChange>, n: nat, name: Seq<char>) -> bool {
    exists|i: int| 0 <= i < n && #[trigger] adds_crate(changed[i], name)
}

proof fn lemma_deps_add_no_crate(
    changes: ChangesView,
    old: Map<Seq<char>, Seq<char>>,
    new: Map<Seq<char>, Seq<char>>,
    names: Seq<Seq<char>>,
    n: nat,
)
    ensures
        note_deps(changes, old, new, names, n).new_crates == changes.new_crates,
    decreases n,
{
    if n > 0 {
        lemma_deps_add_no_crate(changes, old, new, names, (n - 1) as nat);
    }
}

/// A scan finds as new crates just the packages of the changed manifests that
/// the base ref does not have. A manifest that the base ref has, readable or
/// not, adds no new crate.
pub proof fn law_new_crates_are_absent_at_the_base(
    changed: Seq<ManifestChange>,
    n: nat,
    events: Seq<EventView>,
    name: Seq<char>,
)
    ensures
        note_manifests(no_changes(events), changed, n).new_crates.contains(name) == is_added(
            changed,
            n,
            name,
        ),
    decreases n,
{
    if n > 0 {
        let m = (n - 1) as nat;
        law_new_crates_are_absent_at_the_base(changed, m, events, name);
        let before = note_manifests(no_changes(events), changed, m);
        let change = changed[n - 1];
        match (change.old, change.new) {
            (BaseSide::Manifest(old), Some(new)) => {
                let from = dep_versions(old.doc@);
                let to = dep_versions(new.doc@);
                let names = ascending(to.dom());
                lemma_deps_add_no_crate(before, from, to, names, names.len());
            },
            _ => {},
        }
        if is_added(changed, m, name) {
            let i = choose|i: int| 0 <= i < m && #[trigger] adds_crate(changed[i], name);
            assert(0 <= i < n && adds_crate(changed[i], name));
        }
        if is_added(changed, n, name) {
            let i = choose|i: int| 0 <= i < n && #[trigger] adds_crate(changed[i], name);
            assert(i == n - 1 || (0 <= i < m && adds_crate(changed[i], name)));
        }
        assert(adds_crate(changed[n - 1], name) ==> is_added(changed, n, name));
    }
}

/// Find the version changes in the manifests that differ between two refs, and
/// report them. The new crates are the packages of the manifests that the base
/// ref does not have.
pub fn detect_version_changes<S: EventSink>(changed: &Vec<ManifestChange>, sink: &mut S) -> (r:
    VersionChanges)
    ensures
        changes_view(r, final(sink).emitted()) == note_manifests(
            no_changes(old(sink).emitted().push(EventView::DetectedChangesHeader)),
            changed@,
            changed@.len(),
        ),
        forall|name: Seq<char>| #[trigger]
            r.new_crates@.contains(name) == is_added(changed@, changed@.len(), name),
        forall|i: int, name: Seq<char>|
            0 <= i < changed@.len() && #[trigger] changes_dep(
                changed@[i],
                name,
                ChangeKind::Breaking,
            ) ==> r.breaking_seeds@.contains(name),
        forall|i: int, name: Seq<char>|
            0 <= i < changed@.len() && #[trigger] changes_dep(
                changed@[i],
                name,
                ChangeKind::Additive,
            ) ==> r.breaking_seeds@.contains(name) || r.additive_seeds@.contains(name),
{
    let mut changes = VersionChanges {
        breaking_seeds: NameSet::new(),
        additive_seeds: NameSet::new(),
        local_bumps: NameMap::new(),
        new_crates: NameSet::new(),
    };
    sink.emit(Event::DetectedChangesHeader);
    let ghost start = changes_view(changes, sink.emitted());
    assert(start =~= no_changes(old(sink).emitted().push(EventView::DetectedChangesHeader)));
    for i in 0..changed.len()
        invariant
            changes_view(changes, sink.emitted()) == note_manifests(start, changed@, i as nat),
    {
        add_manifest(&mut changes, &changed[i], sink);
    }
    assert forall|name: Seq<char>| #[trigger]
        changes.new_crates@.contains(name) == is_added(changed@, changed@.len(), name) by {
        law_new_crates_are_absent_at_the_base(
            changed@,
            changed@.len(),
            old(sink).emitted().push(EventView::DetectedChangesHeader),
            name,
        );
    }
    assert forall|i: int, name: Seq<char>, kind: ChangeKind|
        0 <= i < changed@.len() && (kind == ChangeKind::Breaking || kind == ChangeKind::Additive)
            && #[trigger] changes_dep(changed@[i], name, kind) implies (kind
        == ChangeKind::Breaking ==> changes.breaking_seeds@.contains(name)) && (
    changes.breaking_seeds@.contains(name) || changes.additive_seeds@.contains(name)) by {
        law_changed_dependencies_are_seeds(
            old(sink).emitted().push(EventView::DetectedChangesHeader),
            changed@,
            changed@.len(),
            i,
            name,
        );
    }
    changes
}

/// The event reports a change of the given kind in the crate `name`.
pub open spec fn announces(event: EventView, name: Seq<char>, kind: ChangeKind) -> bool {
    match event {
        EventView::DepVersionChanged { name: n, kind: k, .. } => n == name && k == kind,
        EventView::LocalPackageBump { name: n, kind: k, .. } => n == name && k == kind,
        _ => false,
    }
}

/// Some event reports a change of the given kind in the crate `name`.
pub open spec fn announced(events: Seq<EventView>, name: Seq<char>, kind: ChangeKind) -> bool {
    exists|k: int| 0 <= k < events.len() && announces(#[trigger] events[k], name, kind)
}

/// Every seed was reported, and every local bump is at least a patch.
pub open spec fn accounted(changes: ChangesView) -> bool {
    &&& forall|name: Seq<char>| #[trigger]
        changes.breaking.contains(name) ==> announced(changes.events, name, ChangeKind::Breaking)
    &&& forall|name: Seq<char>| #[trigger]
        changes.additive.contains(name) ==> announced(changes.events, name, ChangeKind::Additive)
    &&& forall|name: Seq<char>| #[trigger]
        changes.bumps.dom().contains(name) ==> changes.bumps[name].rank() >= Bump::Patch.rank()
}

proof fn lemma_announced_push(events: Seq<EventView>, event: EventView)
    ensures
        forall|name: Seq<char>, kind: ChangeKind|
            announced(events, name, kind) ==> #[trigger] announced(
                events.push(event),
                name,
                kind,
            ),
        forall|name: Seq<char>, kind: ChangeKind|
            announces(event, name, kind) ==> #[trigger] announced(events.push(event), name, kind),
{
    let more = events.push(event);
    assert forall|name: Seq<char>, kind: ChangeKind|
        announced(events, name, kind) implies #[trigger] announced(more, name, kind) by {
        let k = choose|k: int| 0 <= k < events.len() && announces(#[trigger] events[k], name, kind);
        assert(more[k] == events[k]);
    }
    assert(more[events.len() as int] == event);
}

proof fn lemma_deps_accounted(
    changes: ChangesView,
    old: Map<Seq<char>, Seq<char>>,
    new: Map<Seq<char>, Seq<char>>,
    names: Seq<Seq<char>>,
    n: nat,
)
    requires
        accounted(changes),
    ensures
        accounted(note_deps(changes, old, new, names, n)),
    decreases n,
{
    if n > 0 {
        lemma_deps_accounted(changes, old, new, names, (n - 1) as nat);
        let before = note_deps(changes, old, new, names, (n - 1) as nat);
        let after = note_deps(changes, old, new, names, n);
        if after.events.len() > before.events.len() {
            lemma_announced_push(before.events, after.events.last());
        }
    }
}

proof fn lemma_manifest_accounted(changes: ChangesView, change: ManifestChange)
    requires
        accounted(changes),
    ensures
        accounted(note_manifest(changes, change)),
{
    let after = note_manifest(changes, change);
    match (change.old, change.new) {
        (BaseSide::Manifest(old), Some(new)) => {
            let from = dep_versions(old.doc@);
            let to = dep_versions(new.doc@);
            let names = ascending(to.dom());
            let noted = note_deps(changes, from, to, names, names.len());
            lemma_deps_accounted(changes, from, to, names, names.len());
            if after.events.len() > noted.events.len() {
                lemma_announced_push(noted.events, after.events.last());
            }
        },
        _ => {
            if after.events.len() > changes.events.len() {
                lemma_announced_push(changes.events, after.events.last());
            }
        },
    }
}

/// Every breaking and every additive seed that a scan finds was reported with
/// its kind of change, and every local bump that it finds is at least a patch.
pub proof fn law_changes_are_accounted_for(
    changed: Seq<ManifestChange>,
    n: nat,
    events: Seq<EventView>,
)
    ensures
        accounted(note_manifests(no_changes(events), changed, n)),
    decreases n,
{
    if n > 0 {
        law_changes_are_accounted_for(changed, (n - 1) as nat, events);
        lemma_manifest_accounted(
            note_manifests(no_changes(events), changed, (n - 1) as nat),
            changed[n - 1],
        );
    }
}

proof fn lemma_same_deps(
    changes: ChangesView,
    deps: Map<Seq<char>, Seq<char>>,
    names: Seq<Seq<char>>,
    n: nat,
)
    ensures
        note_deps(changes, deps, deps, names, n) == changes,
    decreases n,
{
    if n > 0 {
        lemma_same_deps(changes, deps, names, (n - 1) as nat);
    }
}

/// A manifest that says the same at both refs adds nothing: no seed, no bump and
/// no report.
pub proof fn law_same_manifest_changes_nothing(
    changes: ChangesView,
    change: ManifestChange,
    old: ManifestSide,
    new: ManifestSide,
)
    requires
        change.old == BaseSide::Manifest(old),
        change.new == Some(new),
        old.doc@ == new.doc@,
        manifest_views(old.above@) == manifest_views(new.above@),
    ensures
        note_manifest(changes, change) == changes,
{
    let deps = dep_versions(old.doc@);
    let names = ascending(deps.dom());
    lemma_same_deps(changes, deps, names, names.len());
}

proof fn lemma_trim_tail(path: Seq<char>)
    ensures
        trim_tail(path).len() <= path.len(),
        trim_tail(path).len() > 1 ==> trim_tail(path).last() != '/',
    decreases path.len(),
{
    if path.len() > 1 && (path.last() == '/' || (path.last() == '.' && path[path.len() - 2]
        == '/')) {
        lemma_trim_tail(path.drop_last());
    }
}

proof fn lemma_after_last_slash(path: Seq<char>)
    ensures
        after_last_slash(path) <= path.len(),
        path.len() > 0 && path.last() != '/' ==> after_last_slash(path) < path.len(),
    decreases path.len(),
{
    if path.len() > 0 && path.last() != '/' {
        lemma_after_last_slash(path.drop_last());
    }
}

/// The directory that holds a path is shorter than the path.
pub proof fn law_parent_dir_is_shorter(path: Seq<char>)
    ensures
        parent_dir(path) matches Some(dir) ==> dir.len() < path.len(),
{
    let whole = trim_tail(path);
    lemma_trim_tail(path);
    if whole.len() > 0 && whole != seq!['/'] {
        if whole.len() == 1 && whole.last() == '/' {
            assert(whole =~= seq!['/']);
        }
        lemma_after_last_slash(whole);
        lemma_trim_tail(whole.take(after_last_slash(whole) as int));
    }
}

/// The search for a workspace's version asks for no more manifests than the
/// directory's path has characters, and one.
pub proof fn law_workspace_search_ends(dir: Seq<char>, manifests: Seq<Option<TomlView>>, i: int)
    requires
        0 <= i,
        i + dir.len() < manifests.len(),
    ensures
        !(search_up(dir, manifests, i) matches Ok(WorkspaceLookupView::Read(_))),
    decreases manifests.len() - i,
{
    law_parent_dir_is_shorter(dir);
    let above = dir_above(dir);
    if get_in(manifests[i], "workspace"@) is None && above.len() > 0 {
        law_workspace_search_ends(above, manifests, i + 1);
    }
}

/// The nearest workspace manifest above a crate decides, whatever stands further
/// up.
pub proof fn law_nearest_workspace_decides(
    dir: Seq<char>,
    manifests: Seq<Option<TomlView>>,
    others: Seq<Option<TomlView>>,
    k: int,
    i: int,
)
    requires
        0 <= k <= i < manifests.len(),
        i < others.len(),
        manifests.take(i + 1) == others.take(i + 1),
        get_in(manifests[i], "workspace"@) is Some,
    ensures
        search_up(dir, manifests, k) == search_up(dir, others, k),
    decreases i - k,
{
    assert(manifests[k] == manifests.take(i + 1)[k]);
    assert(others[k] == others.take(i + 1)[k]);
    if k < i {
        law_nearest_workspace_decides(dir_above(dir), manifests, others, k + 1, i);
    }
}

} // verus!
