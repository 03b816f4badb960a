//! Laws of manifests: what tables, requirements and packages say.
use vstd::prelude::*;

use crate::laws::texts::{is_trimmed, law_trimming_takes_white_space};
use crate::manifest::{entries_in, get_in, TomlView};
use crate::seeds::{
    after_last_slash, bare_requirement, dep_version, dep_versions, manifest_in, manifests_among,
    package_search, parent_dir, required_version, search_up, trim_tail, with_deps,
    with_missing_deps, workspace_search, ManifestError, PackageLookupView, RequirementError,
    WorkspaceError, WorkspaceLookupView,
};
use crate::semver::{version_of, VersionView};
use crate::text::{
    ends_with, is_white_space, occurrences, strip_leading, trim, trim_end, trim_start,
};

verus! {

/// The entry at `i` is the first one with the key.
pub open spec fn is_first(entries: Seq<(Seq<char>, TomlView)>, key: Seq<char>, i: int) -> bool {
    &&& 0 <= i < entries.len()
    &&& entries[i].0 == key
    &&& forall|j: int| 0 <= j < i ==> (#[trigger] entries[j]).0 != key
}

/// A table gives the value of the first entry with the key, and none where no entry
/// has it. What is no table gives none.
pub proof fn law_tables_give_values_by_key(
    entries: Seq<(Seq<char>, TomlView)>,
    key: Seq<char>,
    i: int,
    text: Seq<char>,
    flag: bool,
)
    ensures
        is_first(entries, key, i) ==> TomlView::Table(entries).get(key) == Some(entries[i].1),
        (forall|j: int| 0 <= j < entries.len() ==> (#[trigger] entries[j]).0 != key)
            ==> TomlView::Table(entries).get(key) is None,
        TomlView::Text(text).get(key) is None,
        TomlView::Flag(flag).get(key) is None,
        TomlView::Other.get(key) is None,
    decreases entries.len(),
{
    if entries.len() > 0 && entries[0].0 != key {
        let rest = entries.drop_first();
        law_tables_give_values_by_key(rest, key, i - 1, text, flag);
        if is_first(entries, key, i) {
            assert forall|j: int| 0 <= j < i - 1 implies (#[trigger] rest[j]).0 != key by {
                assert(entries[j + 1].0 != key);
            }
            assert(rest[i - 1] == entries[i]);
            assert(is_first(rest, key, i - 1));
        }
        if forall|j: int| 0 <= j < entries.len() ==> (#[trigger] entries[j]).0 != key {
            assert forall|j: int| 0 <= j < rest.len() implies (#[trigger] rest[j]).0 != key by {
                assert(entries[j + 1].0 != key);
            }
        }
    }
}

/// A requirement is a text, or the text `version` of a table; anything else requires
/// no version.
pub proof fn law_requirement_of_a_dependency(
    value: TomlView,
    text: Seq<char>,
    entries: Seq<(Seq<char>, TomlView)>,
)
    ensures
        dep_version(TomlView::Text(text)) == Some(text),
        TomlView::Table(entries).get("version"@) == Some(TomlView::Text(text)) ==> dep_version(
            TomlView::Table(entries),
        ) == Some(text),
        !(TomlView::Table(entries).get("version"@) matches Some(TomlView::Text(_)))
            ==> dep_version(TomlView::Table(entries)) is None,
        !(value is Text) && !(value is Table) ==> dep_version(value) is None,
{
}

/// The table lists the dependency with this requirement.
pub open spec fn lists(
    entries: Seq<(Seq<char>, TomlView)>,
    name: Seq<char>,
    text: Seq<char>,
) -> bool {
    exists|i: int|
        0 <= i < entries.len() && (#[trigger] entries[i]).0 == name && dep_version(entries[i].1)
            == Some(text)
}

/// The table lists the dependency with some requirement.
pub open spec fn lists_any(entries: Seq<(Seq<char>, TomlView)>, name: Seq<char>) -> bool {
    exists|i: int|
        0 <= i < entries.len() && (#[trigger] entries[i]).0 == name && dep_version(
            entries[i].1,
        ) is Some
}

/// The entries of the table at `key`.
pub open spec fn table_at(doc: TomlView, key: Seq<char>) -> Seq<(Seq<char>, TomlView)> {
    match doc.get(key) {
        Some(TomlView::Table(entries)) => entries,
        _ => Seq::empty(),
    }
}

/// The entries of the dependencies of the workspace.
pub open spec fn workspace_table(doc: TomlView) -> Seq<(Seq<char>, TomlView)> {
    match doc.get("workspace"@) {
        Some(workspace) => table_at(workspace, "dependencies"@),
        None => Seq::empty(),
    }
}

/// A manifest requires what its four tables of dependencies list. The table of the
/// workspace counts first, and after it those of the normal, the development and the
/// build dependencies.
pub proof fn law_manifest_requires_what_it_lists(doc: TomlView, name: Seq<char>)
    ensures
        ({
            let shared = workspace_table(doc);
            let normal = table_at(doc, "dependencies"@);
            let dev = table_at(doc, "dev-dependencies"@);
            let build = table_at(doc, "build-dependencies"@);
            let found = dep_versions(doc);
            &&& found.dom().contains(name) <==> lists_any(shared, name) || lists_any(normal, name)
                || lists_any(dev, name) || lists_any(build, name)
            &&& lists_any(shared, name) ==> lists(shared, name, found[name])
            &&& !lists_any(shared, name) && lists_any(normal, name) ==> lists(
                normal,
                name,
                found[name],
            )
            &&& !lists_any(shared, name) && !lists_any(normal, name) && lists_any(dev, name)
                ==> lists(dev, name, found[name])
            &&& !lists_any(shared, name) && !lists_any(normal, name) && !lists_any(dev, name)
                && lists_any(build, name) ==> lists(build, name, found[name])
        }),
{
    let none = Map::<Seq<char>, Seq<char>>::empty();
    let shared = entries_in(get_in(doc.get("workspace"@), "dependencies"@));
    let normal = entries_in(doc.get("dependencies"@));
    let dev = entries_in(doc.get("dev-dependencies"@));
    let build = entries_in(doc.get("build-dependencies"@));
    let first = with_deps(none, shared, 0);
    let second = with_missing_deps(first, normal, 0);
    let third = with_missing_deps(second, dev, 0);
    lemma_with_deps(none, shared, 0, name);
    lemma_with_missing(first, normal, 0, name);
    lemma_with_missing(second, dev, 0, name);
    lemma_with_missing(third, build, 0, name);
    lemma_from_zero(shared, name);
    lemma_from_zero(normal, name);
    lemma_from_zero(dev, name);
    lemma_from_zero(build, name);
}

/// From position `k` on, the table lists the dependency.
spec fn listed_from(entries: Seq<(Seq<char>, TomlView)>, name: Seq<char>, k: int) -> bool {
    exists|i: int|
        k <= i < entries.len() && (#[trigger] entries[i]).0 == name && dep_version(
            entries[i].1,
        ) is Some
}

proof fn lemma_from_zero(entries: Seq<(Seq<char>, TomlView)>, name: Seq<char>)
    ensures
        listed_from(entries, name, 0) == lists_any(entries, name),
{
}

proof fn lemma_listed(entries: Seq<(Seq<char>, TomlView)>, name: Seq<char>, k: int)
    requires
        0 <= k < entries.len(),
    ensures
        listed_from(entries, name, k) <==> listed_from(entries, name, k + 1) || (entries[k].0 == name
            && dep_version(entries[k].1) is Some),
{
    if listed_from(entries, name, k) {
        let i = choose|i: int|
            k <= i < entries.len() && (#[trigger] entries[i]).0 == name && dep_version(
                entries[i].1,
            ) is Some;
        if i > k {
            assert(k + 1 <= i < entries.len() && entries[i].0 == name);
        }
    }
    if listed_from(entries, name, k + 1) {
        let i = choose|i: int|
            k + 1 <= i < entries.len() && (#[trigger] entries[i]).0 == name && dep_version(
                entries[i].1,
            ) is Some;
        assert(k <= i < entries.len() && entries[i].0 == name);
    }
}

proof fn lemma_with_deps(
    versions: Map<Seq<char>, Seq<char>>,
    deps: Seq<(Seq<char>, TomlView)>,
    k: int,
    name: Seq<char>,
)
    requires
        0 <= k,
    ensures
        ({
            let after = with_deps(versions, deps, k);
            &&& after.dom().contains(name) <==> versions.dom().contains(name) || listed_from(
                deps,
                name,
                k,
            )
            &&& listed_from(deps, name, k) ==> lists(deps, name, after[name])
            &&& !listed_from(deps, name, k) && versions.dom().contains(name) ==> after[name]
                == versions[name]
        }),
    decreases deps.len() - k,
{
    if k < deps.len() {
        lemma_listed(deps, name, k);
        let next = match dep_version(deps[k].1) {
            Some(version) => versions.insert(deps[k].0, version),
            None => versions,
        };
        lemma_with_deps(next, deps, k + 1, name);
        if deps[k].0 == name && dep_version(deps[k].1) is Some && !listed_from(deps, name, k + 1) {
            assert(lists(deps, name, next[name]));
        }
    }
}

proof fn lemma_with_missing(
    versions: Map<Seq<char>, Seq<char>>,
    deps: Seq<(Seq<char>, TomlView)>,
    k: int,
    name: Seq<char>,
)
    requires
        0 <= k,
    ensures
        ({
            let after = with_missing_deps(versions, deps, k);
            &&& after.dom().contains(name) <==> versions.dom().contains(name) || listed_from(
                deps,
                name,
                k,
            )
            &&& versions.dom().contains(name) ==> after[name] == versions[name]
            &&& !versions.dom().contains(name) && listed_from(deps, name, k) ==> lists(
                deps,
                name,
                after[name],
            )
        }),
    decreases deps.len() - k,
{
    if k < deps.len() {
        lemma_listed(deps, name, k);
        let next = match dep_version(deps[k].1) {
            Some(version) if !versions.dom().contains(deps[k].0) => versions.insert(
                deps[k].0,
                version,
            ),
            _ => versions,
        };
        lemma_with_missing(next, deps, k + 1, name);
        if deps[k].0 == name && dep_version(deps[k].1) is Some && !versions.dom().contains(name) {
            assert(next.dom().contains(name));
            assert(lists(deps, name, next[name]));
        }
    }
}

/// The changed manifests are the changed files with a path that ends in `Cargo.toml`,
/// in their order.
pub proof fn law_manifests_are_found_by_name(files: Seq<Seq<char>>, i: int)
    requires
        0 <= i <= files.len(),
    ensures
        manifests_among(files, i) == files.skip(i).filter(
            |file: Seq<char>| ends_with(file, "Cargo.toml"@),
        ),
    decreases files.len() - i,
{
    reveal(Seq::filter);
    let is_manifest = |file: Seq<char>| ends_with(file, "Cargo.toml"@);
    if i < files.len() {
        law_manifests_are_found_by_name(files, i + 1);
        assert(files.skip(i) =~= seq![files[i]] + files.skip(i + 1));
        lemma_filter_front(files[i], files.skip(i + 1), is_manifest);
    } else {
        assert(files.skip(i) =~= Seq::empty());
    }
}

proof fn lemma_filter_front(
    first: Seq<char>,
    rest: Seq<Seq<char>>,
    keep: spec_fn(Seq<char>) -> bool,
)
    ensures
        (seq![first] + rest).filter(keep) == if keep(first) {
            seq![first] + rest.filter(keep)
        } else {
            rest.filter(keep)
        },
    decreases rest.len(),
{
    reveal(Seq::filter);
    let all = seq![first] + rest;
    if rest.len() == 0 {
        assert(all =~= seq![first]);
        assert(all.drop_last() =~= Seq::<Seq<char>>::empty());
        assert(all.drop_last().filter(keep) =~= Seq::empty());
        assert(all.filter(keep) =~= if keep(first) {
            seq![first] + rest.filter(keep)
        } else {
            rest.filter(keep)
        });
    } else {
        let few = rest.drop_last();
        lemma_filter_front(first, few, keep);
        assert(all.drop_last() =~= seq![first] + few);
        assert(all.last() == rest.last());
        assert(all.filter(keep) =~= if keep(first) {
            seq![first] + rest.filter(keep)
        } else {
            rest.filter(keep)
        });
    }
}

/// A requirement with a comma, a comparison or a wildcard in it is too complex; no
/// other is.
pub proof fn law_complex_requirements_are_refused(requirement: Seq<char>)
    ensures
        required_version(requirement) == Err::<VersionView, RequirementError>(
            RequirementError::Complex,
        ) <==> requirement.contains(',') || requirement.contains('>') || requirement.contains('<')
            || requirement.contains('*'),
{
    lemma_bare_holds(requirement, ',');
    lemma_bare_holds(requirement, '>');
    lemma_bare_holds(requirement, '<');
    lemma_bare_holds(requirement, '*');
}

proof fn lemma_bare_holds(s: Seq<char>, c: char)
    requires
        c == ',' || c == '>' || c == '<' || c == '*',
    ensures
        bare_requirement(s).contains(c) == s.contains(c),
{
    lemma_trim_start_holds(s, c);
    lemma_trim_end_holds(trim_start(s), c);
    let t = trim(s);
    lemma_strip_holds(t, '^', c);
    let u = strip_leading(t, '^');
    lemma_strip_holds(u, '~', c);
    lemma_strip_holds(strip_leading(u, '~'), '=', c);
}

proof fn lemma_first_holds(s: Seq<char>, c: char)
    requires
        s.len() > 0,
        s[0] != c,
    ensures
        s.drop_first().contains(c) == s.contains(c),
{
    if s.contains(c) {
        let i = choose|i: int| 0 <= i < s.len() && s[i] == c;
        assert(s.drop_first()[i - 1] == c);
    }
    if s.drop_first().contains(c) {
        let i = choose|i: int| 0 <= i < s.len() - 1 && s.drop_first()[i] == c;
        assert(s[i + 1] == c);
    }
}

proof fn lemma_trim_start_holds(s: Seq<char>, c: char)
    requires
        !is_white_space(c),
    ensures
        trim_start(s).contains(c) == s.contains(c),
    decreases s.len(),
{
    if s.len() > 0 && is_white_space(s[0]) {
        lemma_first_holds(s, c);
        lemma_trim_start_holds(s.drop_first(), c);
    }
}

proof fn lemma_trim_end_holds(s: Seq<char>, c: char)
    requires
        !is_white_space(c),
    ensures
        trim_end(s).contains(c) == s.contains(c),
    decreases s.len(),
{
    if s.len() > 0 && is_white_space(s.last()) {
        lemma_trim_end_holds(s.drop_last(), c);
        if s.contains(c) {
            let i = choose|i: int| 0 <= i < s.len() && s[i] == c;
            assert(s.drop_last()[i] == c);
        }
        if s.drop_last().contains(c) {
            let i = choose|i: int| 0 <= i < s.len() - 1 && s.drop_last()[i] == c;
            assert(s[i] == c);
        }
    }
}

proof fn lemma_strip_holds(s: Seq<char>, op: char, c: char)
    requires
        op != c,
    ensures
        strip_leading(s, op).contains(c) == s.contains(c),
    decreases s.len(),
{
    if s.len() > 0 && s[0] == op {
        lemma_first_holds(s, c);
        lemma_strip_holds(s.drop_first(), op, c);
    }
}

/// The text neither begins nor ends with white space, and does not begin with one of
/// the signs of a requirement.
pub open spec fn is_plain(text: Seq<char>) -> bool {
    &&& text.len() > 0
    &&& !is_white_space(text[0])
    &&& !is_white_space(text.last())
    &&& text[0] != '^'
    &&& text[0] != '~'
    &&& text[0] != '='
}

/// A caret, a tilde or an equals sign before a requirement, and white space around it,
/// make no difference to the version that it names.
pub proof fn law_signs_make_no_difference(
    text: Seq<char>,
    before: Seq<char>,
    after: Seq<char>,
    sign: char,
)
    requires
        is_plain(text),
        sign == '^' || sign == '~' || sign == '=',
        forall|i: int| 0 <= i < before.len() ==> is_white_space(#[trigger] before[i]),
        forall|i: int| 0 <= i < after.len() ==> is_white_space(#[trigger] after[i]),
    ensures
        required_version(before + text + after) == required_version(text),
        required_version(before + (seq![sign] + text) + after) == required_version(text),
{
    let none = Seq::<char>::empty();
    lemma_trim_around(none, text, none);
    assert(none + text + none =~= text);
    lemma_trim_around(before, text, after);
    let signed = seq![sign] + text;
    assert(signed.last() == text.last());
    lemma_trim_around(before, signed, after);
    assert(signed.drop_first() =~= text);
    assert(strip_leading(text, '^') == text);
    assert(strip_leading(text, '~') == text);
    assert(strip_leading(text, '=') == text);
    assert(strip_leading(signed, sign) == text);
    assert(bare_requirement(text) == text);
    assert(bare_requirement(before + signed + after) == text);
}

proof fn lemma_trim_around(before: Seq<char>, text: Seq<char>, after: Seq<char>)
    requires
        text.len() > 0,
        !is_white_space(text[0]),
        !is_white_space(text.last()),
        forall|i: int| 0 <= i < before.len() ==> is_white_space(#[trigger] before[i]),
        forall|i: int| 0 <= i < after.len() ==> is_white_space(#[trigger] after[i]),
    ensures
        trim(before + text + after) == text,
{
    let s = before + text + after;
    law_trimming_takes_white_space(s);
    let (from, to) = choose|from: int, to: int| #[trigger]
        is_trimmed(s, from, to) && trim(s) == s.subrange(from, to);
    let start = before.len() as int;
    let end = start + text.len();
    assert(s[start] == text[0]);
    assert(s[end - 1] == text.last());
    assert(from <= start);
    assert(end <= to);
    if from < start {
        assert(s[from] == before[from]);
    }
    if end < to {
        assert(s[to - 1] == after[to - 1 - end]);
    }
    assert(s.subrange(from, to) =~= text);
}

/// A requirement may leave out the last numbers of a version: they are taken to be
/// zero.
pub proof fn law_missing_numbers_are_zero(text: Seq<char>)
    requires
        is_plain(text),
        !(text.contains(',') || text.contains('>') || text.contains('<') || text.contains('*')),
    ensures
        ({
            let full = if occurrences(text, '.') == 0 {
                text + ".0.0"@
            } else if occurrences(text, '.') == 1 {
                text + ".0"@
            } else {
                text
            };
            match version_of(full) {
                Some(version) => required_version(text) == Ok::<VersionView, RequirementError>(
                    version,
                ),
                None => required_version(text) == Err::<VersionView, RequirementError>(
                    RequirementError::Invalid,
                ),
            }
        }),
{
    let none = Seq::<char>::empty();
    lemma_trim_around(none, text, none);
    assert(none + text + none =~= text);
    assert(strip_leading(text, '^') == text);
    assert(strip_leading(text, '~') == text);
    assert(strip_leading(text, '=') == text);
}

/// The path of a directory, or nothing for the current one: it does not end in a
/// slash, nor in a slash and a dot.
pub open spec fn is_dir(dir: Seq<char>) -> bool {
    dir.len() > 1 ==> dir.last() != '/' && !(dir.last() == '.' && dir[dir.len() - 2] == '/')
}

/// A file or directory in a directory has this directory as its parent; one without
/// a slash in its path has the current directory. Nothing, and the root, have none.
pub proof fn law_parent_is_the_directory_of_a_file(dir: Seq<char>, file: Seq<char>)
    requires
        is_dir(dir),
        dir.len() > 0,
        dir != seq!['/'],
        file.len() > 0,
        !file.contains('/'),
        file != seq!['.'],
    ensures
        parent_dir(dir + seq!['/'] + file) == Some(dir),
        parent_dir(file) == Some(Seq::<char>::empty()),
        parent_dir(Seq::empty()) is None,
        parent_dir(seq!['/']) is None,
{
    let path = dir + seq!['/'] + file;
    assert(file[file.len() - 1] == file.last());
    assert(file.last() != '/');
    assert(path.last() == file.last());
    if file.len() == 1 {
        assert(file =~= seq![file[0]]);
        assert(path.last() != '.');
    } else {
        assert(path[path.len() - 2] == file[file.len() - 2]);
        assert(file[file.len() - 2] != '/');
    }
    assert(trim_tail(path) == path);
    assert(trim_tail(file) == file);
    lemma_after_slash(dir + seq!['/'], file);
    assert(path =~= (dir + seq!['/']) + file);
    let head = dir + seq!['/'];
    assert(path.take(head.len() as int) =~= head);
    assert(head.drop_last() =~= dir);
    assert(trim_tail(dir) == dir);
    assert(trim_tail(head) == trim_tail(dir));
    assert(path != seq!['/']);
    lemma_no_slash(file);
    assert(file.take(0) =~= Seq::<char>::empty());
    assert(file != seq!['/']) by {
        if file == seq!['/'] {
            assert(file[0] == '/');
        }
    }
    assert(trim_tail(seq!['/']) == seq!['/']);
}

proof fn lemma_after_slash(head: Seq<char>, file: Seq<char>)
    requires
        head.len() > 0,
        head.last() == '/',
        !file.contains('/'),
    ensures
        after_last_slash(head + file) == head.len(),
    decreases file.len(),
{
    if file.len() == 0 {
        assert(head + file =~= head);
    } else {
        let few = file.drop_last();
        assert((head + file).drop_last() =~= head + few);
        assert((head + file).last() == file.last());
        assert(file[file.len() - 1] == file.last());
        assert(!few.contains('/')) by {
            if few.contains('/') {
                let i = choose|i: int| 0 <= i < few.len() && few[i] == '/';
                assert(file[i] == '/');
            }
        }
        lemma_after_slash(head, few);
    }
}

proof fn lemma_no_slash(file: Seq<char>)
    requires
        !file.contains('/'),
    ensures
        after_last_slash(file) == 0,
    decreases file.len(),
{
    if file.len() > 0 {
        let few = file.drop_last();
        assert(file[file.len() - 1] == file.last());
        assert(!few.contains('/')) by {
            if few.contains('/') {
                let i = choose|i: int| 0 <= i < few.len() && few[i] == '/';
                assert(file[i] == '/');
            }
        }
        lemma_no_slash(few);
    }
}

/// The manifest of a directory is in this directory.
pub proof fn law_manifest_is_in_its_directory(dir: Seq<char>)
    requires
        is_dir(dir),
        dir != seq!['/'],
    ensures
        parent_dir(manifest_in(dir)) == Some(dir),
        ends_with(manifest_in(dir), "Cargo.toml"@),
{
    let file = "Cargo.toml"@;
    reveal_strlit("Cargo.toml");
    reveal_strlit("/Cargo.toml");
    assert("/Cargo.toml"@ =~= seq!['/'] + file);
    assert(!file.contains('/'));
    assert(file[0] == 'C');
    if dir.len() == 0 {
        let other = seq!['a'];
        assert(other != seq!['/']) by {
            assert(other[0] == 'a');
        }
        law_parent_is_the_directory_of_a_file(other, file);
        assert(dir =~= Seq::empty());
        assert(file.skip(0) =~= file);
    } else {
        law_parent_is_the_directory_of_a_file(dir, file);
        let path = manifest_in(dir);
        assert(path =~= dir + seq!['/'] + file);
        assert(path.skip(path.len() - file.len()) =~= file);
    }
}

/// A package has its name and its own version; where it takes the version of the
/// workspace, the manifests above decide on this.
pub proof fn law_package_has_its_name_and_version(
    doc: TomlView,
    path: Seq<char>,
    manifests: Seq<Option<TomlView>>,
    package: TomlView,
    name: Seq<char>,
    value: TomlView,
)
    requires
        doc.get("package"@) == Some(package),
        package.get("name"@) == Some(TomlView::Text(name)),
        package.get("version"@) == Some(value),
    ensures
        ({
            let found = package_search(doc, path, manifests);
            let inherits = !(value is Text) && value.get("workspace"@) == Some(
                TomlView::Flag(true),
            );
            &&& value matches TomlView::Text(text) ==> match version_of(text) {
                Some(version) => found == Ok::<PackageLookupView, ManifestError>(
                    PackageLookupView::Found { name, version },
                ),
                None => found == Err::<PackageLookupView, ManifestError>(
                    ManifestError::InvalidVersion,
                ),
            }
            &&& inherits ==> match workspace_search(path, manifests) {
                Ok(WorkspaceLookupView::Found(version)) => found == Ok::<
                    PackageLookupView,
                    ManifestError,
                >(PackageLookupView::Found { name, version }),
                Ok(WorkspaceLookupView::Read(next)) => found == Ok::<
                    PackageLookupView,
                    ManifestError,
                >(PackageLookupView::Read { path: next }),
                Err(e) => found == Err::<PackageLookupView, ManifestError>(
                    ManifestError::Workspace(e),
                ),
            }
            &&& !(value is Text) && !inherits ==> found == Err::<PackageLookupView, ManifestError>(
                ManifestError::UnexpectedFormat,
            )
        }),
{
}

/// Without a package, or without its name or version, nothing is found, and the error
/// says which of them is missing.
pub proof fn law_incomplete_packages_are_refused(
    doc: TomlView,
    path: Seq<char>,
    manifests: Seq<Option<TomlView>>,
)
    ensures
        ({
            let found = package_search(doc, path, manifests);
            &&& doc.get("package"@) is None <==> found == Err::<PackageLookupView, ManifestError>(
                ManifestError::NoPackage,
            )
            &&& (doc.get("package"@) matches Some(package) && !(package.get("name"@) matches Some(
                TomlView::Text(_),
            ))) <==> found == Err::<PackageLookupView, ManifestError>(ManifestError::NoName)
            &&& (doc.get("package"@) matches Some(package) && package.get("name"@) matches Some(
                TomlView::Text(_),
            ) && package.get("version"@) is None) <==> found == Err::<
                PackageLookupView,
                ManifestError,
            >(ManifestError::NoVersion)
        }),
{
}

/// The version of the workspace is that of the nearest manifest above that has a
/// workspace; manifests are asked for one directory after the other, upwards.
pub proof fn law_workspace_is_searched_upwards(
    dir: Seq<char>,
    manifests: Seq<Option<TomlView>>,
    i: int,
)
    requires
        0 <= i <= manifests.len(),
    ensures
        ({
            let found = search_up(dir, manifests, i);
            let above = match parent_dir(dir) {
                Some(parent) => parent,
                None => Seq::empty(),
            };
            &&& i == manifests.len() ==> found == Ok::<WorkspaceLookupView, WorkspaceError>(
                WorkspaceLookupView::Read(manifest_in(above)),
            )
            &&& i < manifests.len() ==> match manifests[i] {
                Some(doc) if doc.get("workspace"@) is Some => {
                    let workspace = doc.get("workspace"@)->0;
                    match workspace.get("package"@) {
                        Some(package) => match package.get("version"@) {
                            Some(TomlView::Text(text)) => match version_of(text) {
                                Some(version) => found == Ok::<WorkspaceLookupView, WorkspaceError>(
                                    WorkspaceLookupView::Found(version),
                                ),
                                None => found == Err::<WorkspaceLookupView, WorkspaceError>(
                                    WorkspaceError::InvalidVersion,
                                ),
                            },
                            _ => found == Err::<WorkspaceLookupView, WorkspaceError>(
                                WorkspaceError::NoVersion,
                            ),
                        },
                        None => found == Err::<WorkspaceLookupView, WorkspaceError>(
                            WorkspaceError::NoVersion,
                        ),
                    }
                },
                _ => if above.len() == 0 {
                    found == Err::<WorkspaceLookupView, WorkspaceError>(WorkspaceError::NoManifest)
                } else {
                    found == search_up(above, manifests, i + 1)
                },
            }
        }),
{
}

/// A slash, or a slash and a dot, at the end of a path make no difference to its
/// parent; and of a file behind slashes it is what stands before them.
pub proof fn law_slashes_at_the_end_do_not_matter(path: Seq<char>, head: Seq<char>, file: Seq<char>)
    requires
        path.len() > 0,
        head.len() > 0,
        head.last() == '/',
        file.len() > 0,
        !file.contains('/'),
        file != seq!['.'],
    ensures
        parent_dir(path + seq!['/']) == parent_dir(path),
        parent_dir(path + seq!['/', '.']) == parent_dir(path),
        parent_dir(head + file) == Some(trim_tail(head)),
        trim_tail(path + seq!['/']) == trim_tail(path),
        is_dir(trim_tail(path)),
        trim_tail(path).len() <= path.len(),
        trim_tail(path) == path.take(trim_tail(path).len() as int),
{
    let one = path + seq!['/'];
    let two = path + seq!['/', '.'];
    assert(one.drop_last() =~= path);
    assert(two.drop_last() =~= one);
    assert(two.last() == '.' && two[two.len() - 2] == '/');
    assert(trim_tail(one) == trim_tail(path));
    assert(trim_tail(two) == trim_tail(one));
    let whole = head + file;
    assert(file[file.len() - 1] == file.last());
    assert(whole.last() == file.last());
    if file.len() == 1 {
        assert(file =~= seq![file[0]]);
    } else {
        assert(whole[whole.len() - 2] == file[file.len() - 2]);
        assert(file[file.len() - 2] != '/');
    }
    assert(trim_tail(whole) == whole);
    lemma_after_slash(head, file);
    assert(whole.take(head.len() as int) =~= head);
    assert(whole.len() >= 2);
    lemma_tail(path);
}

proof fn lemma_tail(path: Seq<char>)
    ensures
        is_dir(trim_tail(path)),
        trim_tail(path).len() <= path.len(),
        trim_tail(path) == path.take(trim_tail(path).len() as int),
    decreases path.len(),
{
    if path.len() > 1 && (path.last() == '/' || (path.last() == '.' && path[path.len() - 2]
        == '/')) {
        let few = path.drop_last();
        lemma_tail(few);
        assert(few.take(trim_tail(few).len() as int) =~= path.take(trim_tail(few).len() as int));
    } else {
        assert(path.take(path.len() as int) =~= path);
    }
}

} // verus!
