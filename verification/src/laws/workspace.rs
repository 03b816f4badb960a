//! Laws of the workspace context: what it knows of the packages.
use vstd::prelude::*;

use crate::text::texts;
use crate::workspace::{
    has_lib, manifest_paths, package_names, package_versions, Metadata, Package, WorkspaceContext,
};

verus! {

/// The package at `i` belongs to the workspace.
pub open spec fn is_member(metadata: Metadata, i: int) -> bool {
    &&& 0 <= i < metadata.packages@.len()
    &&& exists|k: int|
        0 <= k < metadata.workspace_members@.len() && (
        #[trigger] metadata.workspace_members@[k])@ == metadata.packages@[i].id@
}

/// No two packages have one id, and no two of the workspace have one name.
pub open spec fn is_unambiguous(metadata: Metadata) -> bool {
    let packages = metadata.packages@;
    &&& forall|i: int, j: int|
        0 <= i < j < packages.len() ==> (#[trigger] packages[i]).id@ != (#[trigger] packages[j]).id@
    &&& forall|i: int, j: int|
        0 <= i < j < packages.len() && is_member(metadata, i) && is_member(metadata, j) ==> (
        #[trigger] packages[i]).name@ != (#[trigger] packages[j]).name@
}

/// The context knows the name of each package by its id, of those of the workspace
/// also the manifest and the version by the name.
pub proof fn law_context_knows_the_packages(ctx: WorkspaceContext, metadata: Metadata, i: int)
    requires
        ctx.reflects(metadata),
        is_unambiguous(metadata),
        0 <= i < metadata.packages@.len(),
    ensures
        ({
            let package = metadata.packages@[i];
            &&& ctx.names().dom().contains(package.id@)
            &&& ctx.names()[package.id@] == package.name@
            &&& ctx.workspace_members@.contains(package.id@) <==> is_member(metadata, i)
            &&& is_member(metadata, i) ==> {
                &&& ctx.manifests().dom().contains(package.name@)
                &&& ctx.manifests()[package.name@] == package.manifest_path@
                &&& ctx.pkg_versions@.dom().contains(package.name@)
                &&& ctx.pkg_versions@[package.name@] == package.version
                &&& ctx.pkg_has_lib@.contains(package.name@) <==> exists|k: int|
                    0 <= k < package.targets@.len() && ((#[trigger] package.targets@[k]).is_lib
                        || package.targets@[k].is_proc_macro)
            }
        }),
{
    let packages = metadata.packages@;
    let members = texts(metadata.workspace_members@).to_set();
    lemma_members(metadata, i);
    lemma_names(packages, packages.len(), i);
    if is_member(metadata, i) {
        lemma_manifests(metadata, packages.len(), i);
        lemma_versions(metadata, packages.len(), i);
        if ctx.pkg_has_lib@.contains(packages[i].name@) {
            let k = choose|k: int|
                0 <= k < packages.len() && members.contains((#[trigger] packages[k]).id@)
                    && has_lib(packages[k]) && packages[k].name@ == packages[i].name@;
            lemma_members(metadata, k);
            assert(k == i) by {
                if k < i {
                    assert(packages[k].name@ != packages[i].name@);
                } else if i < k {
                    assert(packages[i].name@ != packages[k].name@);
                }
            }
        }
        if has_lib(packages[i]) {
            assert(members.contains(packages[i].id@) && packages[i].name@ == packages[i].name@);
            assert(ctx.pkg_has_lib@.contains(packages[i].name@));
        }
    }
}

/// Whatever the context knows is said of a package.
pub proof fn law_context_knows_nothing_else(
    ctx: WorkspaceContext,
    metadata: Metadata,
    text: Seq<char>,
)
    requires
        ctx.reflects(metadata),
    ensures
        ctx.names().dom().contains(text) ==> exists|i: int|
            0 <= i < metadata.packages@.len() && (#[trigger] metadata.packages@[i]).id@ == text,
        ctx.manifests().dom().contains(text) ==> exists|i: int| #[trigger]
            is_member(metadata, i) && metadata.packages@[i].name@ == text,
        ctx.pkg_versions@.dom().contains(text) ==> exists|i: int| #[trigger]
            is_member(metadata, i) && metadata.packages@[i].name@ == text,
        ctx.pkg_has_lib@.contains(text) ==> exists|i: int| #[trigger]
            is_member(metadata, i) && metadata.packages@[i].name@ == text,
{
    let packages = metadata.packages@;
    let members = texts(metadata.workspace_members@).to_set();
    lemma_no_other(metadata, packages.len(), text);
    if ctx.pkg_has_lib@.contains(text) {
        let k = choose|k: int|
            0 <= k < packages.len() && members.contains((#[trigger] packages[k]).id@) && has_lib(
                packages[k],
            ) && packages[k].name@ == text;
        lemma_members(metadata, k);
        assert(is_member(metadata, k));
    }
}

proof fn lemma_members(metadata: Metadata, i: int)
    requires
        0 <= i < metadata.packages@.len(),
    ensures
        texts(metadata.workspace_members@).to_set().contains(metadata.packages@[i].id@)
            <==> is_member(metadata, i),
{
    let list = metadata.workspace_members@;
    let id = metadata.packages@[i].id@;
    if texts(list).to_set().contains(id) {
        let k = choose|k: int| 0 <= k < texts(list).len() && texts(list)[k] == id;
        assert(list[k]@ == id);
    }
    if is_member(metadata, i) {
        let k = choose|k: int| 0 <= k < list.len() && (#[trigger] list[k])@ == id;
        assert(texts(list)[k] == id);
        assert(texts(list).contains(id));
    }
}

proof fn lemma_names(packages: Seq<Package>, n: nat, i: int)
    requires
        0 <= i < n <= packages.len(),
        forall|i: int, j: int|
            0 <= i < j < packages.len() ==> (#[trigger] packages[i]).id@ != (
            #[trigger] packages[j]).id@,
    ensures
        package_names(packages, n).dom().contains(packages[i].id@),
        package_names(packages, n)[packages[i].id@] == packages[i].name@,
    decreases n,
{
    if i < n - 1 {
        lemma_names(packages, (n - 1) as nat, i);
        assert(packages[i].id@ != packages[n - 1].id@);
    }
}

proof fn lemma_manifests(metadata: Metadata, n: nat, i: int)
    requires
        0 <= i < n <= metadata.packages@.len(),
        is_member(metadata, i),
        is_unambiguous(metadata),
    ensures
        ({
            let members = texts(metadata.workspace_members@).to_set();
            let packages = metadata.packages@;
            let found = manifest_paths(packages, members, n);
            found.dom().contains(packages[i].name@) && found[packages[i].name@]
                == packages[i].manifest_path@
        }),
    decreases n,
{
    lemma_members(metadata, n - 1);
    if i < n - 1 {
        lemma_manifests(metadata, (n - 1) as nat, i);
        assert(is_member(metadata, n - 1) ==> metadata.packages@[i].name@ != metadata.packages@[n
            - 1].name@);
    }
}

proof fn lemma_versions(metadata: Metadata, n: nat, i: int)
    requires
        0 <= i < n <= metadata.packages@.len(),
        is_member(metadata, i),
        is_unambiguous(metadata),
    ensures
        ({
            let members = texts(metadata.workspace_members@).to_set();
            let packages = metadata.packages@;
            let found = package_versions(packages, members, n);
            found.dom().contains(packages[i].name@) && found[packages[i].name@]
                == packages[i].version
        }),
    decreases n,
{
    lemma_members(metadata, n - 1);
    if i < n - 1 {
        lemma_versions(metadata, (n - 1) as nat, i);
        assert(is_member(metadata, n - 1) ==> metadata.packages@[i].name@ != metadata.packages@[n
            - 1].name@);
    }
}

proof fn lemma_no_other(metadata: Metadata, n: nat, text: Seq<char>)
    requires
        n <= metadata.packages@.len(),
    ensures
        ({
            let members = texts(metadata.workspace_members@).to_set();
            let packages = metadata.packages@;
            &&& package_names(packages, n).dom().contains(text) ==> exists|i: int|
                0 <= i < packages.len() && (#[trigger] packages[i]).id@ == text
            &&& manifest_paths(packages, members, n).dom().contains(text) ==> exists|i: int|
                #[trigger] is_member(metadata, i) && packages[i].name@ == text
            &&& package_versions(packages, members, n).dom().contains(text) ==> exists|i: int|
                #[trigger] is_member(metadata, i) && packages[i].name@ == text
        }),
    decreases n,
{
    if n > 0 {
        lemma_no_other(metadata, (n - 1) as nat, text);
        lemma_members(metadata, n - 1);
        assert(metadata.packages@[n - 1].id@ == metadata.packages@[n - 1].id@);
    }
}

} // verus!
