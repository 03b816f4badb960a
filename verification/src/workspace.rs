//! What is read of the metadata of a workspace.
use vstd::prelude::*;

use crate::names::{NameMap, NameSet};
use crate::semver::Version;
use crate::text::texts;
use crate::types::{CrateName, ManifestPath};

verus! {

/// What a dependency is for.
#[derive(Debug, Clone, Copy, PartialEq, Eq, Structural)]
pub enum DependencyKind {
    Normal,
    Development,
    Build,
    Unknown,
}

/// A dependency of a package.
#[derive(Debug)]
pub struct NodeDep {
    /// The id of the package that is depended on.
    pub pkg: String,
    pub dep_kinds: Vec<DependencyKind>,
}

/// A package with its dependencies.
#[derive(Debug)]
pub struct Node {
    /// The id of the package.
    pub id: String,
    pub deps: Vec<NodeDep>,
}

/// A target of a package.
#[derive(Debug)]
pub struct Target {
    pub is_lib: bool,
    pub is_proc_macro: bool,
}

/// A package of the workspace, or one that it depends on.
#[derive(Debug)]
pub struct Package {
    pub id: String,
    pub name: String,
    pub version: Version,
    pub manifest_path: String,
    pub targets: Vec<Target>,
}

/// The packages of a workspace and of its dependencies.
#[derive(Debug)]
pub struct Metadata {
    pub packages: Vec<Package>,
    /// The ids of the packages of the workspace.
    pub workspace_members: Vec<String>,
    /// The resolved dependencies; `None` where they were not resolved.
    pub resolve: Option<Vec<Node>>,
}

/// Some use of the dependency is a normal one.
pub open spec fn is_normal(dep: NodeDep) -> bool {
    dep.dep_kinds@.contains(DependencyKind::Normal)
}

/// Returns true if this dependency edge has a Normal (non-dev, non-build)
/// dependency kind. Only normal deps affect the public API and semver surface.
pub fn is_normal_dep(dep: &NodeDep) -> (r: bool)
    ensures
        r == is_normal(*dep),
{
    for i in 0..dep.dep_kinds.len()
        invariant
            forall|j: int| 0 <= j < i ==> dep.dep_kinds@[j] != DependencyKind::Normal,
    {
        if dep.dep_kinds[i] == DependencyKind::Normal {
            return true;
        }
    }
    false
}

/// Shared read-only context about the workspace, built once from its metadata.
#[derive(Debug)]
pub struct WorkspaceContext {
    /// The name of each package, by its id.
    pub pkg_names: NameMap<CrateName>,
    /// The manifest of each package of the workspace.
    pub pkg_manifest_paths: NameMap<ManifestPath>,
    /// The packages of the workspace that have a public API.
    pub pkg_has_lib: NameSet,
    /// The version of each package of the workspace.
    pub pkg_versions: NameMap<Version>,
    /// The ids of the packages of the workspace.
    pub workspace_members: NameSet,
}

/// Some target of the package is a library or a procedural macro.
pub open spec fn has_lib(package: Package) -> bool {
    exists|i: int|
        0 <= i < package.targets@.len() && ((#[trigger] package.targets@[i]).is_lib
            || package.targets@[i].is_proc_macro)
}

/// The names of the first `n` packages, by id.
pub open spec fn package_names(packages: Seq<Package>, n: nat) -> Map<Seq<char>, Seq<char>>
    decreases n,
{
    if n == 0 {
        Map::empty()
    } else {
        package_names(packages, (n - 1) as nat).insert(
            packages[n - 1].id@,
            packages[n - 1].name@,
        )
    }
}

/// The manifests of those of the first `n` packages that are `members`, by name.
pub open spec fn manifest_paths(
    packages: Seq<Package>,
    members: Set<Seq<char>>,
    n: nat,
) -> Map<Seq<char>, Seq<char>>
    decreases n,
{
    if n == 0 {
        Map::empty()
    } else {
        let before = manifest_paths(packages, members, (n - 1) as nat);
        let package = packages[n - 1];
        if members.contains(package.id@) {
            before.insert(package.name@, package.manifest_path@)
        } else {
            before
        }
    }
}

/// The versions of those of the first `n` packages that are `members`, by name.
pub open spec fn package_versions(
    packages: Seq<Package>,
    members: Set<Seq<char>>,
    n: nat,
) -> Map<Seq<char>, Version>
    decreases n,
{
    if n == 0 {
        Map::empty()
    } else {
        let before = package_versions(packages, members, (n - 1) as nat);
        let package = packages[n - 1];
        if members.contains(package.id@) {
            before.insert(package.name@, package.version)
        } else {
            before
        }
    }
}

/// The names of those of the first `n` packages that are `members` and have a
/// public API.
pub open spec fn libraries(
    packages: Seq<Package>,
    members: Set<Seq<char>>,
    n: nat,
) -> Set<Seq<char>> {
    Set::new(
        |name: Seq<char>|
            exists|i: int|
                0 <= i < n && members.contains((#[trigger] packages[i]).id@) && has_lib(packages[i])
                    && packages[i].name@ == name,
    )
}

impl WorkspaceContext {
    /// The name of each package, by its id.
    pub open spec fn names(&self) -> Map<Seq<char>, Seq<char>> {
        self.pkg_names@.map_values(|name: CrateName| name@)
    }

    /// The manifest of each package of the workspace, by its name.
    pub open spec fn manifests(&self) -> Map<Seq<char>, Seq<char>> {
        self.pkg_manifest_paths@.map_values(|path: ManifestPath| path@)
    }

    /// The version of a package of the workspace.
    pub open spec fn version(&self, name: Seq<char>) -> Option<Version> {
        if self.pkg_versions@.dom().contains(name) {
            Some(self.pkg_versions@[name])
        } else {
            None
        }
    }

    /// The context holds what the metadata says of the packages; of two packages
    /// with one id, or of two in the workspace with one name, the last one counts.
    pub open spec fn reflects(&self, metadata: Metadata) -> bool {
        let packages = metadata.packages@;
        let members = texts(metadata.workspace_members@).to_set();
        &&& self.names() == package_names(packages, packages.len())
        &&& self.manifests() == manifest_paths(packages, members, packages.len())
        &&& self.pkg_versions@ == package_versions(packages, members, packages.len())
        &&& self.pkg_has_lib@ == libraries(packages, members, packages.len())
        &&& self.workspace_members@ == members
    }

    /// Gather what is known of the packages.
    pub fn new(metadata: &Metadata) -> (ctx: WorkspaceContext)
        ensures
            ctx.reflects(*metadata),
    {
        let mut ctx = WorkspaceContext {
            pkg_names: NameMap::new(),
            pkg_manifest_paths: NameMap::new(),
            pkg_has_lib: NameSet::new(),
            pkg_versions: NameMap::new(),
            workspace_members: NameSet::from_list(&metadata.workspace_members),
        };
        let ghost packages = metadata.packages@;
        let ghost members = texts(metadata.workspace_members@).to_set();
        assert(ctx.names() =~= Map::empty());
        assert(ctx.manifests() =~= Map::empty());
        assert(ctx.pkg_has_lib@ =~= libraries(packages, members, 0));
        for i in 0..metadata.packages.len()
            invariant
                packages == metadata.packages@,
                ctx.workspace_members@ == members,
                ctx.names() == package_names(packages, i as nat),
                ctx.manifests() == manifest_paths(packages, members, i as nat),
                ctx.pkg_versions@ == package_versions(packages, members, i as nat),
                ctx.pkg_has_lib@ == libraries(packages, members, i as nat),
        {
            let package = &metadata.packages[i];
            let ghost names = ctx.names();
            let ghost manifests = ctx.manifests();
            let ghost libs = ctx.pkg_has_lib@;
            ctx.pkg_names.insert(package.id.clone(), CrateName::from(package.name.clone()));
            assert(ctx.names() =~= names.insert(package.id@, package.name@));
            if ctx.workspace_members.contains(package.id.as_str()) {
                ctx.pkg_manifest_paths.insert(
                    package.name.clone(),
                    ManifestPath::from(package.manifest_path.clone()),
                );
                assert(ctx.manifests() =~= manifests.insert(
                    package.name@,
                    package.manifest_path@,
                ));
                ctx.pkg_versions.insert(package.name.clone(), package.version.clone());
                if package_has_lib(package) {
                    ctx.pkg_has_lib.insert(package.name.clone());
                }
            }
            proof {
                let more = libraries(packages, members, (i + 1) as nat);
                assert forall|name: Seq<char>| #[trigger]
                    ctx.pkg_has_lib@.contains(name) <==> more.contains(name) by {
                    if libs.contains(name) {
                        let k = choose|k: int|
                            0 <= k < i && members.contains((#[trigger] packages[k]).id@) && has_lib(
                                packages[k],
                            ) && packages[k].name@ == name;
                        assert(members.contains(packages[k].id@));
                    }
                    if ctx.pkg_has_lib@.contains(name) && !libs.contains(name) {
                        assert(members.contains(packages[i as int].id@));
                    }
                }
                assert(ctx.pkg_has_lib@ =~= more);
            }
        }
        ctx
    }
}

fn package_has_lib(package: &Package) -> (r: bool)
    ensures
        r == has_lib(*package),
{
    for i in 0..package.targets.len()
        invariant
            forall|j: int|
                0 <= j < i ==> !(#[trigger] package.targets@[j]).is_lib
                    && !package.targets@[j].is_proc_macro,
    {
        if package.targets[i].is_lib || package.targets[i].is_proc_macro {
            assert(package.targets@[i as int].is_lib || package.targets@[i as int].is_proc_macro);
            return true;
        }
    }
    false
}

} // verus!
