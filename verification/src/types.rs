//! The vocabulary of the analysis: names, paths, and what is reported of them.
use vstd::prelude::*;

use crate::order::Keyed;
use crate::semver::Bump;
use crate::text::{underscore_text, underscored};

verus! {

/// The name of a crate, as its manifest spells it.
#[derive(Debug, PartialEq, Eq, Hash, PartialOrd, Ord)]
pub struct CrateName(String);

impl View for CrateName {
    type V = Seq<char>;

    closed spec fn view(&self) -> Seq<char> {
        self.0@
    }
}

impl DeepView for CrateName {
    type V = Seq<char>;

    open spec fn deep_view(&self) -> Seq<char> {
        self@
    }
}

impl CrateName {
    pub fn as_str(&self) -> (r: &str)
        ensures
            r@ == self@,
    {
        self.0.as_str()
    }
}

impl Clone for CrateName {
    fn clone(&self) -> (copy: CrateName)
        ensures
            copy == *self,
    {
        CrateName(self.0.clone())
    }
}

impl From<String> for CrateName {
    fn from(s: String) -> (name: CrateName)
        ensures
            name@ == s@,
    {
        CrateName(s)
    }
}

impl vstd::std_specs::convert::FromSpecImpl<String> for CrateName {
    open spec fn obeys_from_spec() -> bool {
        false
    }

    open spec fn from_spec(s: String) -> CrateName {
        arbitrary()
    }
}

impl From<&str> for CrateName {
    fn from(s: &str) -> (name: CrateName)
        ensures
            name@ == s@,
    {
        CrateName(s.to_owned())
    }
}

impl vstd::std_specs::convert::FromSpecImpl<&str> for CrateName {
    open spec fn obeys_from_spec() -> bool {
        false
    }

    open spec fn from_spec(s: &str) -> CrateName {
        arbitrary()
    }
}

impl AsRef<str> for CrateName {
    fn as_ref(&self) -> (r: &str)
        ensures
            r@ == self@,
    {
        self.0.as_str()
    }
}

impl std::borrow::Borrow<str> for CrateName {
    fn borrow(&self) -> (r: &str)
        ensures
            <str as View>::view(r) == self@,
    {
        self.0.as_str()
    }
}

/// Crate name normalized to Rust identifier form (hyphens replaced with
/// underscores), matching the convention used by rustdoc / rustc.
#[derive(Debug, PartialEq, Eq, Hash)]
pub struct RustdocCrateName(String);

impl View for RustdocCrateName {
    type V = Seq<char>;

    closed spec fn view(&self) -> Seq<char> {
        self.0@
    }
}

impl RustdocCrateName {
    #[verifier::type_invariant]
    spec fn well_formed(self) -> bool {
        !self.0@.contains('-')
    }

    pub fn as_str(&self) -> (r: &str)
        ensures
            r@ == self@,
            !self@.contains('-'),
    {
        proof {
            use_type_invariant(self);
        }
        self.0.as_str()
    }

    fn normalized(s: &str) -> (name: RustdocCrateName)
        ensures
            name@ == underscored(s@),
    {
        proof {
            law_underscored_has_no_hyphen(s@);
        }
        RustdocCrateName(underscore_text(s))
    }
}

impl Clone for RustdocCrateName {
    fn clone(&self) -> (copy: RustdocCrateName)
        ensures
            copy@ == self@,
    {
        proof {
            use_type_invariant(self);
        }
        RustdocCrateName(self.0.clone())
    }
}

impl From<&CrateName> for RustdocCrateName {
    fn from(name: &CrateName) -> (r: RustdocCrateName)
        ensures
            r@ == underscored(name@),
    {
        RustdocCrateName::normalized(name.as_str())
    }
}

impl vstd::std_specs::convert::FromSpecImpl<&CrateName> for RustdocCrateName {
    open spec fn obeys_from_spec() -> bool {
        false
    }

    open spec fn from_spec(name: &CrateName) -> RustdocCrateName {
        arbitrary()
    }
}

impl From<String> for RustdocCrateName {
    fn from(s: String) -> (r: RustdocCrateName)
        ensures
            r@ == underscored(s@),
    {
        RustdocCrateName::normalized(s.as_str())
    }
}

impl vstd::std_specs::convert::FromSpecImpl<String> for RustdocCrateName {
    open spec fn obeys_from_spec() -> bool {
        false
    }

    open spec fn from_spec(s: String) -> RustdocCrateName {
        arbitrary()
    }
}

impl From<&str> for RustdocCrateName {
    fn from(s: &str) -> (r: RustdocCrateName)
        ensures
            r@ == underscored(s@),
    {
        RustdocCrateName::normalized(s)
    }
}

impl vstd::std_specs::convert::FromSpecImpl<&str> for RustdocCrateName {
    open spec fn obeys_from_spec() -> bool {
        false
    }

    open spec fn from_spec(s: &str) -> RustdocCrateName {
        arbitrary()
    }
}

impl std::borrow::Borrow<str> for RustdocCrateName {
    fn borrow(&self) -> (r: &str)
        ensures
            <str as View>::view(r) == self@,
    {
        self.0.as_str()
    }
}

/// A name in Rust identifier form holds no hyphen.
pub proof fn law_underscored_has_no_hyphen(s: Seq<char>)
    ensures
        !underscored(s).contains('-'),
{
    assert forall|i: int| 0 <= i < s.len() implies underscored(s)[i] != '-' by {}
}

/// Normalizing a name twice is normalizing it once.
pub proof fn law_underscored_is_idempotent(s: Seq<char>)
    ensures
        underscored(underscored(s)) == underscored(s),
{
    assert(underscored(underscored(s)) =~= underscored(s));
}

/// The path of a crate's manifest.
#[derive(Debug, PartialEq, Eq, Hash)]
pub struct ManifestPath(String);

impl View for ManifestPath {
    type V = Seq<char>;

    closed spec fn view(&self) -> Seq<char> {
        self.0@
    }
}

impl ManifestPath {
    pub fn as_str(&self) -> (r: &str)
        ensures
            r@ == self@,
    {
        self.0.as_str()
    }
}

impl Clone for ManifestPath {
    fn clone(&self) -> (copy: ManifestPath)
        ensures
            copy == *self,
    {
        ManifestPath(self.0.clone())
    }
}

impl From<String> for ManifestPath {
    fn from(s: String) -> (path: ManifestPath)
        ensures
            path@ == s@,
    {
        ManifestPath(s)
    }
}

impl vstd::std_specs::convert::FromSpecImpl<String> for ManifestPath {
    open spec fn obeys_from_spec() -> bool {
        false
    }

    open spec fn from_spec(s: String) -> ManifestPath {
        arbitrary()
    }
}

impl AsRef<str> for ManifestPath {
    fn as_ref(&self) -> (r: &str)
        ensures
            r@ == self@,
    {
        self.0.as_str()
    }
}

/// The name of a Rust toolchain.
#[derive(Debug)]
pub struct Toolchain(String);

impl View for Toolchain {
    type V = Seq<char>;

    closed spec fn view(&self) -> Seq<char> {
        self.0@
    }
}

impl Toolchain {
    pub fn as_str(&self) -> (r: &str)
        ensures
            r@ == self@,
    {
        self.0.as_str()
    }
}

impl Clone for Toolchain {
    fn clone(&self) -> (copy: Toolchain)
        ensures
            copy == *self,
    {
        Toolchain(self.0.clone())
    }
}

impl From<String> for Toolchain {
    fn from(s: String) -> (toolchain: Toolchain)
        ensures
            toolchain@ == s@,
    {
        Toolchain(s)
    }
}

impl vstd::std_specs::convert::FromSpecImpl<String> for Toolchain {
    open spec fn obeys_from_spec() -> bool {
        false
    }

    open spec fn from_spec(s: String) -> Toolchain {
        arbitrary()
    }
}

impl AsRef<str> for Toolchain {
    fn as_ref(&self) -> (r: &str)
        ensures
            r@ == self@,
    {
        self.0.as_str()
    }
}

impl std::str::FromStr for Toolchain {
    type Err = std::convert::Infallible;

    fn from_str(s: &str) -> (r: Result<Toolchain, std::convert::Infallible>)
        ensures
            r matches Ok(toolchain) && toolchain@ == s@,
    {
        Ok(Toolchain(s.to_owned()))
    }
}

/// A crate whose own version bump is smaller than the one it needs.
#[derive(Debug)]
pub struct UnderBumpedItem {
    pub name: CrateName,
    pub required: Bump,
    pub local: Bump,
}

/// What an under-bumped item says.
pub struct UnderBumpedView {
    pub name: Seq<char>,
    pub required: Bump,
    pub local: Bump,
}

impl DeepView for UnderBumpedItem {
    type V = UnderBumpedView;

    open spec fn deep_view(&self) -> UnderBumpedView {
        UnderBumpedView { name: self.name@, required: self.required, local: self.local }
    }
}

/// A crate that needs a version bump and has none.
#[derive(Debug)]
pub struct MissingBumpItem {
    pub name: CrateName,
    pub required: Bump,
}

/// What a missing-bump item says.
pub struct MissingBumpView {
    pub name: Seq<char>,
    pub required: Bump,
}

impl DeepView for MissingBumpItem {
    type V = MissingBumpView;

    open spec fn deep_view(&self) -> MissingBumpView {
        MissingBumpView { name: self.name@, required: self.required }
    }
}

/// An edge of the influence tree: the crate that is influenced, and how.
#[derive(Debug)]
pub struct TreeEdge {
    pub child: CrateName,
    pub bump: Bump,
}

/// What a tree edge says.
pub struct TreeEdgeView {
    pub child: Seq<char>,
    pub bump: Bump,
}

impl DeepView for TreeEdge {
    type V = TreeEdgeView;

    open spec fn deep_view(&self) -> TreeEdgeView {
        TreeEdgeView { child: self.child@, bump: self.bump }
    }
}

impl Clone for TreeEdge {
    fn clone(&self) -> (copy: TreeEdge)
        ensures
            copy == *self,
    {
        TreeEdge { child: self.child.clone(), bump: self.bump }
    }
}

impl Keyed for TreeEdge {
    open spec fn key(&self) -> Seq<char> {
        self.child@
    }

    fn key_text(&self) -> (r: &str) {
        self.child.as_str()
    }
}

} // verus!
