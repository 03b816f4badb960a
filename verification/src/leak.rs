//! Which dependencies a crate exposes in its public API.
use std::collections::HashMap;

use vstd::prelude::*;

use crate::display::{item_kind_label, kind_label, type_display_name, shown_type};
use crate::ids::{ascending_ids, ids_of, lemma_ascending_ids};
use crate::laws::leaks::{law_shown_path_is_leaked, shows_path};
use crate::names::{NameMap, NameSet};
use crate::order::{
    lemma_sort_by, lemma_sort_by_map, sort_by, sorted_by, stable_sort, text_eq, Keyed,
};
use crate::rustdoc::{
    args_of, bounds_of, constraints_of, name_texts, params_of, paths_of, places_of, predicates_of,
    types_of, ArgView, ArgsView, BoundView, ConstraintView, DocArg, DocArgs, DocBound,
    DocConstraint, DocFields, DocGenerics, DocItem, DocKind, DocParam, DocPath, DocPredicate,
    DocSignature, DocSummary, DocType, Docs, DocsView, FieldsView, GenericsView, ItemView, KindView,
    ParamView, PathView, PredicateView, SignatureView, SummaryView, TypeView,
};
use crate::text::{join, join_texts};

verus! {

/// A reference to an item of a crate: the crate, and the item's full path.
pub type CrateRef = (u32, Seq<char>);

/// Where each item is defined.
pub type Paths = Map<u32, SummaryView>;

/// The item `id` is known as `r`.
pub open spec fn is_at(paths: Paths, id: u32, r: CrateRef) -> bool {
    paths.dom().contains(id) && r == (paths[id].crate_id, full_path(paths[id]))
}

/// The full path of an item.
pub open spec fn full_path(summary: SummaryView) -> Seq<char> {
    join(summary.path, "::"@)
}

/// Some type of a list mentions `r`.
pub open spec fn types_mention(types: Seq<TypeView>, paths: Paths, r: CrateRef) -> bool
    decreases types,
{
    exists|i: int| 0 <= i < types.len() && (#[trigger] types[i]).mentions(paths, r)
}

/// Some path of a list mentions `r`.
pub open spec fn paths_mention(list: Seq<PathView>, paths: Paths, r: CrateRef) -> bool
    decreases list,
{
    exists|i: int| 0 <= i < list.len() && (#[trigger] list[i]).mentions(paths, r)
}

/// Some bound of a list mentions `r`.
pub open spec fn bounds_mention(bounds: Seq<BoundView>, paths: Paths, r: CrateRef) -> bool
    decreases bounds,
{
    exists|i: int| 0 <= i < bounds.len() && (#[trigger] bounds[i]).mentions(paths, r)
}

/// Some generic argument of a list mentions `r`.
pub open spec fn args_mention(args: Seq<ArgView>, paths: Paths, r: CrateRef) -> bool
    decreases args,
{
    exists|i: int| 0 <= i < args.len() && (#[trigger] args[i]).mentions(paths, r)
}

/// Some constraint of a list mentions `r`.
pub open spec fn constraints_mention(
    constraints: Seq<ConstraintView>,
    paths: Paths,
    r: CrateRef,
) -> bool
    decreases constraints,
{
    exists|i: int| 0 <= i < constraints.len() && (#[trigger] constraints[i]).mentions(paths, r)
}

impl TypeView {
    /// The type mentions `r`: by a path in it, or in the generic arguments of one.
    pub open spec fn mentions(self, paths: Paths, r: CrateRef) -> bool
        decreases self,
    {
        match self {
            TypeView::ResolvedPath(path) => path.mentions(paths, r),
            TypeView::DynTrait(traits) => paths_mention(traits, paths, r),
            TypeView::FunctionPointer(sig) => sig.mentions(paths, r),
            TypeView::Tuple(types) => types_mention(types, paths, r),
            TypeView::Slice(inner) => inner.mentions(paths, r),
            TypeView::Array(inner) => inner.mentions(paths, r),
            TypeView::Pat(inner) => inner.mentions(paths, r),
            TypeView::RawPointer(inner) => inner.mentions(paths, r),
            TypeView::BorrowedRef(inner) => inner.mentions(paths, r),
            TypeView::ImplTrait(bounds) => bounds_mention(bounds, paths, r),
            TypeView::QualifiedPath { self_type, trait_, args } => {
                ||| self_type.mentions(paths, r)
                ||| trait_ matches Some(path) && path.mentions(paths, r)
                ||| args matches Some(args) && args.mentions(paths, r)
            },
            TypeView::Generic(_) => false,
            TypeView::Primitive(_) => false,
            TypeView::Infer => false,
        }
    }
}

impl PathView {
    /// The path names `r`, or its generic arguments mention it.
    pub open spec fn mentions(self, paths: Paths, r: CrateRef) -> bool
        decreases self,
    {
        ||| is_at(paths, self.id, r)
        ||| self.args matches Some(args) && args.mentions(paths, r)
    }
}

impl ArgsView {
    /// Some type, bound or result among the arguments mentions `r`.
    pub open spec fn mentions(self, paths: Paths, r: CrateRef) -> bool
        decreases self,
    {
        match self {
            ArgsView::AngleBracketed { args, constraints } => {
                ||| args_mention(args, paths, r)
                ||| constraints_mention(constraints, paths, r)
            },
            ArgsView::Parenthesized { inputs, output } => {
                ||| types_mention(inputs, paths, r)
                ||| output matches Some(ty) && ty.mentions(paths, r)
            },
            ArgsView::ReturnTypeNotation => false,
        }
    }
}

impl ArgView {
    /// The argument is a type that mentions `r`.
    pub open spec fn mentions(self, paths: Paths, r: CrateRef) -> bool
        decreases self,
    {
        self matches ArgView::Type(ty) && ty.mentions(paths, r)
    }
}

impl ConstraintView {
    /// The type or a bound of the constraint mentions `r`.
    pub open spec fn mentions(self, paths: Paths, r: CrateRef) -> bool
        decreases self,
    {
        match self {
            ConstraintView::Equality(ty) => ty matches Some(ty) && ty.mentions(paths, r),
            ConstraintView::Bounds(bounds) => bounds_mention(bounds, paths, r),
        }
    }
}

impl BoundView {
    /// The bound is a trait whose path mentions `r`.
    pub open spec fn mentions(self, paths: Paths, r: CrateRef) -> bool
        decreases self,
    {
        self matches BoundView::TraitBound(path) && path.mentions(paths, r)
    }
}

impl SignatureView {
    /// A parameter or the result mentions `r`.
    pub open spec fn mentions(self, paths: Paths, r: CrateRef) -> bool
        decreases self,
    {
        ||| types_mention(self.inputs, paths, r)
        ||| self.output matches Some(ty) && ty.mentions(paths, r)
    }
}

impl ParamView {
    /// A bound or the default of a type parameter mentions `r`.
    pub open spec fn mentions(self, paths: Paths, r: CrateRef) -> bool {
        match self {
            ParamView::Type { bounds, default } => {
                ||| bounds_mention(bounds, paths, r)
                ||| default matches Some(ty) && ty.mentions(paths, r)
            },
            _ => false,
        }
    }
}

impl PredicateView {
    /// A type or a bound of the predicate mentions `r`.
    pub open spec fn mentions(self, paths: Paths, r: CrateRef) -> bool {
        match self {
            PredicateView::BoundPredicate { type_, bounds } => {
                ||| type_.mentions(paths, r)
                ||| bounds_mention(bounds, paths, r)
            },
            PredicateView::EqPredicate { lhs, rhs } => {
                ||| lhs.mentions(paths, r)
                ||| rhs matches Some(ty) && ty.mentions(paths, r)
            },
            PredicateView::LifetimePredicate => false,
        }
    }
}

/// Some generic parameter of a list mentions `r`.
pub open spec fn params_mention(params: Seq<ParamView>, paths: Paths, r: CrateRef) -> bool {
    exists|i: int| 0 <= i < params.len() && (#[trigger] params[i]).mentions(paths, r)
}

/// Some predicate of a list mentions `r`.
pub open spec fn predicates_mention(
    predicates: Seq<PredicateView>,
    paths: Paths,
    r: CrateRef,
) -> bool {
    exists|i: int| 0 <= i < predicates.len() && (#[trigger] predicates[i]).mentions(paths, r)
}

impl GenericsView {
    /// A parameter or a predicate of the `where` clause mentions `r`.
    pub open spec fn mentions(self, paths: Paths, r: CrateRef) -> bool {
        ||| params_mention(self.params, paths, r)
        ||| predicates_mention(self.where_predicates, paths, r)
    }
}

impl KindView {
    /// The public face of the item mentions `r`: what it imports, its signature,
    /// its generics, its bounds or its type.
    pub open spec fn mentions(self, paths: Paths, r: CrateRef) -> bool {
        match self {
            KindView::Use(target) => target matches Some(id) && is_at(paths, id, r),
            KindView::Function { sig, generics } => {
                ||| sig.mentions(paths, r)
                ||| generics.mentions(paths, r)
            },
            KindView::Struct { generics, .. } => generics.mentions(paths, r),
            KindView::StructField(ty) => ty.mentions(paths, r),
            KindView::Enum(generics) => generics.mentions(paths, r),
            KindView::Union(generics) => generics.mentions(paths, r),
            KindView::TypeAlias { type_, generics } => {
                ||| type_.mentions(paths, r)
                ||| generics.mentions(paths, r)
            },
            KindView::Trait { generics, bounds, .. } => {
                ||| generics.mentions(paths, r)
                ||| bounds_mention(bounds, paths, r)
            },
            KindView::TraitAlias { generics, params } => {
                ||| generics.mentions(paths, r)
                ||| bounds_mention(params, paths, r)
            },
            KindView::Impl { generics, trait_, for_, .. } => {
                ||| generics.mentions(paths, r)
                ||| for_.mentions(paths, r)
                ||| trait_ matches Some(path) && path.mentions(paths, r)
            },
            KindView::Constant(ty) => ty.mentions(paths, r),
            KindView::Static(ty) => ty.mentions(paths, r),
            KindView::AssocConst(ty) => ty.mentions(paths, r),
            KindView::AssocType { generics, bounds, type_ } => {
                ||| generics.mentions(paths, r)
                ||| bounds_mention(bounds, paths, r)
                ||| type_ matches Some(ty) && ty.mentions(paths, r)
            },
            KindView::Variant(_) => false,
            KindView::Module => false,
            KindView::ExternCrate => false,
            KindView::ExternType => false,
            KindView::Macro => false,
            KindView::ProcMacro => false,
            KindView::Primitive => false,
        }
    }
}

impl ItemView {
    /// The item refers to `r`, which belongs to another crate.
    pub open spec fn refers_to(self, paths: Paths, r: CrateRef) -> bool {
        r.0 != 0 && self.inner.mentions(paths, r)
    }
}

/// A set of references to items of crates.
#[derive(Debug)]
pub struct CrateIdSet {
    items: Vec<(u32, String)>,
}

impl View for CrateIdSet {
    type V = Set<CrateRef>;

    closed spec fn view(&self) -> Set<CrateRef> {
        self.list().to_set()
    }
}

impl CrateIdSet {
    /// The references in the order in which they came.
    pub closed spec fn list(&self) -> Seq<CrateRef> {
        self.items@.map_values(|item: (u32, String)| (item.0, item.1@))
    }

    /// The empty set.
    pub fn new() -> (set: CrateIdSet)
        ensures
            set@ == Set::<CrateRef>::empty(),
    {
        let set = CrateIdSet { items: Vec::new() };
        assert(set@ =~= Set::<CrateRef>::empty());
        set
    }

    /// Add a reference.
    pub fn insert(&mut self, crate_id: u32, path: String)
        ensures
            final(self)@ == old(self)@.insert((crate_id, path@)),
    {
        let ghost r = (crate_id, path@);
        let ghost before = self.list();
        let mut i: usize = 0;
        while i < self.items.len()
            invariant
                i <= self.items.len(),
                self.list() == before,
                r == (crate_id, path@),
                old(self)@ == before.to_set(),
            decreases self.items.len() - i,
        {
            if self.items[i].0 == crate_id && text_eq(self.items[i].1.as_str(), path.as_str()) {
                assert(before[i as int] == r);
                assert(before.to_set().insert(r) =~= before.to_set());
                return;
            }
            i = i + 1;
        }
        self.items.push((crate_id, path));
        assert(self.list() =~= before.push(r));
        assert(before.push(r).to_set() =~= before.to_set().insert(r)) by {
            assert forall|x: CrateRef| #[trigger]
                before.push(r).to_set().contains(x) == before.to_set().insert(r).contains(x) by {
                if before.contains(x) {
                    let k = choose|k: int| 0 <= k < before.len() && before[k] == x;
                    assert(before.push(r)[k] == x);
                }
                assert(before.push(r)[before.len() as int] == r);
            }
        }
    }

    /// Leave only the references to items of other crates.
    fn retain_external(&mut self)
        ensures
            forall|r: CrateRef| #[trigger]
                final(self)@.contains(r) <==> old(self)@.contains(r) && r.0 != 0,
    {
        let mut items: Vec<(u32, String)> = Vec::new();
        std::mem::swap(&mut items, &mut self.items);
        let ghost before = items@.map_values(|item: (u32, String)| (item.0, item.1@));
        assert(old(self)@ == before.to_set());
        assert(self@ =~= Set::<CrateRef>::empty());
        for item in iter: items
            invariant
                before == iter.seq().map_values(|item: (u32, String)| (item.0, item.1@)),
                forall|r: CrateRef| #[trigger]
                    self@.contains(r) <==> r.0 != 0 && exists|k: int|
                        0 <= k < iter.index() && #[trigger] before[k] == r,
        {
            let ghost here = before[iter.index() as int];
            assert(here == (item.0, item.1@));
            if item.0 != 0 {
                self.insert(item.0, item.1);
            }
        }
    }
}

/// Add what the item `id` is known as.
fn add_at(paths: &HashMap<u32, DocSummary>, id: u32, out: &mut CrateIdSet)
    ensures
        forall|r: CrateRef| #[trigger]
            final(out)@.contains(r) <==> old(out)@.contains(r) || is_at(places_of(paths@), id, r),
{
    broadcast use vstd::std_specs::hash::group_hash_axioms;

    if let Some(summary) = paths.get(&id) {
        out.insert(summary.crate_id, join_texts(&summary.path, "::"));
    }
}

/// Add what some type of a list mentions.
fn collect_types(
    list: &Vec<DocType>,
    paths: &HashMap<u32, DocSummary>,
    out: &mut CrateIdSet,
)
    ensures
        forall|r: CrateRef| #[trigger]
            final(out)@.contains(r) <==> old(out)@.contains(r) || types_mention(
                types_of(list@),
                places_of(paths@),
                r,
            ),
    decreases list@,
{
    let ghost before = out@;
    for i in 0..list.len()
        invariant
            forall|r: CrateRef| #[trigger]
                out@.contains(r) <==> before.contains(r) || exists|j: int|
                    0 <= j < i && (#[trigger] types_of(list@)[j]).mentions(places_of(paths@), r),
    {
        assert(types_of(list@)[i as int] == list@[i as int].tree());
        list[i].collect_crate_ids(paths, out);
    }
}

/// Add what some path of a list mentions.
fn collect_paths(
    list: &Vec<DocPath>,
    paths: &HashMap<u32, DocSummary>,
    out: &mut CrateIdSet,
)
    ensures
        forall|r: CrateRef| #[trigger]
            final(out)@.contains(r) <==> old(out)@.contains(r) || paths_mention(
                paths_of(list@),
                places_of(paths@),
                r,
            ),
    decreases list@,
{
    let ghost before = out@;
    for i in 0..list.len()
        invariant
            forall|r: CrateRef| #[trigger]
                out@.contains(r) <==> before.contains(r) || exists|j: int|
                    0 <= j < i && (#[trigger] paths_of(list@)[j]).mentions(places_of(paths@), r),
    {
        assert(paths_of(list@)[i as int] == list@[i as int].tree());
        list[i].collect_crate_ids(paths, out);
    }
}

/// Add what some bound of a list mentions.
fn collect_bounds(
    list: &Vec<DocBound>,
    paths: &HashMap<u32, DocSummary>,
    out: &mut CrateIdSet,
)
    ensures
        forall|r: CrateRef| #[trigger]
            final(out)@.contains(r) <==> old(out)@.contains(r) || bounds_mention(
                bounds_of(list@),
                places_of(paths@),
                r,
            ),
    decreases list@,
{
    let ghost before = out@;
    for i in 0..list.len()
        invariant
            forall|r: CrateRef| #[trigger]
                out@.contains(r) <==> before.contains(r) || exists|j: int|
                    0 <= j < i && (#[trigger] bounds_of(list@)[j]).mentions(places_of(paths@), r),
    {
        assert(bounds_of(list@)[i as int] == list@[i as int].tree());
        list[i].collect_crate_ids(paths, out);
    }
}

/// Add what some generic argument of a list mentions.
fn collect_args(
    list: &Vec<DocArg>,
    paths: &HashMap<u32, DocSummary>,
    out: &mut CrateIdSet,
)
    ensures
        forall|r: CrateRef| #[trigger]
            final(out)@.contains(r) <==> old(out)@.contains(r) || args_mention(
                args_of(list@),
                places_of(paths@),
                r,
            ),
    decreases list@,
{
    let ghost before = out@;
    for i in 0..list.len()
        invariant
            forall|r: CrateRef| #[trigger]
                out@.contains(r) <==> before.contains(r) || exists|j: int|
                    0 <= j < i && (#[trigger] args_of(list@)[j]).mentions(places_of(paths@), r),
    {
        assert(args_of(list@)[i as int] == list@[i as int].tree());
        list[i].collect_crate_ids(paths, out);
    }
}

/// Add what some constraint of a list mentions.
fn collect_constraints(
    list: &Vec<DocConstraint>,
    paths: &HashMap<u32, DocSummary>,
    out: &mut CrateIdSet,
)
    ensures
        forall|r: CrateRef| #[trigger]
            final(out)@.contains(r) <==> old(out)@.contains(r) || constraints_mention(
                constraints_of(list@),
                places_of(paths@),
                r,
            ),
    decreases list@,
{
    let ghost before = out@;
    for i in 0..list.len()
        invariant
            forall|r: CrateRef| #[trigger]
                out@.contains(r) <==> before.contains(r) || exists|j: int|
                    0 <= j < i && (#[trigger] constraints_of(list@)[j]).mentions(
                        places_of(paths@),
                        r,
                    ),
    {
        assert(constraints_of(list@)[i as int] == list@[i as int].tree());
        list[i].collect_crate_ids(paths, out);
    }
}

impl DocType {
    /// Add what is mentioned to `out`.
    pub fn collect_crate_ids(&self, paths: &HashMap<u32, DocSummary>, out: &mut CrateIdSet)
        ensures
            forall|r: CrateRef| #[trigger]
                final(out)@.contains(r) <==> old(out)@.contains(r) || self.tree().mentions(
                    places_of(paths@),
                    r,
                ),
        decreases *self,
    {
        match self {
            DocType::ResolvedPath(path) => path.collect_crate_ids(paths, out),
            DocType::DynTrait(traits) => collect_paths(traits, paths, out),
            DocType::FunctionPointer(sig) => sig.collect_crate_ids(paths, out),
            DocType::Tuple(types) => collect_types(types, paths, out),
            DocType::Slice(inner) => inner.collect_crate_ids(paths, out),
            DocType::Array(inner) => inner.collect_crate_ids(paths, out),
            DocType::Pat(inner) => inner.collect_crate_ids(paths, out),
            DocType::RawPointer(inner) => inner.collect_crate_ids(paths, out),
            DocType::BorrowedRef(inner) => inner.collect_crate_ids(paths, out),
            DocType::ImplTrait(bounds) => collect_bounds(bounds, paths, out),
            DocType::QualifiedPath { self_type, trait_, args } => {
                self_type.collect_crate_ids(paths, out);
                if let Some(path) = trait_ {
                    path.collect_crate_ids(paths, out);
                }
                if let Some(args) = args {
                    args.collect_crate_ids(paths, out);
                }
            },
            DocType::Generic(_) => {},
            DocType::Primitive(_) => {},
            DocType::Infer => {},
        }
    }
}

impl DocPath {
    /// Add what is mentioned to `out`.
    pub fn collect_crate_ids(&self, paths: &HashMap<u32, DocSummary>, out: &mut CrateIdSet)
        ensures
            forall|r: CrateRef| #[trigger]
                final(out)@.contains(r) <==> old(out)@.contains(r) || self.tree().mentions(
                    places_of(paths@),
                    r,
                ),
        decreases *self,
    {
        add_at(paths, self.id, out);
        if let Some(args) = &self.args {
            args.collect_crate_ids(paths, out);
        }
    }
}

impl DocArgs {
    /// Add what is mentioned to `out`.
    pub fn collect_crate_ids(&self, paths: &HashMap<u32, DocSummary>, out: &mut CrateIdSet)
        ensures
            forall|r: CrateRef| #[trigger]
                final(out)@.contains(r) <==> old(out)@.contains(r) || self.tree().mentions(
                    places_of(paths@),
                    r,
                ),
        decreases *self,
    {
        match self {
            DocArgs::AngleBracketed { args, constraints } => {
                collect_args(args, paths, out);
                collect_constraints(constraints, paths, out);
            },
            DocArgs::Parenthesized { inputs, output } => {
                collect_types(inputs, paths, out);
                if let Some(ty) = output {
                    ty.collect_crate_ids(paths, out);
                }
            },
            DocArgs::ReturnTypeNotation => {},
        }
    }
}

impl DocArg {
    /// Add what is mentioned to `out`.
    pub fn collect_crate_ids(&self, paths: &HashMap<u32, DocSummary>, out: &mut CrateIdSet)
        ensures
            forall|r: CrateRef| #[trigger]
                final(out)@.contains(r) <==> old(out)@.contains(r) || self.tree().mentions(
                    places_of(paths@),
                    r,
                ),
        decreases *self,
    {
        match self {
            DocArg::Type(ty) => ty.collect_crate_ids(paths, out),
            _ => {},
        }
    }
}

impl DocConstraint {
    /// Add what is mentioned to `out`.
    pub fn collect_crate_ids(&self, paths: &HashMap<u32, DocSummary>, out: &mut CrateIdSet)
        ensures
            forall|r: CrateRef| #[trigger]
                final(out)@.contains(r) <==> old(out)@.contains(r) || self.tree().mentions(
                    places_of(paths@),
                    r,
                ),
        decreases *self,
    {
        match self {
            DocConstraint::Equality(ty) => {
                if let Some(ty) = ty {
                    ty.collect_crate_ids(paths, out);
                }
            },
            DocConstraint::Bounds(bounds) => collect_bounds(bounds, paths, out),
        }
    }
}

impl DocBound {
    /// Add what is mentioned to `out`.
    pub fn collect_crate_ids(&self, paths: &HashMap<u32, DocSummary>, out: &mut CrateIdSet)
        ensures
            forall|r: CrateRef| #[trigger]
                final(out)@.contains(r) <==> old(out)@.contains(r) || self.tree().mentions(
                    places_of(paths@),
                    r,
                ),
        decreases *self,
    {
        match self {
            DocBound::TraitBound(path) => path.collect_crate_ids(paths, out),
            _ => {},
        }
    }
}

impl DocSignature {
    /// Add what is mentioned to `out`.
    pub fn collect_crate_ids(&self, paths: &HashMap<u32, DocSummary>, out: &mut CrateIdSet)
        ensures
            forall|r: CrateRef| #[trigger]
                final(out)@.contains(r) <==> old(out)@.contains(r) || self.tree().mentions(
                    places_of(paths@),
                    r,
                ),
        decreases *self,
    {
        collect_types(&self.inputs, paths, out);
        if let Some(ty) = &self.output {
            ty.collect_crate_ids(paths, out);
        }
    }
}

impl DocParam {
    /// Add what is mentioned to `out`.
    pub fn collect_crate_ids(&self, paths: &HashMap<u32, DocSummary>, out: &mut CrateIdSet)
        ensures
            forall|r: CrateRef| #[trigger]
                final(out)@.contains(r) <==> old(out)@.contains(r) || self.tree().mentions(
                    places_of(paths@),
                    r,
                ),
    {
        match self {
            DocParam::Type { bounds, default } => {
                collect_bounds(bounds, paths, out);
                if let Some(ty) = default {
                    ty.collect_crate_ids(paths, out);
                }
            },
            _ => {},
        }
    }
}

impl DocPredicate {
    /// Add what is mentioned to `out`.
    pub fn collect_crate_ids(&self, paths: &HashMap<u32, DocSummary>, out: &mut CrateIdSet)
        ensures
            forall|r: CrateRef| #[trigger]
                final(out)@.contains(r) <==> old(out)@.contains(r) || self.tree().mentions(
                    places_of(paths@),
                    r,
                ),
    {
        match self {
            DocPredicate::BoundPredicate { type_, bounds } => {
                type_.collect_crate_ids(paths, out);
                collect_bounds(bounds, paths, out);
            },
            DocPredicate::EqPredicate { lhs, rhs } => {
                lhs.collect_crate_ids(paths, out);
                if let Some(ty) = rhs {
                    ty.collect_crate_ids(paths, out);
                }
            },
            DocPredicate::LifetimePredicate => {},
        }
    }
}

/// Add what some generic parameter of a list mentions.
fn collect_params(
    list: &Vec<DocParam>,
    paths: &HashMap<u32, DocSummary>,
    out: &mut CrateIdSet,
)
    ensures
        forall|r: CrateRef| #[trigger]
            final(out)@.contains(r) <==> old(out)@.contains(r) || params_mention(
                params_of(list@),
                places_of(paths@),
                r,
            ),
{
    let ghost before = out@;
    for i in 0..list.len()
        invariant
            forall|r: CrateRef| #[trigger]
                out@.contains(r) <==> before.contains(r) || exists|j: int|
                    0 <= j < i && (#[trigger] params_of(list@)[j]).mentions(places_of(paths@), r),
    {
        assert(params_of(list@)[i as int] == list@[i as int].tree());
        list[i].collect_crate_ids(paths, out);
    }
}

/// Add what some predicate of a list mentions.
fn collect_predicates(
    list: &Vec<DocPredicate>,
    paths: &HashMap<u32, DocSummary>,
    out: &mut CrateIdSet,
)
    ensures
        forall|r: CrateRef| #[trigger]
            final(out)@.contains(r) <==> old(out)@.contains(r) || predicates_mention(
                predicates_of(list@),
                places_of(paths@),
                r,
            ),
{
    let ghost before = out@;
    for i in 0..list.len()
        invariant
            forall|r: CrateRef| #[trigger]
                out@.contains(r) <==> before.contains(r) || exists|j: int|
                    0 <= j < i && (#[trigger] predicates_of(list@)[j]).mentions(
                        places_of(paths@),
                        r,
                    ),
    {
        assert(predicates_of(list@)[i as int] == list@[i as int].tree());
        list[i].collect_crate_ids(paths, out);
    }
}

impl DocGenerics {
    /// Add what is mentioned to `out`.
    pub fn collect_crate_ids(&self, paths: &HashMap<u32, DocSummary>, out: &mut CrateIdSet)
        ensures
            forall|r: CrateRef| #[trigger]
                final(out)@.contains(r) <==> old(out)@.contains(r) || self.tree().mentions(
                    places_of(paths@),
                    r,
                ),
    {
        collect_params(&self.params, paths, out);
        collect_predicates(&self.where_predicates, paths, out);
    }
}

impl DocKind {
    /// Add what is mentioned to `out`.
    pub fn collect_crate_ids(&self, paths: &HashMap<u32, DocSummary>, out: &mut CrateIdSet)
        ensures
            forall|r: CrateRef| #[trigger]
                final(out)@.contains(r) <==> old(out)@.contains(r) || self.tree().mentions(
                    places_of(paths@),
                    r,
                ),
    {
        match self {
            DocKind::Use(target) => {
                if let Some(id) = target {
                    add_at(paths, *id, out);
                }
            },
            DocKind::Function { sig, generics } => {
                sig.collect_crate_ids(paths, out);
                generics.collect_crate_ids(paths, out);
            },
            DocKind::Struct { generics, .. } => generics.collect_crate_ids(paths, out),
            DocKind::StructField(ty) => ty.collect_crate_ids(paths, out),
            DocKind::Enum(generics) => generics.collect_crate_ids(paths, out),
            DocKind::Union(generics) => generics.collect_crate_ids(paths, out),
            DocKind::TypeAlias { type_, generics } => {
                type_.collect_crate_ids(paths, out);
                generics.collect_crate_ids(paths, out);
            },
            DocKind::Trait { generics, bounds, .. } => {
                generics.collect_crate_ids(paths, out);
                collect_bounds(bounds, paths, out);
            },
            DocKind::TraitAlias { generics, params } => {
                generics.collect_crate_ids(paths, out);
                collect_bounds(params, paths, out);
            },
            DocKind::Impl { generics, trait_, for_, .. } => {
                generics.collect_crate_ids(paths, out);
                for_.collect_crate_ids(paths, out);
                if let Some(path) = trait_ {
                    path.collect_crate_ids(paths, out);
                }
            },
            DocKind::Constant(ty) => ty.collect_crate_ids(paths, out),
            DocKind::Static(ty) => ty.collect_crate_ids(paths, out),
            DocKind::AssocConst(ty) => ty.collect_crate_ids(paths, out),
            DocKind::AssocType { generics, bounds, type_ } => {
                generics.collect_crate_ids(paths, out);
                collect_bounds(bounds, paths, out);
                if let Some(ty) = type_ {
                    ty.collect_crate_ids(paths, out);
                }
            },
            DocKind::Variant(_) => {},
            DocKind::Module => {},
            DocKind::ExternCrate => {},
            DocKind::ExternType => {},
            DocKind::Macro => {},
            DocKind::ProcMacro => {},
            DocKind::Primitive => {},
        }
    }
}

impl DocItem {
    /// Add what the item refers to, and leave only what belongs to other crates.
    pub fn collect_crate_ids(&self, paths: &HashMap<u32, DocSummary>, out: &mut CrateIdSet)
        ensures
            forall|r: CrateRef| #[trigger]
                final(out)@.contains(r) <==> (old(out)@.contains(r) && r.0 != 0) || self@.refers_to(
                    places_of(paths@),
                    r,
                ),
    {
        self.inner.collect_crate_ids(paths, out);
        out.retain_external();
    }
}

/// The ids of a list that are present.
pub open spec fn present(fields: Seq<Option<u32>>, n: nat) -> Seq<u32>
    decreases n,
{
    if n == 0 {
        Seq::empty()
    } else {
        let before = present(fields, (n - 1) as nat);
        match fields[n - 1] {
            Some(id) => before.push(id),
            None => before,
        }
    }
}

/// The fields that are documented.
pub open spec fn field_ids(fields: FieldsView) -> Seq<u32> {
    match fields {
        FieldsView::Unit => Seq::empty(),
        FieldsView::Tuple(fields) => present(fields, fields.len()),
        FieldsView::Named(fields) => fields,
    }
}

/// The items that are documented as parts of an item.
pub open spec fn children(item: ItemView) -> Seq<u32> {
    match item.inner {
        KindView::Struct { fields, .. } => field_ids(fields),
        KindView::Variant(fields) => field_ids(fields),
        KindView::Impl { items, .. } => items,
        KindView::Trait { items, .. } => items,
        _ => Seq::empty(),
    }
}

/// How the item `id` is named as the parent of its parts: by its full path, by
/// its name, or, for an impl, by its type and trait.
pub open spec fn parent_path(id: u32, item: ItemView, paths: Paths) -> Seq<char> {
    if paths.dom().contains(id) {
        full_path(paths[id])
    } else {
        match item.name {
            Some(name) => name,
            None => match item.inner {
                KindView::Impl { trait_: Some(path), for_, .. } => "<"@ + shown_type(for_) + " as "@
                    + path.path + ">"@,
                KindView::Impl { trait_: None, for_, .. } => shown_type(for_),
                _ => Seq::empty(),
            },
        }
    }
}

/// `names` with `parent` for each of `ids`.
pub open spec fn adopt(
    names: Map<u32, Seq<char>>,
    ids: Seq<u32>,
    parent: Seq<char>,
) -> Map<u32, Seq<char>> {
    names.union_prefer_right(Map::new(|id: u32| ids.contains(id), |id: u32| parent))
}

/// The ids of the items, ascending.
pub open spec fn item_ids(docs: DocsView) -> Seq<u32> {
    ascending_ids(docs.items.dom())
}

/// For each part of one of the first `n` items, the name of its parent, the last
/// one where several items have the part.
pub open spec fn parents(docs: DocsView, n: nat) -> Map<u32, Seq<char>>
    decreases n,
{
    if n == 0 {
        Map::empty()
    } else {
        let id = item_ids(docs)[n - 1];
        let item = docs.items[id];
        adopt(parents(docs, (n - 1) as nat), children(item), parent_path(id, item, docs.paths))
    }
}

/// The name of the item `id` in a report: its full path, its parent's name and
/// its own, what it imports, its type and trait, or its own name.
pub open spec fn item_name(
    id: u32,
    item: ItemView,
    paths: Paths,
    parents: Map<u32, Seq<char>>,
) -> Seq<char> {
    if paths.dom().contains(id) {
        full_path(paths[id])
    } else if parents.dom().contains(id) {
        parents[id] + "::"@ + match item.name {
            Some(name) => name,
            None => "?"@,
        }
    } else {
        match item.inner {
            KindView::Use(target) => match target {
                Some(id) if paths.dom().contains(id) => full_path(paths[id]),
                _ => "<unnamed>"@,
            },
            KindView::Impl { trait_: Some(path), for_, .. } => path.path + " for "@ + shown_type(
                for_,
            ),
            KindView::Impl { trait_: None, for_, .. } => shown_type(for_),
            _ => match item.name {
                Some(name) => name,
                None => "<unnamed>"@,
            },
        }
    }
}

fn field_ids_of(fields: &DocFields) -> (r: Vec<u32>)
    ensures
        r@ == field_ids(fields@),
{
    match fields {
        DocFields::Unit => Vec::new(),
        DocFields::Tuple(fields) => present_ids(fields),
        DocFields::Named(fields) => copy_ids(fields),
    }
}

fn children_of(item: &DocItem) -> (r: Vec<u32>)
    ensures
        r@ == children(item@),
{
    match &item.inner {
        DocKind::Struct { fields, .. } => field_ids_of(fields),
        DocKind::Variant(fields) => field_ids_of(fields),
        DocKind::Impl { items, .. } => copy_ids(items),
        DocKind::Trait { items, .. } => copy_ids(items),
        _ => Vec::new(),
    }
}

fn copy_ids(ids: &Vec<u32>) -> (r: Vec<u32>)
    ensures
        r@ == ids@,
{
    let mut r: Vec<u32> = Vec::new();
    for i in 0..ids.len()
        invariant
            r@ == ids@.take(i as int),
    {
        r.push(ids[i]);
        assert(ids@.take(i + 1) =~= ids@.take(i as int).push(ids@[i as int]));
    }
    assert(ids@.take(ids.len() as int) =~= ids@);
    r
}

fn present_ids(fields: &Vec<Option<u32>>) -> (r: Vec<u32>)
    ensures
        r@ == present(fields@, fields@.len()),
{
    let mut r: Vec<u32> = Vec::new();
    for i in 0..fields.len()
        invariant
            r@ == present(fields@, i as nat),
    {
        if let Some(id) = fields[i] {
            r.push(id);
        }
    }
    r
}

fn parent_path_of(id: u32, item: &DocItem, paths: &HashMap<u32, DocSummary>) -> (r: String)
    ensures
        r@ == parent_path(id, item@, places_of(paths@)),
{
    broadcast use vstd::std_specs::hash::group_hash_axioms;

    if let Some(summary) = paths.get(&id) {
        return join_texts(&summary.path, "::");
    }
    match &item.name {
        Some(name) => name.clone(),
        None => match &item.inner {
            DocKind::Impl { trait_, for_, .. } => {
                let self_name = type_display_name(for_);
                match trait_ {
                    Some(path) => {
                        let mut r = String::new();
                        r.append("<");
                        r.append(self_name.as_str());
                        r.append(" as ");
                        r.append(path.path.as_str());
                        r.append(">");
                        assert(r@ =~= "<"@ + self_name@ + " as "@ + path.path@ + ">"@);
                        r
                    },
                    None => self_name,
                }
            },
            _ => String::new(),
        },
    }
}

fn item_at(docs: &Docs, id: u32) -> (r: &DocItem)
    requires
        docs@.items.dom().contains(id),
    ensures
        r@ == docs@.items[id],
{
    broadcast use vstd::std_specs::btree::group_btree_axioms;
    broadcast use vstd::laws_cmp::group_laws_cmp;

    docs.items.get(&id).unwrap()
}

fn parents_of(docs: &Docs) -> (r: HashMap<u32, String>)
    ensures
        name_texts(r@) == parents(docs@, item_ids(docs@).len()),
{
    broadcast use vstd::std_specs::hash::group_hash_axioms;

    let all = ids_of(&docs.items);
    proof {
        assert(docs@.items.dom() =~= docs.items@.dom());
        lemma_ascending_ids(docs@.items.dom());
    }
    let mut r: HashMap<u32, String> = HashMap::new();
    assert(name_texts(r@) =~= Map::empty());
    for i in 0..all.len()
        invariant
            all@ == item_ids(docs@),
            forall|id: u32| #[trigger] all@.contains(id) <==> docs@.items.dom().contains(id),
            name_texts(r@) == parents(docs@, i as nat),
    {
        broadcast use vstd::std_specs::hash::group_hash_axioms;

        let id = all[i];
        assert(all@.contains(id));
        let item = item_at(docs, id);
        let parent = parent_path_of(id, item, &docs.paths);
        let ids = children_of(item);
        let ghost before = name_texts(r@);
        assert(name_texts(r@) =~= adopt(before, ids@.take(0), parent@));
        for k in 0..ids.len()
            invariant
                name_texts(r@) == adopt(before, ids@.take(k as int), parent@),
        {
            broadcast use vstd::std_specs::hash::group_hash_axioms;

            let ghost had = name_texts(r@);
            let ghost few = ids@.take(k as int);
            let ghost more = ids@.take(k + 1);
            r.insert(ids[k], parent.clone());
            assert(name_texts(r@) =~= had.insert(ids@[k as int], parent@));
            assert(more =~= few.push(ids@[k as int]));
            assert forall|id: u32| #[trigger]
                more.contains(id) == (few.contains(id) || id == ids@[k as int]) by {
                if few.contains(id) {
                    let j = choose|j: int| 0 <= j < few.len() && few[j] == id;
                    assert(more[j] == id);
                }
                assert(more[k as int] == ids@[k as int]);
            }
            assert(name_texts(r@) =~= adopt(before, more, parent@));
        }
        assert(ids@.take(ids.len() as int) =~= ids@);
    }
    r
}

fn item_name_of(
    id: u32,
    item: &DocItem,
    paths: &HashMap<u32, DocSummary>,
    parents: &HashMap<u32, String>,
) -> (r: String)
    ensures
        r@ == item_name(id, item@, places_of(paths@), name_texts(parents@)),
{
    broadcast use vstd::std_specs::hash::group_hash_axioms;

    if let Some(summary) = paths.get(&id) {
        return join_texts(&summary.path, "::");
    }
    if let Some(parent) = parents.get(&id) {
        let mut r = parent.clone();
        r.append("::");
        match &item.name {
            Some(name) => r.append(name.as_str()),
            None => r.append("?"),
        }
        return r;
    }
    match &item.inner {
        DocKind::Use(target) => {
            if let Some(id) = target {
                if let Some(summary) = paths.get(id) {
                    return join_texts(&summary.path, "::");
                }
            }
            "<unnamed>".to_owned()
        },
        DocKind::Impl { trait_, for_, .. } => {
            let self_name = type_display_name(for_);
            match trait_ {
                Some(path) => {
                    let mut r = path.path.clone();
                    r.append(" for ");
                    r.append(self_name.as_str());
                    r
                },
                None => self_name,
            }
        },
        _ => match &item.name {
            Some(name) => name.clone(),
            None => "<unnamed>".to_owned(),
        },
    }
}

/// One public API item that leaks a dependency.
#[derive(Debug)]
pub struct LeakDetail {
    pub item_name: String,
    pub item_kind: String,
    pub leaked_types: NameSet,
}

/// What a leak says.
pub struct LeakView {
    pub item_name: Seq<char>,
    pub item_kind: Seq<char>,
    pub leaked_types: Set<Seq<char>>,
}

impl DeepView for LeakDetail {
    type V = LeakView;

    open spec fn deep_view(&self) -> LeakView {
        LeakView {
            item_name: self.item_name@,
            item_kind: self.item_kind@,
            leaked_types: self.leaked_types@,
        }
    }
}

impl Keyed for LeakDetail {
    open spec fn key(&self) -> Seq<char> {
        self.item_name@
    }

    fn key_text(&self) -> (r: &str) {
        self.item_name.as_str()
    }
}

/// The paths of the types of the dependency `dep` that an item refers to. `deps`
/// has the name of each dependency by its crate id.
pub open spec fn leaked_types(
    item: ItemView,
    paths: Paths,
    deps: Map<u32, Seq<char>>,
    dep: Seq<char>,
) -> Set<Seq<char>> {
    Set::new(
        |path: Seq<char>|
            exists|id: u32|
                deps.dom().contains(id) && deps[id] == dep && #[trigger] item.refers_to(
                    paths,
                    (id, path),
                ),
    )
}

/// The leaks of the dependency `dep` in the first `n` items.
pub open spec fn leaks_in(
    docs: DocsView,
    deps: Map<u32, Seq<char>>,
    dep: Seq<char>,
    n: nat,
) -> Seq<LeakView>
    decreases n,
{
    if n == 0 {
        Seq::empty()
    } else {
        let id = item_ids(docs)[n - 1];
        let item = docs.items[id];
        let before = leaks_in(docs, deps, dep, (n - 1) as nat);
        let types = leaked_types(item, docs.paths, deps, dep);
        if types =~= Set::empty() {
            before
        } else {
            before.push(
                LeakView {
                    item_name: item_name(
                        id,
                        item,
                        docs.paths,
                        parents(docs, item_ids(docs).len()),
                    ),
                    item_kind: kind_label(item.inner),
                    leaked_types: types,
                },
            )
        }
    }
}

/// The leaks of the dependency `dep`, by the name of the item; of items with the
/// same name, the one with the smaller id comes first.
pub open spec fn leaks(docs: DocsView, deps: Map<u32, Seq<char>>, dep: Seq<char>) -> Seq<LeakView> {
    sort_by(leaks_in(docs, deps, dep, item_ids(docs).len()), |leak: LeakView| leak.item_name)
}

/// What a map of leaks by dependency says.
pub open spec fn leak_views(map: Map<Seq<char>, Vec<LeakDetail>>) -> Map<Seq<char>, Seq<LeakView>> {
    map.map_values(|list: Vec<LeakDetail>| list.deep_view())
}

/// The dependencies that a crate leaks, each with its leaks.
pub open spec fn leaked_deps(docs: DocsView, deps: Map<u32, Seq<char>>) -> Map<
    Seq<char>,
    Seq<LeakView>,
> {
    Map::new(
        |dep: Seq<char>| leaks(docs, deps, dep).len() > 0,
        |dep: Seq<char>| leaks(docs, deps, dep),
    )
}

/// The list of `dep` in a map of lists; empty where the map has none.
spec fn row(map: Map<Seq<char>, Vec<LeakDetail>>, dep: Seq<char>) -> Seq<LeakView> {
    if map.dom().contains(dep) {
        map[dep].deep_view()
    } else {
        Seq::empty()
    }
}

/// The types of each dependency that an item refers to.
fn types_by_dep(refs: CrateIdSet, deps: &HashMap<u32, String>) -> (r: NameMap<NameSet>)
    ensures
        forall|dep: Seq<char>, path: Seq<char>|
            has_type(r@, dep, path) <==> ref_to(refs@, name_texts(deps@), dep, path),
        forall|dep: Seq<char>|
            r@.dom().contains(dep) ==> exists|path: Seq<char>| #[trigger] has_type(r@, dep, path),
{
    broadcast use vstd::std_specs::hash::group_hash_axioms;

    let ghost names = name_texts(deps@);
    let ghost all = refs.list();
    let CrateIdSet { items } = refs;
    let mut r: NameMap<NameSet> = NameMap::new();
    for item in iter: items
        invariant
            names == name_texts(deps@),
            all == iter.seq().map_values(|item: (u32, String)| (item.0, item.1@)),
            forall|dep: Seq<char>, path: Seq<char>| #[trigger]
                has_type(r@, dep, path) <==> listed_ref(all.take(iter.index()), names, dep, path),
            forall|dep: Seq<char>|
                r@.dom().contains(dep) ==> exists|path: Seq<char>| #[trigger]
                    has_type(r@, dep, path),
    {
        broadcast use vstd::std_specs::hash::group_hash_axioms;

        let (crate_id, path) = item;
        let ghost had = r@;
        let ghost here = (crate_id, path@);
        let ghost few = all.take(iter.index());
        assert(all.take(iter.index() + 1) =~= few.push(here));
        if let Some(dep_name) = deps.get(&crate_id) {
            let mut types = match r.remove(dep_name.as_str()) {
                Some(types) => types,
                None => NameSet::new(),
            };
            types.insert(path);
            r.insert(dep_name.clone(), types);
            assert(names[crate_id] == dep_name@);
            assert(has_type(r@, dep_name@, here.1));
        }
        assert(names.dom().contains(crate_id) == deps@.dom().contains(crate_id));
        assert forall|dep: Seq<char>, path: Seq<char>| #[trigger]
            has_type(r@, dep, path) <==> listed_ref(few.push(here), names, dep, path) by {
            lemma_listed_push(few, here, names, dep, path);
            assert(has_type(had, dep, path) <==> listed_ref(few, names, dep, path));
        }
        assert forall|dep: Seq<char>| r@.dom().contains(dep) implies exists|path: Seq<char>|
            #[trigger] has_type(r@, dep, path) by {
            if !(names.dom().contains(crate_id) && names[crate_id] == dep) {
                assert(had.dom().contains(dep));
                let path = choose|path: Seq<char>| #[trigger] has_type(had, dep, path);
                assert(has_type(r@, dep, path));
            }
        }
    }
    assert(all.take(all.len() as int) =~= all);
    assert forall|dep: Seq<char>, path: Seq<char>|
        has_type(r@, dep, path) <==> ref_to(refs@, names, dep, path) by {
        lemma_listed_set(all, names, dep, path);
    }
    r
}

proof fn lemma_listed_push(
    refs: Seq<CrateRef>,
    r: CrateRef,
    names: Map<u32, Seq<char>>,
    dep: Seq<char>,
    path: Seq<char>,
)
    ensures
        listed_ref(refs.push(r), names, dep, path) <==> listed_ref(refs, names, dep, path) || (
        names.dom().contains(r.0) && names[r.0] == dep && r.1 == path),
{
    let more = refs.push(r);
    if listed_ref(refs, names, dep, path) {
        let k = choose|k: int|
            0 <= k < refs.len() && names.dom().contains((#[trigger] refs[k]).0) && names[refs[k].0]
                == dep && refs[k].1 == path;
        assert(more[k] == refs[k]);
    }
    if listed_ref(more, names, dep, path) {
        let k = choose|k: int|
            0 <= k < more.len() && names.dom().contains((#[trigger] more[k]).0) && names[more[k].0]
                == dep && more[k].1 == path;
        if k < refs.len() {
            assert(more[k] == refs[k]);
        }
    }
    assert(more[refs.len() as int] == r);
}

proof fn lemma_listed_set(
    refs: Seq<CrateRef>,
    names: Map<u32, Seq<char>>,
    dep: Seq<char>,
    path: Seq<char>,
)
    ensures
        listed_ref(refs, names, dep, path) <==> ref_to(refs.to_set(), names, dep, path),
{
    if listed_ref(refs, names, dep, path) {
        let k = choose|k: int|
            0 <= k < refs.len() && names.dom().contains((#[trigger] refs[k]).0) && names[refs[k].0]
                == dep && refs[k].1 == path;
        assert(refs.to_set().contains((refs[k].0, path)));
    }
    if ref_to(refs.to_set(), names, dep, path) {
        let id = choose|id: u32|
            names.dom().contains(id) && names[id] == dep && #[trigger] refs.to_set().contains(
                (id, path),
            );
        assert(refs.contains((id, path)));
    }
}

/// The map gives `dep` a set with `path` in it.
spec fn has_type(map: Map<Seq<char>, NameSet>, dep: Seq<char>, path: Seq<char>) -> bool {
    map.dom().contains(dep) && map[dep]@.contains(path)
}

/// Some reference of a list is to `path` of the dependency `dep`.
spec fn listed_ref(
    refs: Seq<CrateRef>,
    names: Map<u32, Seq<char>>,
    dep: Seq<char>,
    path: Seq<char>,
) -> bool {
    exists|k: int|
        0 <= k < refs.len() && names.dom().contains((#[trigger] refs[k]).0) && names[refs[k].0]
            == dep && refs[k].1 == path
}

/// Some reference of a set is to `path` of the dependency `dep`.
spec fn ref_to(
    refs: Set<CrateRef>,
    names: Map<u32, Seq<char>>,
    dep: Seq<char>,
    path: Seq<char>,
) -> bool {
    exists|id: u32|
        names.dom().contains(id) && names[id] == dep && #[trigger] refs.contains((id, path))
}

/// Each list of a map has an entry.
spec fn full(map: Map<Seq<char>, Vec<LeakDetail>>) -> bool {
    forall|dep: Seq<char>| #[trigger] map.dom().contains(dep) ==> map[dep]@.len() > 0
}

/// The list of `dep` after an item's types were added to it.
spec fn row_with(
    before: Seq<LeakView>,
    by_dep: Map<Seq<char>, NameSet>,
    name: Seq<char>,
    kind: Seq<char>,
    dep: Seq<char>,
) -> Seq<LeakView> {
    if by_dep.dom().contains(dep) {
        before.push(
            LeakView { item_name: name, item_kind: kind, leaked_types: by_dep[dep]@ },
        )
    } else {
        before
    }
}

fn add_leaks(
    result: &mut NameMap<Vec<LeakDetail>>,
    by_dep: NameMap<NameSet>,
    name: &str,
    kind: &str,
)
    requires
        full(old(result)@),
    ensures
        full(final(result)@),
        forall|dep: Seq<char>| #[trigger]
            row(final(result)@, dep) == row_with(
                row(old(result)@, dep),
                by_dep@,
                name@,
                kind@,
                dep,
            ),
{
    let ghost before = result@;
    let ghost all = by_dep@;
    let mut rest = by_dep;
    while !rest.is_empty()
        invariant
            full(result@),
            forall|dep: Seq<char>| #[trigger]
                rest@.dom().contains(dep) ==> all.dom().contains(dep) && rest@[dep] == all[dep],
            forall|dep: Seq<char>| #[trigger]
                row(result@, dep) == if rest@.dom().contains(dep) {
                    row(before, dep)
                } else {
                    row_with(row(before, dep), all, name@, kind@, dep)
                },
        decreases rest@.dom().len(),
    {
        let ghost had = result@;
        let count = rest.len();
        let dep_name = rest.entry(0).0.to_owned();
        let ghost dep0 = dep_name@;
        assert(row(had, dep0) == row(before, dep0));
        match rest.remove(dep_name.as_str()) {
            Some(types) => {
                let mut list: Vec<LeakDetail> = match result.remove(dep_name.as_str()) {
                    Some(list) => list,
                    None => Vec::new(),
                };
                let ghost views = list.deep_view();
                assert(views =~= row(before, dep0));
                let detail = LeakDetail {
                    item_name: name.to_owned(),
                    item_kind: kind.to_owned(),
                    leaked_types: types,
                };
                list.push(detail);
                assert(list.deep_view() =~= views.push(detail.deep_view()));
                result.insert(dep_name, list);
            },
            None => {},
        }
        assert forall|dep: Seq<char>| #[trigger] row(result@, dep) == if rest@.dom().contains(dep) {
            row(before, dep)
        } else {
            row_with(row(before, dep), all, name@, kind@, dep)
        } by {
            if dep != dep0 {
                assert(row(result@, dep) == row(had, dep));
            }
        }
    }
}

fn sort_leaks(found: NameMap<Vec<LeakDetail>>) -> (r: NameMap<Vec<LeakDetail>>)
    ensures
        r@.dom() == found@.dom(),
        forall|dep: Seq<char>| #[trigger]
            r@.dom().contains(dep) ==> r@[dep].deep_view() == sort_by(
                found@[dep].deep_view(),
                |leak: LeakView| leak.item_name,
            ),
{
    let ghost all = found@;
    let mut rest = found;
    let mut r: NameMap<Vec<LeakDetail>> = NameMap::new();
    while !rest.is_empty()
        invariant
            forall|dep: Seq<char>| #[trigger]
                rest@.dom().contains(dep) ==> all.dom().contains(dep) && rest@[dep] == all[dep],
            forall|dep: Seq<char>| #[trigger]
                r@.dom().contains(dep) <==> all.dom().contains(dep) && !rest@.dom().contains(dep),
            forall|dep: Seq<char>| #[trigger]
                r@.dom().contains(dep) ==> r@[dep].deep_view() == sort_by(
                    all[dep].deep_view(),
                    |leak: LeakView| leak.item_name,
                ),
        decreases rest@.dom().len(),
    {
        let count = rest.len();
        let dep_name = rest.entry(0).0.to_owned();
        let ghost dep0 = dep_name@;
        match rest.remove(dep_name.as_str()) {
            Some(list) => {
                let ghost given = list@;
                let sorted = stable_sort(list);
                proof {
                    let view = |d: LeakDetail| d.deep_view();
                    lemma_sort_by_map(
                        given,
                        |d: LeakDetail| d.key(),
                        view,
                        |leak: LeakView| leak.item_name,
                    );
                    assert(given.map_values(view) =~= all[dep0].deep_view());
                    assert(sorted@.map_values(view) =~= sorted.deep_view());
                }
                r.insert(dep_name, sorted);
            },
            None => {},
        }
    }
    assert(r@.dom() =~= all.dom());
    r
}

/// Find the dependencies that a crate exposes in its public API, and the items
/// that expose them. `dep_crate_ids` has the name of each dependency by its
/// crate id.
pub fn find_leaked_deps(docs: &Docs, dep_crate_ids: &HashMap<u32, String>) -> (result: NameMap<
    Vec<LeakDetail>,
>)
    ensures
        leak_views(result@) == leaked_deps(docs@, name_texts(dep_crate_ids@)),
        forall|item: u32, path: PathView|
            docs@.items.dom().contains(item) && #[trigger] shows_path(
                docs@.items[item].inner,
                path,
            ) && docs@.paths.dom().contains(path.id) && docs@.paths[path.id].crate_id != 0
                && dep_crate_ids@.dom().contains(docs@.paths[path.id].crate_id)
                ==> result@.dom().contains(dep_crate_ids@[docs@.paths[path.id].crate_id]@),
{
    let parents = parents_of(docs);
    let all = ids_of(&docs.items);
    proof {
        assert(docs@.items.dom() =~= docs.items@.dom());
        lemma_ascending_ids(docs@.items.dom());
    }
    let ghost deps = name_texts(dep_crate_ids@);
    let mut found: NameMap<Vec<LeakDetail>> = NameMap::new();
    for i in 0..all.len()
        invariant
            deps == name_texts(dep_crate_ids@),
            all@ == item_ids(docs@),
            forall|id: u32| #[trigger] all@.contains(id) <==> docs@.items.dom().contains(id),
            name_texts(parents@) == crate::leak::parents(docs@, item_ids(docs@).len()),
            full(found@),
            forall|dep: Seq<char>| #[trigger]
                row(found@, dep) == leaks_in(docs@, deps, dep, i as nat),
    {
        let id = all[i];
        assert(all@.contains(id));
        let item = item_at(docs, id);
        let ghost had = found@;
        let mut refs = CrateIdSet::new();
        item.collect_crate_ids(&docs.paths, &mut refs);
        let ghost ref_set = refs@;
        let name = item_name_of(id, item, &docs.paths, &parents);
        let kind = item_kind_label(item);
        let by_dep = types_by_dep(refs, dep_crate_ids);
        let ghost types = by_dep@;
        add_leaks(&mut found, by_dep, name.as_str(), kind);
        assert forall|dep: Seq<char>| #[trigger] row(found@, dep) == leaks_in(
            docs@,
            deps,
            dep,
            (i + 1) as nat,
        ) by {
            assert(row(had, dep) == leaks_in(docs@, deps, dep, i as nat));
            let leaked = leaked_types(item@, docs@.paths, deps, dep);
            assert forall|path: Seq<char>| #[trigger] leaked.contains(path) <==> has_type(
                types,
                dep,
                path,
            ) by {
                assert(has_type(types, dep, path) <==> ref_to(ref_set, deps, dep, path));
                if leaked.contains(path) {
                    let id = choose|id: u32|
                        deps.dom().contains(id) && deps[id] == dep && #[trigger] item@.refers_to(
                            docs@.paths,
                            (id, path),
                        );
                    assert(ref_set.contains((id, path)));
                }
                if ref_to(ref_set, deps, dep, path) {
                    let id = choose|id: u32|
                        deps.dom().contains(id) && deps[id] == dep && #[trigger] ref_set.contains(
                            (id, path),
                        );
                    assert(item@.refers_to(docs@.paths, (id, path)));
                }
            }
            if types.dom().contains(dep) {
                let path = choose|path: Seq<char>| #[trigger] has_type(types, dep, path);
                assert(leaked.contains(path));
                assert(types[dep]@ =~= leaked);
            } else {
                assert(leaked =~= Set::empty());
            }
        }
    }
    let ghost before = found@;
    let result = sort_leaks(found);
    proof {
        let want = leaked_deps(docs@, deps);
        assert forall|dep: Seq<char>| true implies #[trigger] want.dom().contains(dep)
            == before.dom().contains(dep) && (before.dom().contains(dep) ==> leak_views(
            result@,
        )[dep] == want[dep]) by {
            let list = leaks_in(docs@, deps, dep, item_ids(docs@).len());
            assert(row(before, dep) == list);
            lemma_sort_by(list, |leak: LeakView| leak.item_name);
        }
        assert(leak_views(result@).dom() =~= want.dom());
        assert(leak_views(result@) =~= want);
        assert forall|item: u32, path: PathView|
            docs@.items.dom().contains(item) && #[trigger] shows_path(
                docs@.items[item].inner,
                path,
            ) && docs@.paths.dom().contains(path.id) && docs@.paths[path.id].crate_id != 0
                && dep_crate_ids@.dom().contains(
                docs@.paths[path.id].crate_id,
            ) implies result@.dom().contains(
            dep_crate_ids@[docs@.paths[path.id].crate_id]@,
        ) by {
            law_shown_path_is_leaked(docs@, deps, item, path);
        }
    }
    result
}

/// The item `id` refers to `path`, a type of the dependency `dep`.
pub open spec fn exposes(
    docs: DocsView,
    deps: Map<u32, Seq<char>>,
    dep: Seq<char>,
    id: u32,
    path: Seq<char>,
) -> bool {
    docs.items.dom().contains(id) && leaked_types(docs.items[id], docs.paths, deps, dep).contains(
        path,
    )
}

/// One of the first `n` items refers to a type of the dependency `dep`.
spec fn exposed_in(docs: DocsView, deps: Map<u32, Seq<char>>, dep: Seq<char>, n: nat) -> bool {
    exists|i: int, path: Seq<char>|
        0 <= i < n && #[trigger] exposes(docs, deps, dep, item_ids(docs)[i], path)
}

proof fn lemma_leaks_in(docs: DocsView, deps: Map<u32, Seq<char>>, dep: Seq<char>, n: nat)
    requires
        n <= item_ids(docs).len(),
    ensures
        leaks_in(docs, deps, dep, n).len() > 0 <==> exposed_in(docs, deps, dep, n),
    decreases n,
{
    if n > 0 {
        let m = (n - 1) as nat;
        lemma_leaks_in(docs, deps, dep, m);
        lemma_ascending_ids(docs.items.dom());
        let id = item_ids(docs)[n - 1];
        assert(item_ids(docs).contains(id));
        let types = leaked_types(docs.items[id], docs.paths, deps, dep);
        if exposed_in(docs, deps, dep, m) {
            let (i, path) = choose|i: int, path: Seq<char>|
                0 <= i < m && #[trigger] exposes(docs, deps, dep, item_ids(docs)[i], path);
            assert(0 <= i < n && exposes(docs, deps, dep, item_ids(docs)[i], path));
        }
        if types =~= Set::empty() {
            if exposed_in(docs, deps, dep, n) {
                let (i, path) = choose|i: int, path: Seq<char>|
                    0 <= i < n && #[trigger] exposes(docs, deps, dep, item_ids(docs)[i], path);
                assert(i != n - 1);
            }
        } else {
            let path = choose|path: Seq<char>| types.contains(path);
            assert(exposes(docs, deps, dep, item_ids(docs)[n - 1], path));
        }
    }
}

/// A dependency is leaked if and only if some item of the public API refers to
/// one of its types.
pub proof fn law_leaked_iff_exposed(docs: DocsView, deps: Map<u32, Seq<char>>, dep: Seq<char>)
    ensures
        leaked_deps(docs, deps).dom().contains(dep) <==> exists|id: u32, path: Seq<char>|
            #[trigger] exposes(docs, deps, dep, id, path),
{
    let ids = item_ids(docs);
    lemma_leaks_in(docs, deps, dep, ids.len());
    lemma_sort_by(leaks_in(docs, deps, dep, ids.len()), |leak: LeakView| leak.item_name);
    lemma_ascending_ids(docs.items.dom());
    if exists|id: u32, path: Seq<char>| #[trigger] exposes(docs, deps, dep, id, path) {
        let (id, path) = choose|id: u32, path: Seq<char>| #[trigger]
            exposes(docs, deps, dep, id, path);
        assert(ids.contains(id));
        let i = choose|i: int| 0 <= i < ids.len() && ids[i] == id;
        assert(exposes(docs, deps, dep, item_ids(docs)[i], path));
    }
}

/// Whatever is leaked is one of the given dependencies, under a crate id other
/// than that of the documented crate itself.
pub proof fn law_leaks_come_from_given_deps(
    docs: DocsView,
    deps: Map<u32, Seq<char>>,
    dep: Seq<char>,
)
    requires
        leaked_deps(docs, deps).dom().contains(dep),
    ensures
        exists|id: u32| #[trigger] deps.dom().contains(id) && id != 0 && deps[id] == dep,
{
    law_leaked_iff_exposed(docs, deps, dep);
    let (item, path) = choose|id: u32, path: Seq<char>| #[trigger]
        exposes(docs, deps, dep, id, path);
    let id = choose|id: u32|
        deps.dom().contains(id) && deps[id] == dep && #[trigger] docs.items[item].refers_to(
            docs.paths,
            (id, path),
        );
    assert(deps.dom().contains(id));
}

/// The leaks of a dependency are listed by the name of the item.
pub proof fn law_leaks_are_sorted(docs: DocsView, deps: Map<u32, Seq<char>>, dep: Seq<char>)
    ensures
        sorted_by(leaks(docs, deps, dep), |leak: LeakView| leak.item_name),
{
    lemma_sort_by(
        leaks_in(docs, deps, dep, item_ids(docs).len()),
        |leak: LeakView| leak.item_name,
    );
}

} // verus!
