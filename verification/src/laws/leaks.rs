//! Laws of leaks: which dependencies the public API of a crate exposes.
use vstd::prelude::*;

use crate::display::{kind_label, shown_type};
use crate::ids::{ascending_ids, lemma_ascending_ids};
use crate::leak::{
    args_mention, bounds_mention, children, constraints_mention, exposes, is_at, item_ids,
    item_name, law_leaked_iff_exposed, leaked_deps, leaked_types, leaks, leaks_in, parent_path,
    parents, paths_mention, present, types_mention, CrateRef, LeakView, Paths,
};
use crate::order::lemma_sort_by;
use crate::rustdoc::{
    ArgView, ArgsView, BoundView, ConstraintView, DocsView, FieldsView, GenericsView, ItemView,
    KindView, ParamView, PathView, PredicateView, SignatureView, TypeView,
};
use crate::rustdoc_json::by_id;
use crate::text::join;

verus! {

/// An item without a name.
pub open spec fn item_of(inner: KindView) -> ItemView {
    ItemView { name: None, inner }
}

/// A field of the type refers to `r`.
pub open spec fn type_refers(ty: TypeView, paths: Paths, r: CrateRef) -> bool {
    item_of(KindView::StructField(ty)).refers_to(paths, r)
}

/// A field whose type is the path refers to `r`.
pub open spec fn path_refers(path: PathView, paths: Paths, r: CrateRef) -> bool {
    type_refers(TypeView::ResolvedPath(path), paths, r)
}

/// A dependency is leaked if and only if its name is given for the crate of an
/// item that some item of the public API refers to.
pub proof fn law_leaked_iff_referred_to(docs: DocsView, deps: Map<u32, Seq<char>>, dep: Seq<char>)
    ensures
        leaked_deps(docs, deps).dom().contains(dep) <==> exists|item: u32, r: CrateRef|
            docs.items.dom().contains(item) && #[trigger] docs.items[item].refers_to(docs.paths, r)
                && deps.dom().contains(r.0) && deps[r.0] == dep,
{
    law_leaked_iff_exposed(docs, deps, dep);
    if leaked_deps(docs, deps).dom().contains(dep) {
        let (item, path) = choose|id: u32, path: Seq<char>| #[trigger]
            exposes(docs, deps, dep, id, path);
        let id = choose|id: u32|
            deps.dom().contains(id) && deps[id] == dep && #[trigger] docs.items[item].refers_to(
                docs.paths,
                (id, path),
            );
        let r = (id, path);
        assert(docs.items.dom().contains(item) && docs.items[item].refers_to(docs.paths, r));
    }
    if exists|item: u32, r: CrateRef|
        docs.items.dom().contains(item) && #[trigger] docs.items[item].refers_to(docs.paths, r)
            && deps.dom().contains(r.0) && deps[r.0] == dep {
        let (item, r) = choose|item: u32, r: CrateRef|
            docs.items.dom().contains(item) && #[trigger] docs.items[item].refers_to(docs.paths, r)
                && deps.dom().contains(r.0) && deps[r.0] == dep;
        assert(docs.items[item].refers_to(docs.paths, (r.0, r.1)));
        assert(leaked_types(docs.items[item], docs.paths, deps, dep).contains(r.1));
        assert(exposes(docs, deps, dep, item, r.1));
    }
}

/// The name of an item plays no part in what it refers to.
pub proof fn law_name_does_not_matter(item: ItemView, paths: Paths, r: CrateRef)
    ensures
        item.refers_to(paths, r) == item_of(item.inner).refers_to(paths, r),
{
}

/// Nothing refers to an item of the documented crate itself, which has id zero.
pub proof fn law_own_items_are_not_referred_to(item: ItemView, paths: Paths, path: Seq<char>)
    ensures
        !item.refers_to(paths, (0, path)),
{
}

/// A path refers to the item that it names, by the item's crate and the segments
/// of its full path, where this is known and in another crate; and to what its
/// generic arguments refer to.
pub proof fn law_path_refers_to_its_item(path: PathView, paths: Paths, r: CrateRef)
    ensures
        path.args is None ==> (path_refers(path, paths, r) <==> paths.dom().contains(path.id)
            && paths[path.id].crate_id != 0 && r == (
            paths[path.id].crate_id,
            join(paths[path.id].path, "::"@),
        )),
        path_refers(path, paths, r) <==> path_refers(
            PathView { args: None, ..path },
            paths,
            r,
        ) || (path.args matches Some(args) && args_refer(*args, paths, r)),
{
    let bare = PathView { args: None, ..path };
    lemma_path(path, paths, r);
    lemma_path(bare, paths, r);
    assert(bare.mentions(paths, r) == is_at(paths, bare.id, r));
    if let Some(args) = path.args {
        lemma_args(*args, paths, r);
        assert(path.mentions(paths, r) == (is_at(paths, path.id, r) || args.mentions(paths, r)));
    }
}

/// One of the generic arguments refers to `r`: a type, the type that an associated
/// item equals, a trait that bounds it, or an input or the output of a function
/// trait.
pub open spec fn args_refer(args: ArgsView, paths: Paths, r: CrateRef) -> bool {
    match args {
        ArgsView::AngleBracketed { args, constraints } => {
            ||| exists|i: int|
                0 <= i < args.len() && (#[trigger] args[i] matches ArgView::Type(ty)
                    && type_refers(ty, paths, r))
            ||| exists|i: int|
                0 <= i < constraints.len() && (#[trigger] constraints[i] matches
                    ConstraintView::Equality(Some(ty)) && type_refers(ty, paths, r))
            ||| exists|i: int|
                0 <= i < constraints.len() && (#[trigger] constraints[i] matches
                    ConstraintView::Bounds(bounds) && bounds_refer(bounds, paths, r))
        },
        ArgsView::Parenthesized { inputs, output } => {
            ||| types_refer(inputs, paths, r)
            ||| output matches Some(ty) && type_refers(ty, paths, r)
        },
        ArgsView::ReturnTypeNotation => false,
    }
}

/// One of the types refers to `r`.
pub open spec fn types_refer(types: Seq<TypeView>, paths: Paths, r: CrateRef) -> bool {
    exists|i: int| 0 <= i < types.len() && type_refers(#[trigger] types[i], paths, r)
}

/// One of the bounds is a trait whose path refers to `r`.
pub open spec fn bounds_refer(bounds: Seq<BoundView>, paths: Paths, r: CrateRef) -> bool {
    exists|i: int|
        0 <= i < bounds.len() && (#[trigger] bounds[i] matches BoundView::TraitBound(path)
            && path_refers(path, paths, r))
}

/// A type that is built from one other type refers to what that refers to.
pub proof fn law_wrapped_type_refers_alike(ty: TypeView, paths: Paths, r: CrateRef)
    ensures
        type_refers(TypeView::Slice(Box::new(ty)), paths, r) == type_refers(ty, paths, r),
        type_refers(TypeView::Array(Box::new(ty)), paths, r) == type_refers(ty, paths, r),
        type_refers(TypeView::Pat(Box::new(ty)), paths, r) == type_refers(ty, paths, r),
        type_refers(TypeView::RawPointer(Box::new(ty)), paths, r) == type_refers(ty, paths, r),
        type_refers(TypeView::BorrowedRef(Box::new(ty)), paths, r) == type_refers(ty, paths, r),
{
    assert(TypeView::Slice(Box::new(ty)).mentions(paths, r) == ty.mentions(paths, r));
    assert(TypeView::Array(Box::new(ty)).mentions(paths, r) == ty.mentions(paths, r));
    assert(TypeView::Pat(Box::new(ty)).mentions(paths, r) == ty.mentions(paths, r));
    assert(TypeView::RawPointer(Box::new(ty)).mentions(paths, r) == ty.mentions(paths, r));
    assert(TypeView::BorrowedRef(Box::new(ty)).mentions(paths, r) == ty.mentions(paths, r));
}

/// A tuple refers to what one of its types refers to, a trait object to what one
/// of its traits does, an `impl Trait` to what one of its bounds does.
pub proof fn law_listed_types_refer(
    types: Seq<TypeView>,
    traits: Seq<PathView>,
    bounds: Seq<BoundView>,
    paths: Paths,
    r: CrateRef,
)
    ensures
        type_refers(TypeView::Tuple(types), paths, r) <==> types_refer(types, paths, r),
        type_refers(TypeView::DynTrait(traits), paths, r) <==> exists|i: int|
            0 <= i < traits.len() && path_refers(#[trigger] traits[i], paths, r),
        type_refers(TypeView::ImplTrait(bounds), paths, r) <==> bounds_refer(bounds, paths, r),
{
    lemma_types(types, paths, r);
    lemma_bounds(bounds, paths, r);
    assert(TypeView::Tuple(types).mentions(paths, r) == types_mention(types, paths, r));
    assert(TypeView::ImplTrait(bounds).mentions(paths, r) == bounds_mention(bounds, paths, r));
    assert(TypeView::DynTrait(traits).mentions(paths, r) == paths_mention(traits, paths, r));
    assert forall|i: int| 0 <= i < traits.len() implies path_refers(#[trigger] traits[i], paths, r)
        == (r.0 != 0 && traits[i].mentions(paths, r)) by {
        lemma_path(traits[i], paths, r);
    }
    assert(paths_mention(traits, paths, r) == exists|i: int|
        0 <= i < traits.len() && (#[trigger] traits[i]).mentions(paths, r));
}

/// A function pointer refers to what one of its inputs or its output refers to.
pub proof fn law_function_pointer_refers(sig: SignatureView, paths: Paths, r: CrateRef)
    ensures
        type_refers(TypeView::FunctionPointer(Box::new(sig)), paths, r) <==> signature_refers(
            sig,
            paths,
            r,
        ),
{
    lemma_signature(sig, paths, r);
    assert(TypeView::FunctionPointer(Box::new(sig)).mentions(paths, r) == sig.mentions(paths, r));
}

/// An input or the output of the signature refers to `r`.
pub open spec fn signature_refers(sig: SignatureView, paths: Paths, r: CrateRef) -> bool {
    ||| types_refer(sig.inputs, paths, r)
    ||| sig.output matches Some(ty) && type_refers(ty, paths, r)
}

/// A qualified path refers to what its type, its trait or its generic arguments
/// refer to.
pub proof fn law_qualified_path_refers(
    self_type: TypeView,
    trait_: Option<PathView>,
    args: Option<Box<ArgsView>>,
    paths: Paths,
    r: CrateRef,
)
    ensures
        type_refers(
            TypeView::QualifiedPath { self_type: Box::new(self_type), trait_, args },
            paths,
            r,
        ) <==> type_refers(self_type, paths, r) || (trait_ matches Some(path) && path_refers(
            path,
            paths,
            r,
        )) || (args matches Some(args) && args_refer(*args, paths, r)),
{
    let ty = TypeView::QualifiedPath { self_type: Box::new(self_type), trait_, args };
    let by_trait = match trait_ {
        Some(path) => path.mentions(paths, r),
        None => false,
    };
    let by_args = match args {
        Some(args) => args.mentions(paths, r),
        None => false,
    };
    if let Some(path) = trait_ {
        lemma_path(path, paths, r);
    }
    if let Some(list) = args {
        lemma_args(*list, paths, r);
    }
    assert(ty.mentions(paths, r) == (self_type.mentions(paths, r) || by_trait || by_args));
}

/// A type parameter, a primitive type and an inferred type refer to nothing.
pub proof fn law_plain_types_refer_to_nothing(name: Seq<char>, paths: Paths, r: CrateRef)
    ensures
        !type_refers(TypeView::Generic(name), paths, r),
        !type_refers(TypeView::Primitive(name), paths, r),
        !type_refers(TypeView::Infer, paths, r),
{
}

/// One of the generic parameters has a bound or a default that refers to `r`, or
/// a predicate of the `where` clause has a type or a bound that does.
pub open spec fn generics_refer(generics: GenericsView, paths: Paths, r: CrateRef) -> bool {
    ||| exists|i: int|
        0 <= i < generics.params.len() && (#[trigger] generics.params[i] matches ParamView::Type {
            bounds,
            default,
        } && (bounds_refer(bounds, paths, r) || (default matches Some(ty) && type_refers(
            ty,
            paths,
            r,
        ))))
    ||| exists|i: int|
        0 <= i < generics.where_predicates.len() && (match #[trigger] generics.where_predicates[i] {
            PredicateView::BoundPredicate { type_, bounds } => type_refers(type_, paths, r)
                || bounds_refer(bounds, paths, r),
            PredicateView::EqPredicate { lhs, rhs } => type_refers(lhs, paths, r) || (rhs matches
                Some(ty) && type_refers(ty, paths, r)),
            PredicateView::LifetimePredicate => false,
        })
}

/// A struct, an enum and a union refer to what their generics refer to. Their
/// fields and variants are items of their own.
pub proof fn law_generics_refer(generics: GenericsView, paths: Paths, r: CrateRef)
    ensures
        forall|fields: FieldsView| #[trigger]
            item_of(KindView::Struct { fields, generics }).refers_to(paths, r) <==> generics_refer(
                generics,
                paths,
                r,
            ),
        item_of(KindView::Enum(generics)).refers_to(paths, r) <==> generics_refer(
            generics,
            paths,
            r,
        ),
        item_of(KindView::Union(generics)).refers_to(paths, r) <==> generics_refer(
            generics,
            paths,
            r,
        ),
{
    lemma_generics(generics, paths, r);
}

/// A function refers to what one of its inputs, its output or its generics refer
/// to.
pub proof fn law_function_refers(
    sig: SignatureView,
    generics: GenericsView,
    paths: Paths,
    r: CrateRef,
)
    ensures
        item_of(KindView::Function { sig, generics }).refers_to(paths, r) <==> signature_refers(
            sig,
            paths,
            r,
        ) || generics_refer(generics, paths, r),
{
    lemma_signature(sig, paths, r);
    lemma_generics(generics, paths, r);
}

/// An item with a type refers to what the type refers to.
pub proof fn law_typed_items_refer(
    ty: TypeView,
    generics: GenericsView,
    bounds: Seq<BoundView>,
    paths: Paths,
    r: CrateRef,
)
    ensures
        item_of(KindView::Constant(ty)).refers_to(paths, r) <==> type_refers(ty, paths, r),
        item_of(KindView::Static(ty)).refers_to(paths, r) <==> type_refers(ty, paths, r),
        item_of(KindView::AssocConst(ty)).refers_to(paths, r) <==> type_refers(ty, paths, r),
        item_of(KindView::TypeAlias { type_: ty, generics }).refers_to(paths, r) <==> type_refers(
            ty,
            paths,
            r,
        ) || generics_refer(generics, paths, r),
        item_of(KindView::AssocType { generics, bounds, type_: Some(ty) }).refers_to(paths, r)
            <==> generics_refer(generics, paths, r) || bounds_refer(bounds, paths, r)
            || type_refers(ty, paths, r),
        item_of(KindView::AssocType { generics, bounds, type_: None }).refers_to(paths, r)
            <==> generics_refer(generics, paths, r) || bounds_refer(bounds, paths, r),
{
    lemma_generics(generics, paths, r);
    lemma_bounds(bounds, paths, r);
}

/// A trait and a trait alias refer to what their generics and their bounds refer
/// to. The items of a trait are items of their own.
pub proof fn law_traits_refer(
    generics: GenericsView,
    bounds: Seq<BoundView>,
    items: Seq<u32>,
    paths: Paths,
    r: CrateRef,
)
    ensures
        item_of(KindView::Trait { generics, bounds, items }).refers_to(paths, r)
            <==> generics_refer(generics, paths, r) || bounds_refer(bounds, paths, r),
        item_of(KindView::TraitAlias { generics, params: bounds }).refers_to(paths, r)
            <==> generics_refer(generics, paths, r) || bounds_refer(bounds, paths, r),
{
    lemma_generics(generics, paths, r);
    lemma_bounds(bounds, paths, r);
}

/// An impl refers to what its generics, its type or its trait refer to.
pub proof fn law_impl_refers(
    generics: GenericsView,
    trait_: Option<PathView>,
    for_: TypeView,
    items: Seq<u32>,
    paths: Paths,
    r: CrateRef,
)
    ensures
        item_of(KindView::Impl { generics, trait_, for_, items }).refers_to(paths, r)
            <==> generics_refer(generics, paths, r) || type_refers(for_, paths, r) || (trait_
            matches Some(path) && path_refers(path, paths, r)),
{
    lemma_generics(generics, paths, r);
    if let Some(path) = trait_ {
        lemma_path(path, paths, r);
    }
}

/// An import refers to the item that it imports, where this is known and in
/// another crate.
pub proof fn law_import_refers(target: Option<u32>, paths: Paths, r: CrateRef)
    ensures
        item_of(KindView::Use(target)).refers_to(paths, r) <==> (target matches Some(id)
            && paths.dom().contains(id) && paths[id].crate_id != 0 && r == (
            paths[id].crate_id,
            join(paths[id].path, "::"@),
        )),
{
}

/// A variant, a module, a macro and the other items without a type or generics
/// refer to nothing.
pub proof fn law_bare_items_refer_to_nothing(
    fields: FieldsView,
    paths: Paths,
    r: CrateRef,
)
    ensures
        !item_of(KindView::Variant(fields)).refers_to(paths, r),
        !item_of(KindView::Module).refers_to(paths, r),
        !item_of(KindView::ExternCrate).refers_to(paths, r),
        !item_of(KindView::ExternType).refers_to(paths, r),
        !item_of(KindView::Macro).refers_to(paths, r),
        !item_of(KindView::ProcMacro).refers_to(paths, r),
        !item_of(KindView::Primitive).refers_to(paths, r),
{
}

/// The types of a list, one by one.
proof fn lemma_types(types: Seq<TypeView>, paths: Paths, r: CrateRef)
    ensures
        types_refer(types, paths, r) <==> r.0 != 0 && types_mention(types, paths, r),
{
    if r.0 != 0 && types_mention(types, paths, r) {
        let i = choose|i: int| 0 <= i < types.len() && (#[trigger] types[i]).mentions(paths, r);
        assert(types[i].mentions(paths, r));
        assert(type_refers(types[i], paths, r));
    }
    if types_refer(types, paths, r) {
        let i = choose|i: int| 0 <= i < types.len() && type_refers(#[trigger] types[i], paths, r);
        assert(types[i].mentions(paths, r));
    }
}

/// A path is a type.
proof fn lemma_path(path: PathView, paths: Paths, r: CrateRef)
    ensures
        path_refers(path, paths, r) <==> r.0 != 0 && path.mentions(paths, r),
{
    assert(TypeView::ResolvedPath(path).mentions(paths, r) == path.mentions(paths, r));
}

/// The bounds of a list, one by one.
proof fn lemma_bounds(bounds: Seq<BoundView>, paths: Paths, r: CrateRef)
    ensures
        bounds_refer(bounds, paths, r) <==> r.0 != 0 && bounds_mention(bounds, paths, r),
{
    assert forall|i: int| 0 <= i < bounds.len() implies (r.0 != 0 && (
    #[trigger] bounds[i]).mentions(paths, r) <==> (bounds[i] matches BoundView::TraitBound(path)
        && path_refers(path, paths, r))) by {
        if let BoundView::TraitBound(path) = bounds[i] {
            lemma_path(path, paths, r);
            assert(bounds[i].mentions(paths, r) == path.mentions(paths, r));
        }
    }
    assert(bounds_mention(bounds, paths, r) == exists|i: int|
        0 <= i < bounds.len() && (#[trigger] bounds[i]).mentions(paths, r));
}

/// The generic arguments, one by one.
proof fn lemma_args(args: ArgsView, paths: Paths, r: CrateRef)
    ensures
        args_refer(args, paths, r) <==> r.0 != 0 && args.mentions(paths, r),
{
    match args {
        ArgsView::AngleBracketed { args: list, constraints } => {
            assert(args.mentions(paths, r) == (args_mention(list, paths, r) || constraints_mention(
                constraints,
                paths,
                r,
            )));
            assert(args_mention(list, paths, r) == exists|i: int|
                0 <= i < list.len() && (#[trigger] list[i]).mentions(paths, r));
            assert(constraints_mention(constraints, paths, r) == exists|i: int|
                0 <= i < constraints.len() && (#[trigger] constraints[i]).mentions(paths, r));
            assert forall|i: int| 0 <= i < list.len() implies (r.0 != 0 && (
            #[trigger] list[i]).mentions(paths, r) <==> (list[i] matches ArgView::Type(ty)
                && type_refers(ty, paths, r))) by {
                if let ArgView::Type(ty) = list[i] {
                    assert(list[i].mentions(paths, r) == ty.mentions(paths, r));
                }
            }
            assert forall|i: int| 0 <= i < constraints.len() implies (r.0 != 0 && (
            #[trigger] constraints[i]).mentions(paths, r) <==> ((constraints[i] matches
                ConstraintView::Equality(Some(ty)) && type_refers(ty, paths, r)) || (constraints[i]
                matches ConstraintView::Bounds(bounds) && bounds_refer(bounds, paths, r)))) by {
                match constraints[i] {
                    ConstraintView::Equality(Some(ty)) => {
                        assert(constraints[i].mentions(paths, r) == ty.mentions(paths, r));
                    },
                    ConstraintView::Equality(None) => {},
                    ConstraintView::Bounds(bounds) => {
                        lemma_bounds(bounds, paths, r);
                        assert(constraints[i].mentions(paths, r) == bounds_mention(
                            bounds,
                            paths,
                            r,
                        ));
                    },
                }
            }
        },
        ArgsView::Parenthesized { inputs, output } => {
            lemma_types(inputs, paths, r);
            if let Some(ty) = output {
                assert(args.mentions(paths, r) == (types_mention(inputs, paths, r) || ty.mentions(
                    paths,
                    r,
                )));
            } else {
                assert(args.mentions(paths, r) == types_mention(inputs, paths, r));
            }
        },
        ArgsView::ReturnTypeNotation => {},
    }
}

/// The inputs and the output of a signature.
proof fn lemma_signature(sig: SignatureView, paths: Paths, r: CrateRef)
    ensures
        signature_refers(sig, paths, r) <==> r.0 != 0 && sig.mentions(paths, r),
{
    lemma_types(sig.inputs, paths, r);
    if let Some(ty) = sig.output {
        assert(sig.mentions(paths, r) == (types_mention(sig.inputs, paths, r) || ty.mentions(
            paths,
            r,
        )));
    } else {
        assert(sig.mentions(paths, r) == types_mention(sig.inputs, paths, r));
    }
}

/// The parameters and the predicates of generics, one by one.
proof fn lemma_generics(generics: GenericsView, paths: Paths, r: CrateRef)
    ensures
        generics_refer(generics, paths, r) <==> r.0 != 0 && generics.mentions(paths, r),
{
    let params = generics.params;
    let predicates = generics.where_predicates;
    assert forall|i: int| 0 <= i < params.len() implies (r.0 != 0 && (
    #[trigger] params[i]).mentions(paths, r) <==> (params[i] matches ParamView::Type {
        bounds,
        default,
    } && (bounds_refer(bounds, paths, r) || (default matches Some(ty) && type_refers(
        ty,
        paths,
        r,
    ))))) by {
        if let ParamView::Type { bounds, default } = params[i] {
            lemma_bounds(bounds, paths, r);
        }
    }
    assert forall|i: int| 0 <= i < predicates.len() implies (r.0 != 0 && (
    #[trigger] predicates[i]).mentions(paths, r) <==> match predicates[i] {
        PredicateView::BoundPredicate { type_, bounds } => type_refers(type_, paths, r)
            || bounds_refer(bounds, paths, r),
        PredicateView::EqPredicate { lhs, rhs } => type_refers(lhs, paths, r) || (rhs matches Some(
            ty,
        ) && type_refers(ty, paths, r)),
        PredicateView::LifetimePredicate => false,
    }) by {
        if let PredicateView::BoundPredicate { type_, bounds } = predicates[i] {
            lemma_bounds(bounds, paths, r);
        }
    }
}

/// The path stands in the open at the item: as the type of the item or of an input
/// or the output of a function, as a bound of a type parameter, of the `where`
/// clause or of a trait, or as the type or the trait of an impl.
pub open spec fn shows_path(kind: KindView, path: PathView) -> bool {
    let ty = TypeView::ResolvedPath(path);
    let bound = BoundView::TraitBound(path);
    match kind {
        KindView::Function { sig, generics } => sig.inputs.contains(ty) || sig.output == Some(ty)
            || bounds_path(generics, path),
        KindView::Struct { generics, .. } => bounds_path(generics, path),
        KindView::Enum(generics) => bounds_path(generics, path),
        KindView::Union(generics) => bounds_path(generics, path),
        KindView::StructField(field) => field == ty,
        KindView::Constant(given) => given == ty,
        KindView::Static(given) => given == ty,
        KindView::AssocConst(given) => given == ty,
        KindView::TypeAlias { type_, generics } => type_ == ty || bounds_path(generics, path),
        KindView::Trait { generics, bounds, .. } => bounds.contains(bound) || bounds_path(
            generics,
            path,
        ),
        KindView::TraitAlias { generics, params } => params.contains(bound) || bounds_path(
            generics,
            path,
        ),
        KindView::Impl { generics, trait_, for_, .. } => trait_ == Some(path) || for_ == ty
            || bounds_path(generics, path),
        KindView::AssocType { generics, bounds, type_ } => type_ == Some(ty) || bounds.contains(
            bound,
        ) || bounds_path(generics, path),
        _ => false,
    }
}

/// The path is a bound of a type parameter, or of a type in the `where` clause.
pub open spec fn bounds_path(generics: GenericsView, path: PathView) -> bool {
    let bound = BoundView::TraitBound(path);
    ||| exists|i: int|
        0 <= i < generics.params.len() && (#[trigger] generics.params[i] matches ParamView::Type {
            bounds,
            ..
        } && bounds.contains(bound))
    ||| exists|i: int|
        0 <= i < generics.where_predicates.len() && (#[trigger] generics.where_predicates[i]
            matches PredicateView::BoundPredicate { bounds, .. } && bounds.contains(bound))
}

/// If an item of the public API shows a path whose item is known to be of a crate
/// other than the documented one, and the crate is a dependency, then this
/// dependency is leaked.
pub proof fn law_shown_path_is_leaked(
    docs: DocsView,
    deps: Map<u32, Seq<char>>,
    item: u32,
    path: PathView,
)
    requires
        docs.items.dom().contains(item),
        shows_path(docs.items[item].inner, path),
        docs.paths.dom().contains(path.id),
        docs.paths[path.id].crate_id != 0,
        deps.dom().contains(docs.paths[path.id].crate_id),
    ensures
        leaked_deps(docs, deps).dom().contains(deps[docs.paths[path.id].crate_id]),
{
    let paths = docs.paths;
    let summary = paths[path.id];
    let r: CrateRef = (summary.crate_id, join(summary.path, "::"@));
    let kind = docs.items[item].inner;
    let ty = TypeView::ResolvedPath(path);
    law_path_refers_to_its_item(PathView { args: None, ..path }, paths, r);
    law_path_refers_to_its_item(path, paths, r);
    assert(path_refers(path, paths, r));
    assert(type_refers(ty, paths, r));
    law_name_does_not_matter(docs.items[item], paths, r);
    assert(item_of(kind).refers_to(paths, r)) by {
        match kind {
            KindView::Function { sig, generics } => {
                law_function_refers(sig, generics, paths, r);
                if sig.inputs.contains(ty) {
                    let i = choose|i: int| 0 <= i < sig.inputs.len() && sig.inputs[i] == ty;
                    assert(type_refers(sig.inputs[i], paths, r));
                }
                if bounds_path(generics, path) {
                    lemma_bounds_path(generics, path, paths, r);
                }
            },
            KindView::Struct { generics, .. } => {
                law_generics_refer(generics, paths, r);
                lemma_bounds_path(generics, path, paths, r);
            },
            KindView::Enum(generics) => {
                law_generics_refer(generics, paths, r);
                lemma_bounds_path(generics, path, paths, r);
            },
            KindView::Union(generics) => {
                law_generics_refer(generics, paths, r);
                lemma_bounds_path(generics, path, paths, r);
            },
            KindView::StructField(_) => {},
            KindView::Constant(given) => {
                law_typed_items_refer(given, no_generics(), Seq::empty(), paths, r);
            },
            KindView::Static(given) => {
                law_typed_items_refer(given, no_generics(), Seq::empty(), paths, r);
            },
            KindView::AssocConst(given) => {
                law_typed_items_refer(given, no_generics(), Seq::empty(), paths, r);
            },
            KindView::TypeAlias { type_, generics } => {
                law_typed_items_refer(type_, generics, Seq::empty(), paths, r);
                if bounds_path(generics, path) {
                    lemma_bounds_path(generics, path, paths, r);
                }
            },
            KindView::Trait { generics, bounds, items } => {
                law_traits_refer(generics, bounds, items, paths, r);
                lemma_bound(bounds, path, paths, r);
                if bounds_path(generics, path) {
                    lemma_bounds_path(generics, path, paths, r);
                }
            },
            KindView::TraitAlias { generics, params } => {
                law_traits_refer(generics, params, Seq::empty(), paths, r);
                lemma_bound(params, path, paths, r);
                if bounds_path(generics, path) {
                    lemma_bounds_path(generics, path, paths, r);
                }
            },
            KindView::Impl { generics, trait_, for_, items } => {
                law_impl_refers(generics, trait_, for_, items, paths, r);
                if bounds_path(generics, path) {
                    lemma_bounds_path(generics, path, paths, r);
                }
            },
            KindView::AssocType { generics, bounds, type_ } => {
                law_typed_items_refer(
                    match type_ {
                        Some(given) => given,
                        None => ty,
                    },
                    generics,
                    bounds,
                    paths,
                    r,
                );
                lemma_bound(bounds, path, paths, r);
                if bounds_path(generics, path) {
                    lemma_bounds_path(generics, path, paths, r);
                }
            },
            _ => {},
        }
    }
    law_leaked_iff_referred_to(docs, deps, deps[summary.crate_id]);
    assert(docs.items[item].refers_to(paths, r));
}

spec fn no_generics() -> GenericsView {
    GenericsView { params: Seq::empty(), where_predicates: Seq::empty() }
}

proof fn lemma_bound(bounds: Seq<BoundView>, path: PathView, paths: Paths, r: CrateRef)
    requires
        path_refers(path, paths, r),
    ensures
        bounds.contains(BoundView::TraitBound(path)) ==> bounds_refer(bounds, paths, r),
{
    if bounds.contains(BoundView::TraitBound(path)) {
        let i = choose|i: int| 0 <= i < bounds.len() && bounds[i] == BoundView::TraitBound(path);
        assert(bounds[i] matches BoundView::TraitBound(other) && path_refers(other, paths, r));
    }
}

proof fn lemma_bounds_path(generics: GenericsView, path: PathView, paths: Paths, r: CrateRef)
    requires
        path_refers(path, paths, r),
        bounds_path(generics, path),
    ensures
        generics_refer(generics, paths, r),
{
    let bound = BoundView::TraitBound(path);
    if exists|i: int|
        0 <= i < generics.params.len() && (#[trigger] generics.params[i] matches ParamView::Type {
            bounds,
            ..
        } && bounds.contains(bound)) {
        let i = choose|i: int|
            0 <= i < generics.params.len() && (#[trigger] generics.params[i] matches
                ParamView::Type { bounds, .. } && bounds.contains(bound));
        if let ParamView::Type { bounds, default } = generics.params[i] {
            lemma_bound(bounds, path, paths, r);
        }
    } else {
        let i = choose|i: int|
            0 <= i < generics.where_predicates.len() && (#[trigger] generics.where_predicates[i]
                matches PredicateView::BoundPredicate { bounds, .. } && bounds.contains(bound));
        if let PredicateView::BoundPredicate { type_, bounds } = generics.where_predicates[i] {
            lemma_bound(bounds, path, paths, r);
        }
    }
}

/// The name of a documented item in a report.
pub open spec fn reported_name(docs: DocsView, id: u32) -> Seq<char> {
    item_name(id, docs.items[id], docs.paths, parents(docs, item_ids(docs).len()))
}

/// Each item that refers to a dependency has an entry in the dependency's list,
/// under its name and kind and with the paths of what it refers to there; and
/// each entry is of such an item.
pub proof fn law_leaks_list_the_items(docs: DocsView, deps: Map<u32, Seq<char>>, dep: Seq<char>)
    ensures
        forall|id: u32, types: Set<Seq<char>>|
            docs.items.dom().contains(id) && is_leaked_by(
                docs,
                deps,
                dep,
                id,
                types,
            ) && types != Set::<Seq<char>>::empty() ==> #[trigger] leaks(
                docs,
                deps,
                dep,
            ).contains(
                (LeakView {
                    item_name: reported_name(docs, id),
                    item_kind: kind_label(docs.items[id].inner),
                    leaked_types: types,
                }),
            ),
        forall|leak: LeakView| #[trigger]
            leaks(docs, deps, dep).contains(leak) ==> leak.leaked_types != Set::<
                Seq<char>,
            >::empty() && exists|id: u32| #[trigger]
                docs.items.dom().contains(id) && leak.item_name == reported_name(docs, id)
                    && leak.item_kind == kind_label(docs.items[id].inner) && is_leaked_by(
                    docs,
                    deps,
                    dep,
                    id,
                    leak.leaked_types,
                ),
{
    broadcast use vstd::seq_lib::group_to_multiset_ensures;

    let ids = item_ids(docs);
    let found = leaks_in(docs, deps, dep, ids.len());
    lemma_sort_by(found, |leak: LeakView| leak.item_name);
    lemma_ascending_ids(docs.items.dom());
    lemma_leaks_in(docs, deps, dep, ids.len());
    let list = leaks(docs, deps, dep);
    assert forall|leak: LeakView| list.contains(leak) == found.contains(leak) by {
        assert(list.to_multiset().count(leak) == found.to_multiset().count(leak));
    }
    assert forall|id: u32, types: Set<Seq<char>>|
        docs.items.dom().contains(id) && is_leaked_by(
            docs,
            deps,
            dep,
            id,
            types,
        ) && types != Set::<Seq<char>>::empty() implies #[trigger] list.contains(
        (LeakView {
            item_name: reported_name(docs, id),
            item_kind: kind_label(docs.items[id].inner),
            leaked_types: types,
        }),
    ) by {
        assert(ids.contains(id));
        let i = choose|i: int| 0 <= i < ids.len() && ids[i] == id;
        assert(types =~= leaked_types(docs.items[ids[i]], docs.paths, deps, dep));
        assert(found.contains(leak_of(docs, deps, dep, ids[i])));
    }
    assert forall|leak: LeakView| #[trigger] list.contains(leak) implies leak.leaked_types != Set::<
        Seq<char>,
    >::empty() && exists|id: u32| #[trigger]
        docs.items.dom().contains(id) && leak.item_name == reported_name(docs, id)
            && leak.item_kind == kind_label(docs.items[id].inner) && is_leaked_by(
            docs,
            deps,
            dep,
            id,
            leak.leaked_types,
        ) by {
        assert(found.contains(leak));
        let i = choose|i: int|
            0 <= i < ids.len() && leak == #[trigger] leak_of(docs, deps, dep, ids[i])
                && leak.leaked_types != Set::<Seq<char>>::empty();
        assert(ids.contains(ids[i]));
        assert(docs.items.dom().contains(ids[i]));
    }
}

/// `types` are the paths of what the item refers to in the dependency.
pub open spec fn is_leaked_by(
    docs: DocsView,
    deps: Map<u32, Seq<char>>,
    dep: Seq<char>,
    id: u32,
    types: Set<Seq<char>>,
) -> bool {
    forall|path: Seq<char>| #[trigger]
        types.contains(path) <==> exists|crate_id: u32| #[trigger]
            deps.dom().contains(crate_id) && deps[crate_id] == dep && docs.items[id].refers_to(
                docs.paths,
                (crate_id, path),
            )
}

spec fn leak_of(docs: DocsView, deps: Map<u32, Seq<char>>, dep: Seq<char>, id: u32) -> LeakView {
    LeakView {
        item_name: reported_name(docs, id),
        item_kind: kind_label(docs.items[id].inner),
        leaked_types: leaked_types(docs.items[id], docs.paths, deps, dep),
    }
}

proof fn lemma_leaks_in(docs: DocsView, deps: Map<u32, Seq<char>>, dep: Seq<char>, n: nat)
    requires
        n <= item_ids(docs).len(),
    ensures
        forall|i: int|
            0 <= i < n && (#[trigger] leak_of(docs, deps, dep, item_ids(docs)[i])).leaked_types
                != Set::<Seq<char>>::empty() ==> leaks_in(docs, deps, dep, n).contains(
                leak_of(docs, deps, dep, item_ids(docs)[i]),
            ),
        forall|leak: LeakView| #[trigger]
            leaks_in(docs, deps, dep, n).contains(leak) ==> exists|i: int|
                0 <= i < n && leak == #[trigger] leak_of(docs, deps, dep, item_ids(docs)[i])
                    && leak.leaked_types != Set::<Seq<char>>::empty(),
    decreases n,
{
    if n > 0 {
        let m = (n - 1) as nat;
        lemma_leaks_in(docs, deps, dep, m);
        let before = leaks_in(docs, deps, dep, m);
        let list = leaks_in(docs, deps, dep, n);
        let last = leak_of(docs, deps, dep, item_ids(docs)[n - 1]);
        if last.leaked_types =~= Set::empty() {
            assert(list == before);
        } else {
            assert(list == before.push(last));
            assert(list[list.len() - 1] == last);
        }
        assert forall|i: int|
            0 <= i < n && (#[trigger] leak_of(docs, deps, dep, item_ids(docs)[i])).leaked_types
                != Set::<Seq<char>>::empty() implies list.contains(
            leak_of(docs, deps, dep, item_ids(docs)[i]),
        ) by {
            if i < m {
                let leak = leak_of(docs, deps, dep, item_ids(docs)[i]);
                let k = choose|k: int| 0 <= k < before.len() && before[k] == leak;
                assert(list[k] == leak);
            }
        }
        assert forall|leak: LeakView| #[trigger] list.contains(leak) implies exists|i: int|
            0 <= i < n && leak == #[trigger] leak_of(docs, deps, dep, item_ids(docs)[i])
                && leak.leaked_types != Set::<Seq<char>>::empty() by {
            let k = choose|k: int| 0 <= k < list.len() && list[k] == leak;
            if k < before.len() {
                assert(before[k] == leak);
                assert(before.contains(leak));
            }
        }
    }
}

/// The item `id` is documented as a part of the item `parent`: a field of a struct
/// or a variant, or an item of an impl or a trait.
pub open spec fn is_part_of(docs: DocsView, parent: u32, id: u32) -> bool {
    docs.items.dom().contains(parent) && match docs.items[parent].inner {
        KindView::Struct { fields: FieldsView::Named(ids), .. } => ids.contains(id),
        KindView::Struct { fields: FieldsView::Tuple(ids), .. } => ids.contains(Some(id)),
        KindView::Variant(FieldsView::Named(ids)) => ids.contains(id),
        KindView::Variant(FieldsView::Tuple(ids)) => ids.contains(Some(id)),
        KindView::Impl { items, .. } => items.contains(id),
        KindView::Trait { items, .. } => items.contains(id),
        _ => false,
    }
}

/// An item whose path is known is named by the whole path.
pub proof fn law_known_item_has_its_path(docs: DocsView, id: u32)
    requires
        docs.paths.dom().contains(id),
    ensures
        reported_name(docs, id) == join(docs.paths[id].path, "::"@),
{
}

/// An item whose path is not known, and which is a part of one other item, is named
/// by that item and its own name: by the path of that item if it is known, else by
/// its name, else, for an impl, by its type and trait.
pub proof fn law_part_is_named_after_its_parent(docs: DocsView, parent: u32, id: u32)
    requires
        !docs.paths.dom().contains(id),
        is_part_of(docs, parent, id),
        forall|other: u32| #[trigger] is_part_of(docs, other, id) ==> other == parent,
    ensures
        ({
            let own = match docs.items[id].name {
                Some(name) => name,
                None => "?"@,
            };
            let item = docs.items[parent];
            &&& docs.paths.dom().contains(parent) ==> reported_name(docs, id) == join(
                docs.paths[parent].path,
                "::"@,
            ) + "::"@ + own
            &&& !docs.paths.dom().contains(parent) && item.name is Some ==> reported_name(docs, id)
                == item.name->0 + "::"@ + own
            &&& !docs.paths.dom().contains(parent) && item.name is None ==> match item.inner {
                KindView::Impl { trait_: Some(path), for_, .. } => reported_name(docs, id) == "<"@
                    + shown_type(for_) + " as "@ + path.path + ">"@ + "::"@ + own,
                KindView::Impl { trait_: None, for_, .. } => reported_name(docs, id) == shown_type(
                    for_,
                ) + "::"@ + own,
                _ => reported_name(docs, id) == "::"@ + own,
            }
        }),
{
    let ids = item_ids(docs);
    lemma_ascending_ids(docs.items.dom());
    lemma_parents(docs, id, ids.len());
    assert(ids.contains(parent));
    let i = choose|i: int| 0 <= i < ids.len() && ids[i] == parent;
    let names = parents(docs, ids.len());
    lemma_part(docs, parent, id);
    assert(children(docs.items[ids[i]]).contains(id));
    let k = choose|k: int|
        0 <= k < ids.len() && #[trigger] children(docs.items[ids[k]]).contains(id) && names[id]
            == parent_path(ids[k], docs.items[ids[k]], docs.paths);
    assert(ids.contains(ids[k]));
    lemma_part(docs, ids[k], id);
    assert(Seq::<char>::empty() + "::"@ =~= "::"@);
}

/// An item whose path is not known, and which is a part of no other, is named by
/// what it imports, by its type and trait, or by its own name.
pub proof fn law_other_item_has_its_own_name(docs: DocsView, id: u32)
    requires
        !docs.paths.dom().contains(id),
        forall|parent: u32| !#[trigger] is_part_of(docs, parent, id),
    ensures
        match docs.items[id].inner {
            KindView::Use(Some(target)) => reported_name(docs, id) == if docs.paths.dom().contains(
                target,
            ) {
                join(docs.paths[target].path, "::"@)
            } else {
                "<unnamed>"@
            },
            KindView::Use(None) => reported_name(docs, id) == "<unnamed>"@,
            KindView::Impl { trait_: Some(path), for_, .. } => reported_name(docs, id) == path.path
                + " for "@ + shown_type(for_),
            KindView::Impl { trait_: None, for_, .. } => reported_name(docs, id) == shown_type(
                for_,
            ),
            _ => reported_name(docs, id) == match docs.items[id].name {
                Some(name) => name,
                None => "<unnamed>"@,
            },
        },
{
    let ids = item_ids(docs);
    lemma_ascending_ids(docs.items.dom());
    lemma_parents(docs, id, ids.len());
    let names = parents(docs, ids.len());
    if names.dom().contains(id) {
        let k = choose|k: int|
            0 <= k < ids.len() && #[trigger] children(docs.items[ids[k]]).contains(id) && names[id]
                == parent_path(ids[k], docs.items[ids[k]], docs.paths);
        assert(ids.contains(ids[k]));
        lemma_part(docs, ids[k], id);
    }
}

/// A type is shown by its path or its name, a reference with `&` before and a slice
/// in brackets; any other type by `_`.
pub proof fn law_shown_types(ty: TypeView, path: PathView, name: Seq<char>)
    ensures
        shown_type(TypeView::ResolvedPath(path)) == path.path,
        shown_type(TypeView::Generic(name)) == name,
        shown_type(TypeView::Primitive(name)) == name,
        shown_type(TypeView::BorrowedRef(Box::new(ty))) == "&"@ + shown_type(ty),
        shown_type(TypeView::Slice(Box::new(ty))) == "["@ + shown_type(ty) + "]"@,
        !(ty is ResolvedPath || ty is Generic || ty is Primitive || ty is BorrowedRef
            || ty is Slice) ==> shown_type(ty) == "_"@,
{
    assert(shown_type(TypeView::BorrowedRef(Box::new(ty))) == "&"@ + shown_type(ty));
    assert(shown_type(TypeView::Slice(Box::new(ty))) == "["@ + shown_type(ty) + "]"@);
}

/// Kinds of items are told apart by the words that Rust has for them.
pub proof fn law_words_for_kinds(
    generics: GenericsView,
    fields: FieldsView,
    sig: SignatureView,
    bounds: Seq<BoundView>,
    ids: Seq<u32>,
    ty: TypeView,
    trait_: Option<PathView>,
)
    ensures
        kind_label(KindView::Function { sig, generics }) == "fn"@,
        kind_label(KindView::Struct { fields, generics }) == "struct"@,
        kind_label(KindView::StructField(ty)) == "field"@,
        kind_label(KindView::Enum(generics)) == "enum"@,
        kind_label(KindView::Variant(fields)) == "variant"@,
        kind_label(KindView::Union(generics)) == "union"@,
        kind_label(KindView::Trait { generics, bounds, items: ids }) == "trait"@,
        kind_label(KindView::Impl { generics, trait_, for_: ty, items: ids }) == "impl"@,
        kind_label(KindView::TypeAlias { type_: ty, generics }) == "type"@,
        kind_label(KindView::Constant(ty)) == "const"@,
        kind_label(KindView::Static(ty)) == "static"@,
        kind_label(KindView::AssocConst(ty)) == "assoc const"@,
        kind_label(KindView::AssocType { generics, bounds, type_: Some(ty) }) == "assoc type"@,
        kind_label(KindView::Module) == "mod"@,
        kind_label(KindView::Use(None)) == "use"@,
        kind_label(KindView::Macro) == "macro"@,
{
}

proof fn lemma_present(fields: Seq<Option<u32>>, id: u32, n: nat)
    requires
        n <= fields.len(),
    ensures
        present(fields, n).contains(id) <==> exists|i: int|
            0 <= i < n && #[trigger] fields[i] == Some(id),
    decreases n,
{
    if n > 0 {
        let m = (n - 1) as nat;
        lemma_present(fields, id, m);
        let before = present(fields, m);
        let all = present(fields, n);
        if let Some(last) = fields[n - 1] {
            assert(all == before.push(last));
            assert(all[all.len() - 1] == last);
            if before.contains(id) {
                let k = choose|k: int| 0 <= k < before.len() && before[k] == id;
                assert(all[k] == id);
            }
            if all.contains(id) && last != id {
                let k = choose|k: int| 0 <= k < all.len() && all[k] == id;
                assert(before[k] == id);
            }
        }
    }
}

proof fn lemma_part(docs: DocsView, parent: u32, id: u32)
    requires
        docs.items.dom().contains(parent),
    ensures
        is_part_of(docs, parent, id) <==> children(docs.items[parent]).contains(id),
{
    let fields = match docs.items[parent].inner {
        KindView::Struct { fields: FieldsView::Tuple(ids), .. } => ids,
        KindView::Variant(FieldsView::Tuple(ids)) => ids,
        _ => Seq::empty(),
    };
    lemma_present(fields, id, fields.len());
    assert(fields.contains(Some(id)) <==> exists|i: int|
        0 <= i < fields.len() && #[trigger] fields[i] == Some(id));
}

proof fn lemma_parents(docs: DocsView, id: u32, n: nat)
    requires
        n <= item_ids(docs).len(),
    ensures
        forall|k: int|
            0 <= k < n && #[trigger] children(docs.items[item_ids(docs)[k]]).contains(id)
                ==> parents(docs, n).dom().contains(id),
        parents(docs, n).dom().contains(id) ==> exists|k: int|
            0 <= k < n && #[trigger] children(docs.items[item_ids(docs)[k]]).contains(id)
                && parents(docs, n)[id] == parent_path(
                item_ids(docs)[k],
                docs.items[item_ids(docs)[k]],
                docs.paths,
            ),
    decreases n,
{
    if n > 0 {
        let m = (n - 1) as nat;
        lemma_parents(docs, id, m);
        let last = item_ids(docs)[n - 1];
        if children(docs.items[last]).contains(id) {
            assert(parents(docs, n).dom().contains(id));
            assert(parents(docs, n)[id] == parent_path(last, docs.items[last], docs.paths));
            assert(children(docs.items[item_ids(docs)[n - 1]]).contains(id));
        } else {
            assert(parents(docs, n).dom().contains(id) == parents(docs, m).dom().contains(id));
            assert(parents(docs, m).dom().contains(id) ==> parents(docs, n)[id] == parents(
                docs,
                m,
            )[id]);
        }
    }
}

/// Each item that refers to a dependency has one entry in the dependency's list.
pub proof fn law_each_item_has_one_entry(docs: DocsView, deps: Map<u32, Seq<char>>, dep: Seq<char>)
    ensures
        leaks(docs, deps, dep).len() == ascending_ids(docs.items.dom()).filter(
            |id: u32|
                exists|r: CrateRef| #[trigger]
                    docs.items[id].refers_to(docs.paths, r) && deps.dom().contains(r.0)
                        && deps[r.0] == dep,
        ).len(),
{
    let ids = item_ids(docs);
    lemma_sort_by(leaks_in(docs, deps, dep, ids.len()), |leak: LeakView| leak.item_name);
    lemma_count(docs, deps, dep, ids.len());
    assert(ids.take(ids.len() as int) =~= ids);
}

proof fn lemma_count(docs: DocsView, deps: Map<u32, Seq<char>>, dep: Seq<char>, n: nat)
    requires
        n <= item_ids(docs).len(),
    ensures
        leaks_in(docs, deps, dep, n).len() == item_ids(docs).take(n as int).filter(
            |id: u32|
                exists|r: CrateRef| #[trigger]
                    docs.items[id].refers_to(docs.paths, r) && deps.dom().contains(r.0)
                        && deps[r.0] == dep,
        ).len(),
    decreases n,
{
    reveal(Seq::filter);
    let shown = |id: u32|
        exists|r: CrateRef| #[trigger]
            docs.items[id].refers_to(docs.paths, r) && deps.dom().contains(r.0) && deps[r.0] == dep;
    let few = item_ids(docs).take(n as int);
    if n > 0 {
        lemma_count(docs, deps, dep, (n - 1) as nat);
        let id = item_ids(docs)[n - 1];
        assert(few.drop_last() =~= item_ids(docs).take(n - 1));
        assert(few.last() == id);
        let types = leaked_types(docs.items[id], docs.paths, deps, dep);
        if types =~= Set::empty() {
            if shown(id) {
                let r = choose|r: CrateRef| #[trigger]
                    docs.items[id].refers_to(docs.paths, r) && deps.dom().contains(r.0)
                        && deps[r.0] == dep;
                assert(docs.items[id].refers_to(docs.paths, (r.0, r.1)));
                assert(types.contains(r.1));
            }
        } else {
            let path = choose|path: Seq<char>| types.contains(path);
            let crate_id = choose|crate_id: u32|
                deps.dom().contains(crate_id) && deps[crate_id] == dep
                    && #[trigger] docs.items[id].refers_to(docs.paths, (crate_id, path));
            let r = (crate_id, path);
            assert(docs.items[id].refers_to(docs.paths, r));
            assert(shown(id));
        }
    }
}

/// The ids of a set are listed each once and ascending.
pub proof fn law_ids_ascend(set: Set<u32>, id: u32)
    ensures
        ascending_ids(set).contains(id) <==> set.contains(id),
        forall|i: int, j: int|
            0 <= i < j < ascending_ids(set).len() ==> ascending_ids(set)[i] < ascending_ids(set)[j],
{
    lemma_ascending_ids(set);
}

/// Of several values with one id the last one counts.
pub proof fn law_last_value_of_an_id_counts<V>(pairs: Seq<(u32, V)>, i: int)
    requires
        0 <= i < pairs.len(),
        forall|j: int| i < j < pairs.len() ==> (#[trigger] pairs[j]).0 != pairs[i].0,
    ensures
        by_id(pairs).dom().contains(pairs[i].0),
        by_id(pairs)[pairs[i].0] == pairs[i].1,
    decreases pairs.len(),
{
    if i < pairs.len() - 1 {
        let few = pairs.drop_last();
        assert forall|j: int| i < j < few.len() implies (#[trigger] few[j]).0 != few[i].0 by {
            assert(pairs[j].0 != pairs[i].0);
        }
        law_last_value_of_an_id_counts(few, i);
        assert(pairs[pairs.len() - 1].0 != pairs[i].0);
    }
}

} // verus!
