//! Laws of documents: what is said of the documentation is said of all its parts.
use vstd::prelude::*;

use crate::laws::leaks::{law_shown_path_is_leaked, shows_path};
use crate::leak::leaked_deps;
use crate::rustdoc::{
    name_texts, ArgView, ArgsView, BoundView, ConstraintView, DocArg, DocArgs, DocBound,
    DocConstraint, DocFields, DocGenerics, DocItem, DocKind, DocParam, DocPath, DocPredicate,
    DocSignature, DocSummary, DocType, Docs, FieldsView, KindView, ParamView, PredicateView,
    TypeView,
};

verus! {

/// The list says of each of its types what the type says.
pub open spec fn says_types(said: Seq<TypeView>, list: Seq<DocType>) -> bool {
    &&& said.len() == list.len()
    &&& forall|i: int| 0 <= i < list.len() ==> #[trigger] said[i] == list[i].tree()
}

/// The list says of each of its bounds what the bound says.
pub open spec fn says_bounds(said: Seq<BoundView>, list: Seq<DocBound>) -> bool {
    &&& said.len() == list.len()
    &&& forall|i: int| 0 <= i < list.len() ==> #[trigger] said[i] == list[i].tree()
}

/// What may be a type says what the type says.
pub open spec fn says_type(said: Option<TypeView>, given: Option<DocType>) -> bool {
    match given {
        Some(ty) => said == Some(ty.tree()),
        None => said is None,
    }
}

/// A type says what it is made of.
pub proof fn law_type_says_its_parts(ty: DocType)
    ensures
        match ty {
            DocType::ResolvedPath(path) => ty.tree() == TypeView::ResolvedPath(path.tree()),
            DocType::DynTrait(traits) => ty.tree() matches TypeView::DynTrait(said) && said.len()
                == traits@.len() && (forall|i: int|
                0 <= i < traits@.len() ==> #[trigger] said[i] == traits@[i].tree()),
            DocType::Generic(name) => ty.tree() == TypeView::Generic(name@),
            DocType::Primitive(name) => ty.tree() == TypeView::Primitive(name@),
            DocType::FunctionPointer(sig) => ty.tree() matches TypeView::FunctionPointer(said)
                && *said == sig.tree(),
            DocType::Tuple(types) => ty.tree() matches TypeView::Tuple(said) && says_types(
                said,
                types@,
            ),
            DocType::Slice(inner) => ty.tree() matches TypeView::Slice(said) && *said
                == inner.tree(),
            DocType::Array(inner) => ty.tree() matches TypeView::Array(said) && *said
                == inner.tree(),
            DocType::Pat(inner) => ty.tree() matches TypeView::Pat(said) && *said == inner.tree(),
            DocType::ImplTrait(bounds) => ty.tree() matches TypeView::ImplTrait(said)
                && says_bounds(said, bounds@),
            DocType::Infer => ty.tree() == TypeView::Infer,
            DocType::RawPointer(inner) => ty.tree() matches TypeView::RawPointer(said) && *said
                == inner.tree(),
            DocType::BorrowedRef(inner) => ty.tree() matches TypeView::BorrowedRef(said) && *said
                == inner.tree(),
            DocType::QualifiedPath { self_type, trait_, args } => ty.tree() matches
                TypeView::QualifiedPath { self_type: said, trait_: path, args: list } && *said
                == self_type.tree() && (match trait_ {
                Some(given) => path == Some(given.tree()),
                None => path is None,
            }) && (match args {
                Some(given) => list matches Some(told) && *told == given.tree(),
                None => list is None,
            }),
        },
{
    match ty {
        DocType::DynTrait(traits) => {
            assert forall|i: int| 0 <= i < traits@.len() implies #[trigger] crate::rustdoc::paths_of(
                traits@,
            )[i] == traits@[i].tree() by {}
        },
        DocType::Tuple(types) => {
            lemma_types(types@);
        },
        DocType::ImplTrait(bounds) => {
            lemma_bounds(bounds@);
        },
        DocType::FunctionPointer(sig) => {
            assert(ty.tree() == TypeView::FunctionPointer(Box::new(sig.tree())));
        },
        DocType::QualifiedPath { self_type, trait_, args } => {
            assert(ty.tree()->QualifiedPath_self_type == Box::new(self_type.tree()));
            if let Some(given) = trait_ {
                assert(ty.tree()->trait_ == Some(given.tree()));
            }
            if let Some(given) = args {
                assert(ty.tree()->args == Some(Box::new(given.tree())));
            }
        },
        _ => {},
    }
}

/// A path says how it is written, what it names and its generic arguments.
pub proof fn law_path_says_its_parts(path: DocPath)
    ensures
        path.tree().path == path.path@,
        path.tree().id == path.id,
        match path.args {
            Some(args) => path.tree().args matches Some(said) && *said == args.tree(),
            None => path.tree().args is None,
        },
{
    if let Some(args) = path.args {
        assert(path.tree().args == Some(Box::new(args.tree())));
    }
}

/// Generic arguments say each argument and each constraint, or the inputs and the
/// output.
pub proof fn law_arguments_say_their_parts(args: DocArgs, arg: DocArg, constraint: DocConstraint)
    ensures
        match args {
            DocArgs::AngleBracketed { args: list, constraints } => args.tree() matches
                ArgsView::AngleBracketed { args: said, constraints: told } && said.len()
                == list@.len() && told.len() == constraints@.len() && (forall|i: int|
                0 <= i < list@.len() ==> #[trigger] said[i] == list@[i].tree()) && (forall|i: int|
                0 <= i < constraints@.len() ==> #[trigger] told[i] == constraints@[i].tree()),
            DocArgs::Parenthesized { inputs, output } => args.tree() matches
                ArgsView::Parenthesized { inputs: said, output: told } && says_types(said, inputs@)
                && says_type(told, output),
            DocArgs::ReturnTypeNotation => args.tree() is ReturnTypeNotation,
        },
        match arg {
            DocArg::Type(ty) => arg.tree() == ArgView::Type(ty.tree()),
            DocArg::Lifetime => arg.tree() is Lifetime,
            DocArg::Const => arg.tree() is Const,
            DocArg::Infer => arg.tree() is Infer,
        },
        match constraint {
            DocConstraint::Equality(ty) => constraint.tree() matches ConstraintView::Equality(said)
                && says_type(said, ty),
            DocConstraint::Bounds(bounds) => constraint.tree() matches ConstraintView::Bounds(said)
                && says_bounds(said, bounds@),
        },
{
    match args {
        DocArgs::AngleBracketed { args: list, constraints } => {
            assert forall|i: int| 0 <= i < list@.len() implies #[trigger] crate::rustdoc::args_of(
                list@,
            )[i] == list@[i].tree() by {}
            assert forall|i: int| 0 <= i < constraints@.len() implies #[trigger]
            crate::rustdoc::constraints_of(constraints@)[i] == constraints@[i].tree() by {}
        },
        DocArgs::Parenthesized { inputs, output } => {
            lemma_types(inputs@);
            if let Some(ty) = output {
                assert(args.tree()->Parenthesized_output == Some(ty.tree()));
            }
        },
        _ => {},
    }
    match constraint {
        DocConstraint::Equality(ty) => {
            if let Some(given) = ty {
                assert(constraint.tree() == ConstraintView::Equality(Some(given.tree())));
            }
        },
        DocConstraint::Bounds(bounds) => {
            lemma_bounds(bounds@);
        },
    }
}

/// A signature says each input and the output; a bound its trait.
pub proof fn law_signature_says_its_parts(sig: DocSignature, bound: DocBound)
    ensures
        says_types(sig.tree().inputs, sig.inputs@),
        says_type(sig.tree().output, sig.output),
        match bound {
            DocBound::TraitBound(path) => bound.tree() == BoundView::TraitBound(path.tree()),
            DocBound::Outlives => bound.tree() is Outlives,
            DocBound::Use => bound.tree() is Use,
        },
{
    lemma_types(sig.inputs@);
    if let Some(ty) = sig.output {
        assert(sig.tree().output == Some(ty.tree()));
    }
}

/// Generics say each parameter, with its bounds and its default, and each predicate,
/// with its types and its bounds.
pub proof fn law_generics_say_their_parts(
    generics: DocGenerics,
    param: DocParam,
    predicate: DocPredicate,
)
    ensures
        generics.tree().params.len() == generics.params@.len(),
        generics.tree().where_predicates.len() == generics.where_predicates@.len(),
        forall|i: int|
            0 <= i < generics.params@.len() ==> #[trigger] generics.tree().params[i]
                == generics.params@[i].tree(),
        forall|i: int|
            0 <= i < generics.where_predicates@.len() ==> #[trigger]
                generics.tree().where_predicates[i] == generics.where_predicates@[i].tree(),
        match param {
            DocParam::Type { bounds, default } => param.tree() matches ParamView::Type {
                bounds: said,
                default: told,
            } && says_bounds(said, bounds@) && says_type(told, default),
            DocParam::Lifetime => param.tree() is Lifetime,
            DocParam::Const => param.tree() is Const,
        },
        match predicate {
            DocPredicate::BoundPredicate { type_, bounds } => predicate.tree() matches
                PredicateView::BoundPredicate { type_: said, bounds: told } && said == type_.tree()
                && says_bounds(told, bounds@),
            DocPredicate::EqPredicate { lhs, rhs } => predicate.tree() matches
                PredicateView::EqPredicate { lhs: said, rhs: told } && said == lhs.tree()
                && says_type(told, rhs),
            DocPredicate::LifetimePredicate => predicate.tree() is LifetimePredicate,
        },
{
    if let DocParam::Type { bounds, default } = param {
        lemma_bounds(bounds@);
    }
    if let DocPredicate::BoundPredicate { type_, bounds } = predicate {
        lemma_bounds(bounds@);
    }
}

/// An item says what it is and all its parts.
pub proof fn law_item_says_its_parts(kind: DocKind)
    ensures
        match kind {
            DocKind::Function { sig, generics } => kind.tree() matches KindView::Function {
                sig: said,
                generics: told,
            } && said == sig.tree() && told == generics.tree(),
            DocKind::Struct { fields, generics } => kind.tree() matches KindView::Struct {
                fields: said,
                generics: told,
            } && said == fields@ && told == generics.tree(),
            DocKind::StructField(ty) => kind.tree() == KindView::StructField(ty.tree()),
            DocKind::Enum(generics) => kind.tree() == KindView::Enum(generics.tree()),
            DocKind::Union(generics) => kind.tree() == KindView::Union(generics.tree()),
            DocKind::Variant(fields) => kind.tree() == KindView::Variant(fields@),
            DocKind::TypeAlias { type_, generics } => kind.tree() matches KindView::TypeAlias {
                type_: said,
                generics: told,
            } && said == type_.tree() && told == generics.tree(),
            DocKind::Trait { generics, bounds, items } => kind.tree() matches KindView::Trait {
                generics: said,
                bounds: told,
                items: ids,
            } && said == generics.tree() && says_bounds(told, bounds@) && ids == items@,
            DocKind::TraitAlias { generics, params } => kind.tree() matches KindView::TraitAlias {
                generics: said,
                params: told,
            } && said == generics.tree() && says_bounds(told, params@),
            DocKind::Impl { generics, trait_, for_, items } => kind.tree() matches KindView::Impl {
                generics: said,
                trait_: path,
                for_: told,
                items: ids,
            } && said == generics.tree() && told == for_.tree() && ids == items@ && (match trait_ {
                Some(given) => path == Some(given.tree()),
                None => path is None,
            }),
            DocKind::Constant(ty) => kind.tree() == KindView::Constant(ty.tree()),
            DocKind::Static(ty) => kind.tree() == KindView::Static(ty.tree()),
            DocKind::AssocConst(ty) => kind.tree() == KindView::AssocConst(ty.tree()),
            DocKind::AssocType { generics, bounds, type_ } => kind.tree() matches
                KindView::AssocType { generics: said, bounds: told, type_: ty } && said
                == generics.tree() && says_bounds(told, bounds@) && says_type(ty, type_),
            DocKind::Use(target) => kind.tree() == KindView::Use(target),
            DocKind::Module => kind.tree() is Module,
            DocKind::ExternCrate => kind.tree() is ExternCrate,
            DocKind::ExternType => kind.tree() is ExternType,
            DocKind::Macro => kind.tree() is Macro,
            DocKind::ProcMacro => kind.tree() is ProcMacro,
            DocKind::Primitive => kind.tree() is Primitive,
        },
{
    match kind {
        DocKind::Trait { bounds, .. } => {
            lemma_bounds(bounds@);
        },
        DocKind::TraitAlias { params, .. } => {
            lemma_bounds(params@);
        },
        DocKind::AssocType { bounds, .. } => {
            lemma_bounds(bounds@);
        },
        _ => {},
    }
}

/// The documentation says each item by its id, with its name; where each item is
/// defined; and the name of each crate by its id.
pub proof fn law_documentation_says_its_parts(
    docs: Docs,
    id: u32,
    item: DocItem,
    summary: DocSummary,
    fields: DocFields,
)
    ensures
        docs@.items.dom().contains(id) <==> docs.items@.dom().contains(id),
        docs.items@.dom().contains(id) ==> docs@.items[id] == docs.items@[id]@,
        docs@.paths.dom().contains(id) <==> docs.paths@.dom().contains(id),
        docs.paths@.dom().contains(id) ==> docs@.paths[id] == docs.paths@[id]@,
        docs@.external_crates.dom().contains(id) <==> docs.external_crates@.dom().contains(id),
        docs.external_crates@.dom().contains(id) ==> docs@.external_crates[id]
            == docs.external_crates@[id]@,
        item@.inner == item.inner.tree(),
        match item.name {
            Some(name) => item@.name == Some(name@),
            None => item@.name is None,
        },
        summary@.crate_id == summary.crate_id,
        summary@.path.len() == summary.path@.len(),
        forall|i: int|
            0 <= i < summary.path@.len() ==> #[trigger] summary@.path[i] == summary.path@[i]@,
        match fields {
            DocFields::Unit => fields@ is Unit,
            DocFields::Tuple(ids) => fields@ == FieldsView::Tuple(ids@),
            DocFields::Named(ids) => fields@ == FieldsView::Named(ids@),
        },
{
}

proof fn lemma_types(list: Seq<DocType>)
    ensures
        says_types(crate::rustdoc::types_of(list), list),
{
    assert forall|i: int| 0 <= i < list.len() implies #[trigger] crate::rustdoc::types_of(list)[i]
        == list[i].tree() by {}
}

proof fn lemma_bounds(list: Seq<DocBound>)
    ensures
        says_bounds(crate::rustdoc::bounds_of(list), list),
{
    assert forall|i: int| 0 <= i < list.len() implies #[trigger] crate::rustdoc::bounds_of(list)[i]
        == list[i].tree() by {}
}

/// A documented function that returns a type of a dependency, or takes one, leaks the
/// dependency.
pub proof fn law_function_leaks_its_types(
    docs: Docs,
    deps: Map<u32, String>,
    id: u32,
    sig: DocSignature,
    generics: DocGenerics,
    path: DocPath,
)
    requires
        docs.items@.dom().contains(id),
        docs.items@[id].inner == (DocKind::Function { sig, generics }),
        sig.output == Some(DocType::ResolvedPath(path)) || sig.inputs@.contains(
            DocType::ResolvedPath(path),
        ),
        docs.paths@.dom().contains(path.id),
        docs.paths@[path.id].crate_id != 0,
        deps.dom().contains(docs.paths@[path.id].crate_id),
    ensures
        leaked_deps(docs@, name_texts(deps)).dom().contains(
            deps[docs.paths@[path.id].crate_id]@,
        ),
{
    let item = docs.items@[id];
    let crate_id = docs.paths@[path.id].crate_id;
    let ty = DocType::ResolvedPath(path);
    law_documentation_says_its_parts(docs, id, item, docs.paths@[path.id], DocFields::Unit);
    law_documentation_says_its_parts(
        docs,
        path.id,
        item,
        docs.paths@[path.id],
        DocFields::Unit,
    );
    law_item_says_its_parts(item.inner);
    law_signature_says_its_parts(sig, DocBound::Use);
    law_type_says_its_parts(ty);
    law_path_says_its_parts(path);
    if sig.inputs@.contains(ty) {
        let i = choose|i: int| 0 <= i < sig.inputs@.len() && sig.inputs@[i] == ty;
        assert(sig.tree().inputs[i] == ty.tree());
        assert(sig.tree().inputs.contains(TypeView::ResolvedPath(path.tree())));
    }
    assert(shows_path(docs@.items[id].inner, path.tree()));
    assert(name_texts(deps).dom().contains(crate_id));
    assert(name_texts(deps)[crate_id] == deps[crate_id]@);
    law_shown_path_is_leaked(docs@, name_texts(deps), id, path.tree());
}

} // verus!
