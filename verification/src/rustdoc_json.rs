//! Reading the documentation of a crate from rustdoc's JSON.
//!
//! `serde_json` reads the text into the types of `rustdoc_types`. A name such as
//! `type_tree` stands for what a value of one of these types says, as far as it is
//! read here. The functions ending in `_layer` take a value apart, and their
//! contracts say where each part stands in what the value says.
use std::collections::{BTreeMap, HashMap};

use rustdoc_types::Term;
use vstd::prelude::*;

use crate::rustdoc::{
    args_of, bounds_of, constraints_of, items_of, name_texts, params_of, paths_of, places_of,
    predicates_of, types_of, ArgView, ArgsView, BoundView, ConstraintView, DocArg, DocArgs,
    DocBound, DocConstraint, DocFields, DocGenerics, DocItem, DocKind, DocParam, DocPath,
    DocPredicate, DocSignature, DocSummary, DocType, Docs, DocsView, FieldsView, GenericsView,
    ItemView, KindView, ParamView, PathView, PredicateView, SignatureView, SummaryView, TypeView,
};

verus! {

/// What a type of `rustdoc_types` says.
pub uninterp spec fn type_tree(value: rustdoc_types::Type) -> TypeView;

/// What a path of `rustdoc_types` says.
pub uninterp spec fn path_tree(value: rustdoc_types::Path) -> PathView;

/// What generic arguments of `rustdoc_types` say.
pub uninterp spec fn args_tree(value: rustdoc_types::GenericArgs) -> ArgsView;

/// What a generic argument of `rustdoc_types` says.
pub uninterp spec fn arg_tree(value: rustdoc_types::GenericArg) -> ArgView;

/// What a constraint of `rustdoc_types` says.
pub uninterp spec fn constraint_tree(value: rustdoc_types::AssocItemConstraint) -> ConstraintView;

/// What a bound of `rustdoc_types` says.
pub uninterp spec fn bound_tree(value: rustdoc_types::GenericBound) -> BoundView;

/// What a signature of `rustdoc_types` says.
pub uninterp spec fn signature_tree(value: rustdoc_types::FunctionSignature) -> SignatureView;

/// What a generic parameter of `rustdoc_types` says.
pub uninterp spec fn param_tree(value: rustdoc_types::GenericParamDef) -> ParamView;

/// What a predicate of `rustdoc_types` says.
pub uninterp spec fn predicate_tree(value: rustdoc_types::WherePredicate) -> PredicateView;

/// What generics of `rustdoc_types` say.
pub uninterp spec fn generics_tree(value: rustdoc_types::Generics) -> GenericsView;

/// What an item of `rustdoc_types` says.
pub uninterp spec fn kind_tree(value: rustdoc_types::ItemEnum) -> KindView;

/// What the fields of a struct of `rustdoc_types` say.
pub uninterp spec fn struct_fields(value: rustdoc_types::StructKind) -> FieldsView;

/// What the fields of a variant of `rustdoc_types` say.
pub uninterp spec fn variant_fields(value: rustdoc_types::VariantKind) -> FieldsView;

/// What a whole `rustdoc_types::Crate` says.
pub uninterp spec fn crate_docs(value: rustdoc_types::Crate) -> DocsView;

/// The documentation that `serde_json` reads from `text` as a
/// `rustdoc_types::Crate`; none where it reports an error.
pub uninterp spec fn rustdoc_document(text: Seq<char>) -> Option<DocsView>;

/// `rustdoc_types::Type`: a type in a public signature.
#[verifier::external_type_specification]
#[verifier::external_body]
pub struct ExType(rustdoc_types::Type);

/// `rustdoc_types::Path`: a path that names an item.
#[verifier::external_type_specification]
#[verifier::external_body]
pub struct ExPath(rustdoc_types::Path);

/// `rustdoc_types::GenericArgs`: the generic arguments of a path.
#[verifier::external_type_specification]
#[verifier::external_body]
pub struct ExGenericArgs(rustdoc_types::GenericArgs);

/// `rustdoc_types::GenericArg`: one generic argument.
#[verifier::external_type_specification]
#[verifier::external_body]
pub struct ExGenericArg(rustdoc_types::GenericArg);

/// `rustdoc_types::AssocItemConstraint`: a constraint on an associated item.
#[verifier::external_type_specification]
#[verifier::external_body]
pub struct ExAssocItemConstraint(rustdoc_types::AssocItemConstraint);

/// `rustdoc_types::GenericBound`: a bound on a type.
#[verifier::external_type_specification]
#[verifier::external_body]
pub struct ExGenericBound(rustdoc_types::GenericBound);

/// `rustdoc_types::FunctionSignature`: the types of a function's parameters and of its result.
#[verifier::external_type_specification]
#[verifier::external_body]
pub struct ExFunctionSignature(rustdoc_types::FunctionSignature);

/// `rustdoc_types::GenericParamDef`: a generic parameter.
#[verifier::external_type_specification]
#[verifier::external_body]
pub struct ExGenericParamDef(rustdoc_types::GenericParamDef);

/// `rustdoc_types::WherePredicate`: a predicate of a `where` clause.
#[verifier::external_type_specification]
#[verifier::external_body]
pub struct ExWherePredicate(rustdoc_types::WherePredicate);

/// `rustdoc_types::Generics`: the generic parameters of an item, and its `where` clause.
#[verifier::external_type_specification]
#[verifier::external_body]
pub struct ExGenerics(rustdoc_types::Generics);

/// `rustdoc_types::ItemEnum`: what an item is.
#[verifier::external_type_specification]
#[verifier::external_body]
pub struct ExItemEnum(rustdoc_types::ItemEnum);

/// `rustdoc_types::StructKind`: the fields of a struct.
#[verifier::external_type_specification]
#[verifier::external_body]
pub struct ExStructKind(rustdoc_types::StructKind);

/// `rustdoc_types::VariantKind`: the fields of an enum's variant.
#[verifier::external_type_specification]
#[verifier::external_body]
pub struct ExVariantKind(rustdoc_types::VariantKind);

/// `rustdoc_types::Crate`: the documentation of a crate.
#[verifier::external_type_specification]
#[verifier::external_body]
pub struct ExCrate(rustdoc_types::Crate);

/// `serde_json::Error` says why a text is not the JSON of a value.
#[verifier::external_type_specification]
#[verifier::external_body]
pub struct ExJsonError(serde_json::Error);

/// What a list of types of `rustdoc_types` says.
spec fn type_trees(list: Seq<rustdoc_types::Type>) -> Seq<TypeView> {
    list.map_values(|x: rustdoc_types::Type| type_tree(x))
}

/// What a list of paths of `rustdoc_types` says.
spec fn path_trees(list: Seq<rustdoc_types::Path>) -> Seq<PathView> {
    list.map_values(|x: rustdoc_types::Path| path_tree(x))
}

/// What a list of bounds of `rustdoc_types` says.
spec fn bound_trees(list: Seq<rustdoc_types::GenericBound>) -> Seq<BoundView> {
    list.map_values(|x: rustdoc_types::GenericBound| bound_tree(x))
}

/// What a list of generic arguments of `rustdoc_types` says.
spec fn arg_trees(list: Seq<rustdoc_types::GenericArg>) -> Seq<ArgView> {
    list.map_values(|x: rustdoc_types::GenericArg| arg_tree(x))
}

/// What a list of constraints of `rustdoc_types` says.
spec fn constraint_trees(list: Seq<rustdoc_types::AssocItemConstraint>) -> Seq<ConstraintView> {
    list.map_values(|x: rustdoc_types::AssocItemConstraint| constraint_tree(x))
}

/// What a list of generic parameters of `rustdoc_types` says.
spec fn param_trees(list: Seq<rustdoc_types::GenericParamDef>) -> Seq<ParamView> {
    list.map_values(|x: rustdoc_types::GenericParamDef| param_tree(x))
}

/// What a list of predicates of `rustdoc_types` says.
spec fn predicate_trees(list: Seq<rustdoc_types::WherePredicate>) -> Seq<PredicateView> {
    list.map_values(|x: rustdoc_types::WherePredicate| predicate_tree(x))
}

/// The outermost layer of a type.
enum TypeLayer {
    ResolvedPath(rustdoc_types::Path),
    DynTrait(Vec<rustdoc_types::Path>),
    Generic(String),
    Primitive(String),
    FunctionPointer(Box<rustdoc_types::FunctionSignature>),
    Tuple(Vec<rustdoc_types::Type>),
    Slice(Box<rustdoc_types::Type>),
    Array(Box<rustdoc_types::Type>),
    Pat(Box<rustdoc_types::Type>),
    ImplTrait(Vec<rustdoc_types::GenericBound>),
    Infer,
    RawPointer(Box<rustdoc_types::Type>),
    BorrowedRef(Box<rustdoc_types::Type>),
    QualifiedPath {
        self_type: Box<rustdoc_types::Type>,
        trait_: Option<rustdoc_types::Path>,
        args: Option<Box<rustdoc_types::GenericArgs>>,
    },
}

impl TypeLayer {
    spec fn tree(self) -> TypeView {
        match self {
            TypeLayer::ResolvedPath(path) => TypeView::ResolvedPath(path_tree(path)),
            TypeLayer::DynTrait(traits) => TypeView::DynTrait(path_trees(traits@)),
            TypeLayer::Generic(name) => TypeView::Generic(name@),
            TypeLayer::Primitive(name) => TypeView::Primitive(name@),
            TypeLayer::FunctionPointer(sig) => TypeView::FunctionPointer(
                Box::new(signature_tree(*sig)),
            ),
            TypeLayer::Tuple(types) => TypeView::Tuple(type_trees(types@)),
            TypeLayer::Slice(inner) => TypeView::Slice(Box::new(type_tree(*inner))),
            TypeLayer::Array(inner) => TypeView::Array(Box::new(type_tree(*inner))),
            TypeLayer::Pat(inner) => TypeView::Pat(Box::new(type_tree(*inner))),
            TypeLayer::ImplTrait(bounds) => TypeView::ImplTrait(bound_trees(bounds@)),
            TypeLayer::Infer => TypeView::Infer,
            TypeLayer::RawPointer(inner) => TypeView::RawPointer(Box::new(type_tree(*inner))),
            TypeLayer::BorrowedRef(inner) => TypeView::BorrowedRef(Box::new(type_tree(*inner))),
            TypeLayer::QualifiedPath { self_type, trait_, args } => TypeView::QualifiedPath {
                self_type: Box::new(type_tree(*self_type)),
                trait_: match trait_ {
                    Some(x) => Some(path_tree(x)),
                    None => None,
                },
                args: match args {
                    Some(x) => Some(Box::new(args_tree(*x))),
                    None => None,
                },
            },
        }
    }
}

/// The type is built from one other type.
spec fn holds_one(t: TypeView) -> bool {
    ||| t is Slice
    ||| t is Array
    ||| t is Pat
    ||| t is RawPointer
    ||| t is BorrowedRef
}

/// The type is a path, a name, a list of types or bounds, or inferred.
spec fn is_common(t: TypeView) -> bool {
    ||| t is ResolvedPath
    ||| t is Generic
    ||| t is Primitive
    ||| t is Tuple
    ||| t is ImplTrait
    ||| t is Infer
}

/// The type is a trait object, a function pointer or a qualified path.
spec fn is_composed(t: TypeView) -> bool {
    ||| t is DynTrait
    ||| t is FunctionPointer
    ||| t is QualifiedPath
}

/// Takes apart a `rustdoc_types::Type` that is built from one other type, and
/// hands any other back.
#[verifier::external_body]
fn inner_layer(value: rustdoc_types::Type) -> (r: Result<TypeLayer, rustdoc_types::Type>)
    ensures
        match r {
            Ok(layer) => layer.tree() == type_tree(value),
            Err(rest) => rest == value && !holds_one(type_tree(value)),
        },
{
    match value {
        rustdoc_types::Type::Slice(inner) => Ok(TypeLayer::Slice(inner)),
        rustdoc_types::Type::Array { type_, .. } => Ok(TypeLayer::Array(type_)),
        rustdoc_types::Type::Pat { type_, .. } => Ok(TypeLayer::Pat(type_)),
        rustdoc_types::Type::RawPointer { type_, .. } => Ok(TypeLayer::RawPointer(type_)),
        rustdoc_types::Type::BorrowedRef { type_, .. } => Ok(TypeLayer::BorrowedRef(type_)),
        rest => Err(rest),
    }
}

/// Takes apart a `rustdoc_types::Type` that is a path, a type parameter, a
/// primitive type, a tuple, an `impl Trait` or inferred, and hands any other back.
#[verifier::external_body]
fn common_layer(value: rustdoc_types::Type) -> (r: Result<TypeLayer, rustdoc_types::Type>)
    ensures
        match r {
            Ok(layer) => layer.tree() == type_tree(value),
            Err(rest) => rest == value && !is_common(type_tree(value)),
        },
{
    match value {
        rustdoc_types::Type::ResolvedPath(path) => Ok(TypeLayer::ResolvedPath(path)),
        rustdoc_types::Type::Generic(name) => Ok(TypeLayer::Generic(name)),
        rustdoc_types::Type::Primitive(name) => Ok(TypeLayer::Primitive(name)),
        rustdoc_types::Type::Tuple(types) => Ok(TypeLayer::Tuple(types)),
        rustdoc_types::Type::ImplTrait(bounds) => Ok(TypeLayer::ImplTrait(bounds)),
        rustdoc_types::Type::Infer => Ok(TypeLayer::Infer),
        rest => Err(rest),
    }
}

/// Takes apart a `rustdoc_types::Type` that is a trait object, a function pointer
/// or a qualified path, and hands any other back. Of a trait object it gives the
/// path of each trait, in order.
#[verifier::external_body]
fn composed_layer(value: rustdoc_types::Type) -> (r: Result<TypeLayer, rustdoc_types::Type>)
    ensures
        match r {
            Ok(layer) => layer.tree() == type_tree(value),
            Err(rest) => rest == value && !is_composed(type_tree(value)),
        },
{
    match value {
        rustdoc_types::Type::DynTrait(object) => {
            Ok(TypeLayer::DynTrait(object.traits.into_iter().map(|t| t.trait_).collect()))
        },
        rustdoc_types::Type::FunctionPointer(f) => Ok(TypeLayer::FunctionPointer(Box::new(f.sig))),
        rustdoc_types::Type::QualifiedPath { self_type, trait_, args, .. } => {
            Ok(TypeLayer::QualifiedPath { self_type, trait_, args })
        },
        rest => Err(rest),
    }
}

fn type_layer(value: rustdoc_types::Type) -> (layer: TypeLayer)
    ensures
        layer.tree() == type_tree(value),
{
    let rest = match inner_layer(value) {
        Ok(layer) => return layer,
        Err(rest) => rest,
    };
    let rest = match common_layer(rest) {
        Ok(layer) => return layer,
        Err(rest) => rest,
    };
    match composed_layer(rest) {
        Ok(layer) => layer,
        Err(_) => {
            assert(false);
            TypeLayer::Infer
        },
    }
}

/// The outermost layer of a path.
struct PathLayer {
    path: String,
    id: u32,
    args: Option<Box<rustdoc_types::GenericArgs>>,
}

impl PathLayer {
    spec fn tree(self) -> PathView {
        PathView {
            path: self.path@,
            id: self.id,
            args: match self.args {
                Some(x) => Some(Box::new(args_tree(*x))),
                None => None,
            },
        }
    }
}

/// Takes a `rustdoc_types::Path` apart into its fields.
#[verifier::external_body]
fn path_layer(value: rustdoc_types::Path) -> (layer: PathLayer)
    ensures
        layer.tree() == path_tree(value),
{
    PathLayer { path: value.path, id: value.id.0, args: value.args }
}

/// The outermost layer of generic arguments.
enum ArgsLayer {
    AngleBracketed {
        args: Vec<rustdoc_types::GenericArg>,
        constraints: Vec<rustdoc_types::AssocItemConstraint>,
    },
    Parenthesized { inputs: Vec<rustdoc_types::Type>, output: Option<rustdoc_types::Type> },
    ReturnTypeNotation,
}

impl ArgsLayer {
    spec fn tree(self) -> ArgsView {
        match self {
            ArgsLayer::AngleBracketed { args, constraints } => ArgsView::AngleBracketed {
                args: arg_trees(args@),
                constraints: constraint_trees(constraints@),
            },
            ArgsLayer::Parenthesized { inputs, output } => ArgsView::Parenthesized {
                inputs: type_trees(inputs@),
                output: match output {
                    Some(x) => Some(type_tree(x)),
                    None => None,
                },
            },
            ArgsLayer::ReturnTypeNotation => ArgsView::ReturnTypeNotation,
        }
    }
}

/// Takes a `rustdoc_types::GenericArgs` apart by its variant.
#[verifier::external_body]
fn args_layer(value: rustdoc_types::GenericArgs) -> (layer: ArgsLayer)
    ensures
        layer.tree() == args_tree(value),
{
    match value {
        rustdoc_types::GenericArgs::AngleBracketed { args, constraints } => {
            ArgsLayer::AngleBracketed { args, constraints }
        },
        rustdoc_types::GenericArgs::Parenthesized { inputs, output } => {
            ArgsLayer::Parenthesized { inputs, output }
        },
        rustdoc_types::GenericArgs::ReturnTypeNotation => ArgsLayer::ReturnTypeNotation,
    }
}

/// The outermost layer of a generic argument.
enum ArgLayer {
    Lifetime,
    Type(rustdoc_types::Type),
    Const,
    Infer,
}

impl ArgLayer {
    spec fn tree(self) -> ArgView {
        match self {
            ArgLayer::Lifetime => ArgView::Lifetime,
            ArgLayer::Type(ty) => ArgView::Type(type_tree(ty)),
            ArgLayer::Const => ArgView::Const,
            ArgLayer::Infer => ArgView::Infer,
        }
    }
}

/// Takes a `rustdoc_types::GenericArg` apart by its variant.
#[verifier::external_body]
fn arg_layer(value: rustdoc_types::GenericArg) -> (layer: ArgLayer)
    ensures
        layer.tree() == arg_tree(value),
{
    match value {
        rustdoc_types::GenericArg::Lifetime(_) => ArgLayer::Lifetime,
        rustdoc_types::GenericArg::Type(ty) => ArgLayer::Type(ty),
        rustdoc_types::GenericArg::Const(_) => ArgLayer::Const,
        rustdoc_types::GenericArg::Infer => ArgLayer::Infer,
    }
}

/// The outermost layer of a constraint.
enum ConstraintLayer {
    Equality(Option<rustdoc_types::Type>),
    Bounds(Vec<rustdoc_types::GenericBound>),
}

impl ConstraintLayer {
    spec fn tree(self) -> ConstraintView {
        match self {
            ConstraintLayer::Equality(ty) => ConstraintView::Equality(match ty {
                    Some(x) => Some(type_tree(x)),
                    None => None,
            }),
            ConstraintLayer::Bounds(bounds) => ConstraintView::Bounds(bound_trees(bounds@)),
        }
    }
}

/// Takes the binding of a `rustdoc_types::AssocItemConstraint` apart by its
/// variant, and the term of an equality by its own.
#[verifier::external_body]
fn constraint_layer(value: rustdoc_types::AssocItemConstraint) -> (layer: ConstraintLayer)
    ensures
        layer.tree() == constraint_tree(value),
{
    match value.binding {
        rustdoc_types::AssocItemConstraintKind::Equality(Term::Type(ty)) => {
            ConstraintLayer::Equality(Some(ty))
        },
        rustdoc_types::AssocItemConstraintKind::Equality(Term::Constant(_)) => {
            ConstraintLayer::Equality(None)
        },
        rustdoc_types::AssocItemConstraintKind::Constraint(bounds) => {
            ConstraintLayer::Bounds(bounds)
        },
    }
}

/// The outermost layer of a bound.
enum BoundLayer {
    TraitBound(rustdoc_types::Path),
    Outlives,
    Use,
}

impl BoundLayer {
    spec fn tree(self) -> BoundView {
        match self {
            BoundLayer::TraitBound(path) => BoundView::TraitBound(path_tree(path)),
            BoundLayer::Outlives => BoundView::Outlives,
            BoundLayer::Use => BoundView::Use,
        }
    }
}

/// Takes a `rustdoc_types::GenericBound` apart by its variant.
#[verifier::external_body]
fn bound_layer(value: rustdoc_types::GenericBound) -> (layer: BoundLayer)
    ensures
        layer.tree() == bound_tree(value),
{
    match value {
        rustdoc_types::GenericBound::TraitBound { trait_, .. } => BoundLayer::TraitBound(trait_),
        rustdoc_types::GenericBound::Outlives(_) => BoundLayer::Outlives,
        rustdoc_types::GenericBound::Use(_) => BoundLayer::Use,
    }
}

/// The outermost layer of a signature.
struct SignatureLayer {
    inputs: Vec<rustdoc_types::Type>,
    output: Option<rustdoc_types::Type>,
}

impl SignatureLayer {
    spec fn tree(self) -> SignatureView {
        SignatureView {
            inputs: type_trees(self.inputs@),
            output: match self.output {
                Some(x) => Some(type_tree(x)),
                None => None,
            },
        }
    }
}

/// Takes a `rustdoc_types::FunctionSignature` apart into the types of its inputs,
/// in order, and its output.
#[verifier::external_body]
fn signature_layer(value: rustdoc_types::FunctionSignature) -> (layer: SignatureLayer)
    ensures
        layer.tree() == signature_tree(value),
{
    SignatureLayer {
        inputs: value.inputs.into_iter().map(|input| input.1).collect(),
        output: value.output,
    }
}

/// The outermost layer of a generic parameter.
enum ParamLayer {
    Lifetime,
    Type { bounds: Vec<rustdoc_types::GenericBound>, default: Option<rustdoc_types::Type> },
    Const,
}

impl ParamLayer {
    spec fn tree(self) -> ParamView {
        match self {
            ParamLayer::Lifetime => ParamView::Lifetime,
            ParamLayer::Type { bounds, default } => ParamView::Type {
                bounds: bound_trees(bounds@),
                default: match default {
                    Some(x) => Some(type_tree(x)),
                    None => None,
                },
            },
            ParamLayer::Const => ParamView::Const,
        }
    }
}

/// Takes the kind of a `rustdoc_types::GenericParamDef` apart by its variant.
#[verifier::external_body]
fn param_layer(value: rustdoc_types::GenericParamDef) -> (layer: ParamLayer)
    ensures
        layer.tree() == param_tree(value),
{
    match value.kind {
        rustdoc_types::GenericParamDefKind::Lifetime { .. } => ParamLayer::Lifetime,
        rustdoc_types::GenericParamDefKind::Type { bounds, default, .. } => {
            ParamLayer::Type { bounds, default }
        },
        rustdoc_types::GenericParamDefKind::Const { .. } => ParamLayer::Const,
    }
}

/// The outermost layer of a predicate.
enum PredicateLayer {
    BoundPredicate { type_: rustdoc_types::Type, bounds: Vec<rustdoc_types::GenericBound> },
    LifetimePredicate,
    EqPredicate { lhs: rustdoc_types::Type, rhs: Option<rustdoc_types::Type> },
}

impl PredicateLayer {
    spec fn tree(self) -> PredicateView {
        match self {
            PredicateLayer::BoundPredicate { type_, bounds } => PredicateView::BoundPredicate {
                type_: type_tree(type_),
                bounds: bound_trees(bounds@),
            },
            PredicateLayer::LifetimePredicate => PredicateView::LifetimePredicate,
            PredicateLayer::EqPredicate { lhs, rhs } => PredicateView::EqPredicate {
                lhs: type_tree(lhs),
                rhs: match rhs {
                    Some(x) => Some(type_tree(x)),
                    None => None,
                },
            },
        }
    }
}

/// Takes a `rustdoc_types::WherePredicate` apart by its variant, and the right
/// side of an equality by its own.
#[verifier::external_body]
fn predicate_layer(value: rustdoc_types::WherePredicate) -> (layer: PredicateLayer)
    ensures
        layer.tree() == predicate_tree(value),
{
    match value {
        rustdoc_types::WherePredicate::BoundPredicate { type_, bounds, .. } => {
            PredicateLayer::BoundPredicate { type_, bounds }
        },
        rustdoc_types::WherePredicate::LifetimePredicate { .. } => {
            PredicateLayer::LifetimePredicate
        },
        rustdoc_types::WherePredicate::EqPredicate { lhs, rhs: Term::Type(ty) } => {
            PredicateLayer::EqPredicate { lhs, rhs: Some(ty) }
        },
        rustdoc_types::WherePredicate::EqPredicate { lhs, rhs: Term::Constant(_) } => {
            PredicateLayer::EqPredicate { lhs, rhs: None }
        },
    }
}

/// The outermost layer of generics.
struct GenericsLayer {
    params: Vec<rustdoc_types::GenericParamDef>,
    where_predicates: Vec<rustdoc_types::WherePredicate>,
}

impl GenericsLayer {
    spec fn tree(self) -> GenericsView {
        GenericsView {
            params: param_trees(self.params@),
            where_predicates: predicate_trees(self.where_predicates@),
        }
    }
}

/// Takes a `rustdoc_types::Generics` apart into its fields.
#[verifier::external_body]
fn generics_layer(value: rustdoc_types::Generics) -> (layer: GenericsLayer)
    ensures
        layer.tree() == generics_tree(value),
{
    GenericsLayer { params: value.params, where_predicates: value.where_predicates }
}

/// The outermost layer of an item.
#[allow(inconsistent_fields)]
enum KindLayer {
    Module,
    ExternCrate,
    Use(Option<u32>),
    Union(rustdoc_types::Generics),
    Struct { fields: rustdoc_types::StructKind, generics: rustdoc_types::Generics },
    StructField(rustdoc_types::Type),
    Enum(rustdoc_types::Generics),
    Variant(rustdoc_types::VariantKind),
    Function { sig: rustdoc_types::FunctionSignature, generics: rustdoc_types::Generics },
    Trait {
        generics: rustdoc_types::Generics,
        bounds: Vec<rustdoc_types::GenericBound>,
        items: Vec<u32>,
    },
    TraitAlias { generics: rustdoc_types::Generics, params: Vec<rustdoc_types::GenericBound> },
    Impl {
        generics: rustdoc_types::Generics,
        trait_: Option<rustdoc_types::Path>,
        for_: rustdoc_types::Type,
        items: Vec<u32>,
    },
    TypeAlias { type_: rustdoc_types::Type, generics: rustdoc_types::Generics },
    Constant(rustdoc_types::Type),
    Static(rustdoc_types::Type),
    ExternType,
    Macro,
    ProcMacro,
    Primitive,
    AssocConst(rustdoc_types::Type),
    AssocType {
        generics: rustdoc_types::Generics,
        bounds: Vec<rustdoc_types::GenericBound>,
        type_: Option<rustdoc_types::Type>,
    },
}

impl KindLayer {
    spec fn tree(self) -> KindView {
        match self {
            KindLayer::Module => KindView::Module,
            KindLayer::ExternCrate => KindView::ExternCrate,
            KindLayer::Use(target) => KindView::Use(target),
            KindLayer::Union(generics) => KindView::Union(generics_tree(generics)),
            KindLayer::Struct { fields, generics } => KindView::Struct {
                fields: struct_fields(fields),
                generics: generics_tree(generics),
            },
            KindLayer::StructField(ty) => KindView::StructField(type_tree(ty)),
            KindLayer::Enum(generics) => KindView::Enum(generics_tree(generics)),
            KindLayer::Variant(fields) => KindView::Variant(variant_fields(fields)),
            KindLayer::Function { sig, generics } => KindView::Function {
                sig: signature_tree(sig),
                generics: generics_tree(generics),
            },
            KindLayer::Trait { generics, bounds, items } => KindView::Trait {
                generics: generics_tree(generics),
                bounds: bound_trees(bounds@),
                items: items@,
            },
            KindLayer::TraitAlias { generics, params } => KindView::TraitAlias {
                generics: generics_tree(generics),
                params: bound_trees(params@),
            },
            KindLayer::Impl { generics, trait_, for_, items } => KindView::Impl {
                generics: generics_tree(generics),
                trait_: match trait_ {
                    Some(x) => Some(path_tree(x)),
                    None => None,
                },
                for_: type_tree(for_),
                items: items@,
            },
            KindLayer::TypeAlias { type_, generics } => KindView::TypeAlias {
                type_: type_tree(type_),
                generics: generics_tree(generics),
            },
            KindLayer::Constant(ty) => KindView::Constant(type_tree(ty)),
            KindLayer::Static(ty) => KindView::Static(type_tree(ty)),
            KindLayer::ExternType => KindView::ExternType,
            KindLayer::Macro => KindView::Macro,
            KindLayer::ProcMacro => KindView::ProcMacro,
            KindLayer::Primitive => KindView::Primitive,
            KindLayer::AssocConst(ty) => KindView::AssocConst(type_tree(ty)),
            KindLayer::AssocType { generics, bounds, type_ } => KindView::AssocType {
                generics: generics_tree(generics),
                bounds: bound_trees(bounds@),
                type_: match type_ {
                    Some(x) => Some(type_tree(x)),
                    None => None,
                },
            },
        }
    }
}

/// The item has no type and no generics.
spec fn is_bare(t: KindView) -> bool {
    ||| t is Module
    ||| t is ExternCrate
    ||| t is Use
    ||| t is ExternType
    ||| t is Macro
    ||| t is ProcMacro
    ||| t is Primitive
}

/// The item has a type.
spec fn is_typed(t: KindView) -> bool {
    ||| t is StructField
    ||| t is Constant
    ||| t is Static
    ||| t is AssocConst
    ||| t is TypeAlias
    ||| t is AssocType
}

/// The item is a type of the crate, a variant or a function.
spec fn is_definition(t: KindView) -> bool {
    ||| t is Union
    ||| t is Struct
    ||| t is Enum
    ||| t is Variant
    ||| t is Function
}

/// The item is a trait, a trait alias or an impl.
spec fn is_about_traits(t: KindView) -> bool {
    ||| t is TraitAlias
    ||| t is Trait
    ||| t is Impl
}

/// Tells apart the `rustdoc_types::ItemEnum` variants without a type or generics,
/// with the target of an import, and hands any other back.
#[verifier::external_body]
fn bare_layer(value: rustdoc_types::ItemEnum) -> (r: Result<KindLayer, rustdoc_types::ItemEnum>)
    ensures
        match r {
            Ok(layer) => layer.tree() == kind_tree(value),
            Err(rest) => rest == value && !is_bare(kind_tree(value)),
        },
{
    match value {
        rustdoc_types::ItemEnum::Module(_) => Ok(KindLayer::Module),
        rustdoc_types::ItemEnum::ExternCrate { .. } => Ok(KindLayer::ExternCrate),
        rustdoc_types::ItemEnum::Use(import) => Ok(KindLayer::Use(import.id.map(|id| id.0))),
        rustdoc_types::ItemEnum::ExternType => Ok(KindLayer::ExternType),
        rustdoc_types::ItemEnum::Macro(_) => Ok(KindLayer::Macro),
        rustdoc_types::ItemEnum::ProcMacro(_) => Ok(KindLayer::ProcMacro),
        rustdoc_types::ItemEnum::Primitive(_) => Ok(KindLayer::Primitive),
        rest => Err(rest),
    }
}

/// Takes apart a `rustdoc_types::ItemEnum` that has a type, and hands any other
/// back.
#[verifier::external_body]
fn typed_layer(value: rustdoc_types::ItemEnum) -> (r: Result<KindLayer, rustdoc_types::ItemEnum>)
    ensures
        match r {
            Ok(layer) => layer.tree() == kind_tree(value),
            Err(rest) => rest == value && !is_typed(kind_tree(value)),
        },
{
    match value {
        rustdoc_types::ItemEnum::StructField(ty) => Ok(KindLayer::StructField(ty)),
        rustdoc_types::ItemEnum::Constant { type_, .. } => Ok(KindLayer::Constant(type_)),
        rustdoc_types::ItemEnum::Static(s) => Ok(KindLayer::Static(s.type_)),
        rustdoc_types::ItemEnum::AssocConst { type_, .. } => Ok(KindLayer::AssocConst(type_)),
        rustdoc_types::ItemEnum::TypeAlias(alias) => {
            Ok(KindLayer::TypeAlias { type_: alias.type_, generics: alias.generics })
        },
        rustdoc_types::ItemEnum::AssocType { generics, bounds, type_, .. } => {
            Ok(KindLayer::AssocType { generics, bounds, type_ })
        },
        rest => Err(rest),
    }
}

/// Takes apart a `rustdoc_types::ItemEnum` that is a type of the crate, a variant
/// or a function, and hands any other back.
#[verifier::external_body]
fn definition_layer(value: rustdoc_types::ItemEnum) -> (r: Result<
    KindLayer,
    rustdoc_types::ItemEnum,
>)
    ensures
        match r {
            Ok(layer) => layer.tree() == kind_tree(value),
            Err(rest) => rest == value && !is_definition(kind_tree(value)),
        },
{
    match value {
        rustdoc_types::ItemEnum::Union(u) => Ok(KindLayer::Union(u.generics)),
        rustdoc_types::ItemEnum::Struct(s) => {
            Ok(KindLayer::Struct { fields: s.kind, generics: s.generics })
        },
        rustdoc_types::ItemEnum::Enum(e) => Ok(KindLayer::Enum(e.generics)),
        rustdoc_types::ItemEnum::Variant(v) => Ok(KindLayer::Variant(v.kind)),
        rustdoc_types::ItemEnum::Function(f) => {
            Ok(KindLayer::Function { sig: f.sig, generics: f.generics })
        },
        rest => Err(rest),
    }
}

/// Takes apart a `rustdoc_types::ItemEnum` that is a trait, a trait alias or an
/// impl, and hands any other back. The parts of a trait and of an impl are given
/// by their ids, in order.
#[verifier::external_body]
fn traits_layer(value: rustdoc_types::ItemEnum) -> (r: Result<KindLayer, rustdoc_types::ItemEnum>)
    ensures
        match r {
            Ok(layer) => layer.tree() == kind_tree(value),
            Err(rest) => rest == value && !is_about_traits(kind_tree(value)),
        },
{
    match value {
        rustdoc_types::ItemEnum::TraitAlias(t) => {
            Ok(KindLayer::TraitAlias { generics: t.generics, params: t.params })
        },
        rustdoc_types::ItemEnum::Trait(t) => {
            let items = t.items.into_iter().map(|id| id.0).collect();
            Ok(KindLayer::Trait { generics: t.generics, bounds: t.bounds, items })
        },
        rustdoc_types::ItemEnum::Impl(i) => {
            let items = i.items.into_iter().map(|id| id.0).collect();
            let (generics, trait_, for_) = (i.generics, i.trait_, i.for_);
            Ok(KindLayer::Impl { generics, trait_, for_, items })
        },
        rest => Err(rest),
    }
}

fn kind_layer(value: rustdoc_types::ItemEnum) -> (layer: KindLayer)
    ensures
        layer.tree() == kind_tree(value),
{
    let rest = match bare_layer(value) {
        Ok(layer) => return layer,
        Err(rest) => rest,
    };
    let rest = match typed_layer(rest) {
        Ok(layer) => return layer,
        Err(rest) => rest,
    };
    let rest = match definition_layer(rest) {
        Ok(layer) => return layer,
        Err(rest) => rest,
    };
    match traits_layer(rest) {
        Ok(layer) => layer,
        Err(_) => {
            assert(false);
            KindLayer::Module
        },
    }
}

/// Takes a `rustdoc_types::StructKind` apart by its variant; its fields are given
/// by their ids, in order.
#[verifier::external_body]
fn to_struct_fields(value: rustdoc_types::StructKind) -> (r: DocFields)
    ensures
        r@ == struct_fields(value),
{
    match value {
        rustdoc_types::StructKind::Unit => DocFields::Unit,
        rustdoc_types::StructKind::Tuple(fields) => {
            DocFields::Tuple(fields.into_iter().map(|f| f.map(|id| id.0)).collect())
        },
        rustdoc_types::StructKind::Plain { fields, .. } => {
            DocFields::Named(fields.into_iter().map(|id| id.0).collect())
        },
    }
}

/// Takes a `rustdoc_types::VariantKind` apart by its variant; its fields are given
/// by their ids, in order.
#[verifier::external_body]
fn to_variant_fields(value: rustdoc_types::VariantKind) -> (r: DocFields)
    ensures
        r@ == variant_fields(value),
{
    match value {
        rustdoc_types::VariantKind::Plain => DocFields::Unit,
        rustdoc_types::VariantKind::Tuple(fields) => {
            DocFields::Tuple(fields.into_iter().map(|f| f.map(|id| id.0)).collect())
        },
        rustdoc_types::VariantKind::Struct { fields, .. } => {
            DocFields::Named(fields.into_iter().map(|id| id.0).collect())
        },
    }
}

fn to_type_list(list: Vec<rustdoc_types::Type>) -> (r: Vec<DocType>)
    ensures
        types_of(r@) == type_trees(list@),
    decreases type_trees(list@),
{
    let ghost all = list@;
    let ghost trees = type_trees(all);
    let mut r: Vec<DocType> = Vec::new();
    for x in iter: list
        invariant
            iter.seq() == all,
            trees == type_trees(all),
            trees == type_trees(list@),
            r@.len() == iter.index(),
            forall|i: int| 0 <= i < r@.len() ==> (#[trigger] r@[i]).tree() == trees[i],
    {
        let ghost index = iter.index() as int;
        assert(trees[index] == type_tree(x));
        assert(decreases_to!(trees => trees[index]));
        r.push(to_type(x));
    }
    assert(types_of(r@) =~= trees);
    r
}

fn to_path_list(list: Vec<rustdoc_types::Path>) -> (r: Vec<DocPath>)
    ensures
        paths_of(r@) == path_trees(list@),
    decreases path_trees(list@),
{
    let ghost all = list@;
    let ghost trees = path_trees(all);
    let mut r: Vec<DocPath> = Vec::new();
    for x in iter: list
        invariant
            iter.seq() == all,
            trees == path_trees(all),
            trees == path_trees(list@),
            r@.len() == iter.index(),
            forall|i: int| 0 <= i < r@.len() ==> (#[trigger] r@[i]).tree() == trees[i],
    {
        let ghost index = iter.index() as int;
        assert(trees[index] == path_tree(x));
        assert(decreases_to!(trees => trees[index]));
        r.push(to_path(x));
    }
    assert(paths_of(r@) =~= trees);
    r
}

fn to_bound_list(list: Vec<rustdoc_types::GenericBound>) -> (r: Vec<DocBound>)
    ensures
        bounds_of(r@) == bound_trees(list@),
    decreases bound_trees(list@),
{
    let ghost all = list@;
    let ghost trees = bound_trees(all);
    let mut r: Vec<DocBound> = Vec::new();
    for x in iter: list
        invariant
            iter.seq() == all,
            trees == bound_trees(all),
            trees == bound_trees(list@),
            r@.len() == iter.index(),
            forall|i: int| 0 <= i < r@.len() ==> (#[trigger] r@[i]).tree() == trees[i],
    {
        let ghost index = iter.index() as int;
        assert(trees[index] == bound_tree(x));
        assert(decreases_to!(trees => trees[index]));
        r.push(to_bound(x));
    }
    assert(bounds_of(r@) =~= trees);
    r
}

fn to_arg_list(list: Vec<rustdoc_types::GenericArg>) -> (r: Vec<DocArg>)
    ensures
        args_of(r@) == arg_trees(list@),
    decreases arg_trees(list@),
{
    let ghost all = list@;
    let ghost trees = arg_trees(all);
    let mut r: Vec<DocArg> = Vec::new();
    for x in iter: list
        invariant
            iter.seq() == all,
            trees == arg_trees(all),
            trees == arg_trees(list@),
            r@.len() == iter.index(),
            forall|i: int| 0 <= i < r@.len() ==> (#[trigger] r@[i]).tree() == trees[i],
    {
        let ghost index = iter.index() as int;
        assert(trees[index] == arg_tree(x));
        assert(decreases_to!(trees => trees[index]));
        r.push(to_arg(x));
    }
    assert(args_of(r@) =~= trees);
    r
}

fn to_constraint_list(list: Vec<rustdoc_types::AssocItemConstraint>) -> (r: Vec<DocConstraint>)
    ensures
        constraints_of(r@) == constraint_trees(list@),
    decreases constraint_trees(list@),
{
    let ghost all = list@;
    let ghost trees = constraint_trees(all);
    let mut r: Vec<DocConstraint> = Vec::new();
    for x in iter: list
        invariant
            iter.seq() == all,
            trees == constraint_trees(all),
            trees == constraint_trees(list@),
            r@.len() == iter.index(),
            forall|i: int| 0 <= i < r@.len() ==> (#[trigger] r@[i]).tree() == trees[i],
    {
        let ghost index = iter.index() as int;
        assert(trees[index] == constraint_tree(x));
        assert(decreases_to!(trees => trees[index]));
        r.push(to_constraint(x));
    }
    assert(constraints_of(r@) =~= trees);
    r
}

fn to_param_list(list: Vec<rustdoc_types::GenericParamDef>) -> (r: Vec<DocParam>)
    ensures
        params_of(r@) == param_trees(list@),
{
    let ghost all = list@;
    let ghost trees = param_trees(all);
    let mut r: Vec<DocParam> = Vec::new();
    for x in iter: list
        invariant
            iter.seq() == all,
            trees == param_trees(all),
            r@.len() == iter.index(),
            forall|i: int| 0 <= i < r@.len() ==> (#[trigger] r@[i]).tree() == trees[i],
    {
        let ghost index = iter.index() as int;
        assert(trees[index] == param_tree(x));
        r.push(to_param(x));
    }
    assert(params_of(r@) =~= trees);
    r
}

fn to_predicate_list(list: Vec<rustdoc_types::WherePredicate>) -> (r: Vec<DocPredicate>)
    ensures
        predicates_of(r@) == predicate_trees(list@),
{
    let ghost all = list@;
    let ghost trees = predicate_trees(all);
    let mut r: Vec<DocPredicate> = Vec::new();
    for x in iter: list
        invariant
            iter.seq() == all,
            trees == predicate_trees(all),
            r@.len() == iter.index(),
            forall|i: int| 0 <= i < r@.len() ==> (#[trigger] r@[i]).tree() == trees[i],
    {
        let ghost index = iter.index() as int;
        assert(trees[index] == predicate_tree(x));
        r.push(to_predicate(x));
    }
    assert(predicates_of(r@) =~= trees);
    r
}

fn to_type(value: rustdoc_types::Type) -> (r: DocType)
    ensures
        r.tree() == type_tree(value),
    decreases type_tree(value),
{
    let ghost tree = type_tree(value);
    match type_layer(value) {
        TypeLayer::ResolvedPath(path) => {
            assert(decreases_to!(tree => tree->ResolvedPath_0));
            DocType::ResolvedPath(to_path(path))
        },
        TypeLayer::DynTrait(traits) => {
            assert(decreases_to!(tree => tree->DynTrait_0));
            DocType::DynTrait(to_path_list(traits))
        },
        TypeLayer::Generic(name) => DocType::Generic(name),
        TypeLayer::Primitive(name) => DocType::Primitive(name),
        TypeLayer::FunctionPointer(sig) => {
            assert(decreases_to!(tree => *tree->FunctionPointer_0));
            DocType::FunctionPointer(Box::new(to_signature(*sig)))
        },
        TypeLayer::Tuple(types) => {
            assert(decreases_to!(tree => tree->Tuple_0));
            DocType::Tuple(to_type_list(types))
        },
        TypeLayer::Slice(inner) => {
            assert(decreases_to!(tree => *tree->Slice_0));
            DocType::Slice(Box::new(to_type(*inner)))
        },
        TypeLayer::Array(inner) => {
            assert(decreases_to!(tree => *tree->Array_0));
            DocType::Array(Box::new(to_type(*inner)))
        },
        TypeLayer::Pat(inner) => {
            assert(decreases_to!(tree => *tree->Pat_0));
            DocType::Pat(Box::new(to_type(*inner)))
        },
        TypeLayer::ImplTrait(bounds) => {
            assert(decreases_to!(tree => tree->ImplTrait_0));
            DocType::ImplTrait(to_bound_list(bounds))
        },
        TypeLayer::Infer => DocType::Infer,
        TypeLayer::RawPointer(inner) => {
            assert(decreases_to!(tree => *tree->RawPointer_0));
            DocType::RawPointer(Box::new(to_type(*inner)))
        },
        TypeLayer::BorrowedRef(inner) => {
            assert(decreases_to!(tree => *tree->BorrowedRef_0));
            DocType::BorrowedRef(Box::new(to_type(*inner)))
        },
        TypeLayer::QualifiedPath { self_type, trait_, args } => {
            assert(decreases_to!(tree => *tree->QualifiedPath_self_type));
            assert(decreases_to!(tree => tree->QualifiedPath_trait_));
            assert(tree->QualifiedPath_trait_ is Some ==> decreases_to!(
                tree->QualifiedPath_trait_ => tree->QualifiedPath_trait_->0
            ));
            assert(decreases_to!(tree => tree->QualifiedPath_args));
            assert(tree->QualifiedPath_args is Some ==> decreases_to!(
                tree->QualifiedPath_args => *tree->QualifiedPath_args->0
            ));
            DocType::QualifiedPath {
                self_type: Box::new(to_type(*self_type)),
                trait_: match trait_ {
                    Some(x) => Some(to_path(x)),
                    None => None,
                },
                args: match args {
                    Some(x) => Some(Box::new(to_args(*x))),
                    None => None,
                },
            }
        },
    }
}

fn to_path(value: rustdoc_types::Path) -> (r: DocPath)
    ensures
        r.tree() == path_tree(value),
    decreases path_tree(value),
{
    let ghost tree = path_tree(value);
    let layer = path_layer(value);
    assert(decreases_to!(tree => tree.args));
    assert(tree.args is Some ==> decreases_to!(tree.args => *tree.args->0));
    DocPath {
        path: layer.path,
        id: layer.id,
        args: match layer.args {
            Some(x) => Some(Box::new(to_args(*x))),
            None => None,
        },
    }
}

fn to_args(value: rustdoc_types::GenericArgs) -> (r: DocArgs)
    ensures
        r.tree() == args_tree(value),
    decreases args_tree(value),
{
    let ghost tree = args_tree(value);
    match args_layer(value) {
        ArgsLayer::AngleBracketed { args, constraints } => {
            assert(decreases_to!(tree => tree->AngleBracketed_args));
            assert(decreases_to!(tree => tree->AngleBracketed_constraints));
            DocArgs::AngleBracketed {
                args: to_arg_list(args),
                constraints: to_constraint_list(constraints),
            }
        },
        ArgsLayer::Parenthesized { inputs, output } => {
            assert(decreases_to!(tree => tree->Parenthesized_inputs));
            assert(decreases_to!(tree => tree->Parenthesized_output));
            assert(tree->Parenthesized_output is Some ==> decreases_to!(
                tree->Parenthesized_output => tree->Parenthesized_output->0
            ));
            DocArgs::Parenthesized {
                inputs: to_type_list(inputs),
                output: match output {
                    Some(x) => Some(to_type(x)),
                    None => None,
                },
            }
        },
        ArgsLayer::ReturnTypeNotation => DocArgs::ReturnTypeNotation,
    }
}

fn to_arg(value: rustdoc_types::GenericArg) -> (r: DocArg)
    ensures
        r.tree() == arg_tree(value),
    decreases arg_tree(value),
{
    let ghost tree = arg_tree(value);
    match arg_layer(value) {
        ArgLayer::Lifetime => DocArg::Lifetime,
        ArgLayer::Type(ty) => {
            assert(decreases_to!(tree => tree->Type_0));
            DocArg::Type(to_type(ty))
        },
        ArgLayer::Const => DocArg::Const,
        ArgLayer::Infer => DocArg::Infer,
    }
}

fn to_constraint(value: rustdoc_types::AssocItemConstraint) -> (r: DocConstraint)
    ensures
        r.tree() == constraint_tree(value),
    decreases constraint_tree(value),
{
    let ghost tree = constraint_tree(value);
    match constraint_layer(value) {
        ConstraintLayer::Equality(ty) => {
            assert(decreases_to!(tree => tree->Equality_0));
            assert(tree->Equality_0 is Some ==> decreases_to!(
                tree->Equality_0 => tree->Equality_0->0
            ));
            DocConstraint::Equality(match ty {
                    Some(x) => Some(to_type(x)),
                    None => None,
            })
        },
        ConstraintLayer::Bounds(bounds) => {
            assert(decreases_to!(tree => tree->Bounds_0));
            DocConstraint::Bounds(to_bound_list(bounds))
        },
    }
}

fn to_bound(value: rustdoc_types::GenericBound) -> (r: DocBound)
    ensures
        r.tree() == bound_tree(value),
    decreases bound_tree(value),
{
    let ghost tree = bound_tree(value);
    match bound_layer(value) {
        BoundLayer::TraitBound(path) => {
            assert(decreases_to!(tree => tree->TraitBound_0));
            DocBound::TraitBound(to_path(path))
        },
        BoundLayer::Outlives => DocBound::Outlives,
        BoundLayer::Use => DocBound::Use,
    }
}

fn to_signature(value: rustdoc_types::FunctionSignature) -> (r: DocSignature)
    ensures
        r.tree() == signature_tree(value),
    decreases signature_tree(value),
{
    let ghost tree = signature_tree(value);
    let layer = signature_layer(value);
    assert(decreases_to!(tree => tree.inputs));
    assert(decreases_to!(tree => tree.output));
    assert(tree.output is Some ==> decreases_to!(tree.output => tree.output->0));
    DocSignature {
        inputs: to_type_list(layer.inputs),
        output: match layer.output {
            Some(x) => Some(to_type(x)),
            None => None,
        },
    }
}

fn to_param(value: rustdoc_types::GenericParamDef) -> (r: DocParam)
    ensures
        r.tree() == param_tree(value),
{
    match param_layer(value) {
        ParamLayer::Lifetime => DocParam::Lifetime,
        ParamLayer::Type { bounds, default } => DocParam::Type {
            bounds: to_bound_list(bounds),
            default: match default {
                Some(x) => Some(to_type(x)),
                None => None,
            },
        },
        ParamLayer::Const => DocParam::Const,
    }
}

fn to_predicate(value: rustdoc_types::WherePredicate) -> (r: DocPredicate)
    ensures
        r.tree() == predicate_tree(value),
{
    match predicate_layer(value) {
        PredicateLayer::BoundPredicate { type_, bounds } => DocPredicate::BoundPredicate {
            type_: to_type(type_),
            bounds: to_bound_list(bounds),
        },
        PredicateLayer::LifetimePredicate => DocPredicate::LifetimePredicate,
        PredicateLayer::EqPredicate { lhs, rhs } => DocPredicate::EqPredicate {
            lhs: to_type(lhs),
            rhs: match rhs {
                Some(x) => Some(to_type(x)),
                None => None,
            },
        },
    }
}

fn to_generics(value: rustdoc_types::Generics) -> (r: DocGenerics)
    ensures
        r.tree() == generics_tree(value),
{
    let layer = generics_layer(value);
    DocGenerics {
        params: to_param_list(layer.params),
        where_predicates: to_predicate_list(layer.where_predicates),
    }
}

fn to_kind(value: rustdoc_types::ItemEnum) -> (r: DocKind)
    ensures
        r.tree() == kind_tree(value),
{
    match kind_layer(value) {
        KindLayer::Module => DocKind::Module,
        KindLayer::ExternCrate => DocKind::ExternCrate,
        KindLayer::Use(target) => DocKind::Use(target),
        KindLayer::Union(generics) => DocKind::Union(to_generics(generics)),
        KindLayer::Struct { fields, generics } => DocKind::Struct {
            fields: to_struct_fields(fields),
            generics: to_generics(generics),
        },
        KindLayer::StructField(ty) => DocKind::StructField(to_type(ty)),
        KindLayer::Enum(generics) => DocKind::Enum(to_generics(generics)),
        KindLayer::Variant(fields) => DocKind::Variant(to_variant_fields(fields)),
        KindLayer::Function { sig, generics } => DocKind::Function {
            sig: to_signature(sig),
            generics: to_generics(generics),
        },
        KindLayer::Trait { generics, bounds, items } => DocKind::Trait {
            generics: to_generics(generics),
            bounds: to_bound_list(bounds),
            items: items,
        },
        KindLayer::TraitAlias { generics, params } => DocKind::TraitAlias {
            generics: to_generics(generics),
            params: to_bound_list(params),
        },
        KindLayer::Impl { generics, trait_, for_, items } => DocKind::Impl {
            generics: to_generics(generics),
            trait_: match trait_ {
                Some(x) => Some(to_path(x)),
                None => None,
            },
            for_: to_type(for_),
            items: items,
        },
        KindLayer::TypeAlias { type_, generics } => DocKind::TypeAlias {
            type_: to_type(type_),
            generics: to_generics(generics),
        },
        KindLayer::Constant(ty) => DocKind::Constant(to_type(ty)),
        KindLayer::Static(ty) => DocKind::Static(to_type(ty)),
        KindLayer::ExternType => DocKind::ExternType,
        KindLayer::Macro => DocKind::Macro,
        KindLayer::ProcMacro => DocKind::ProcMacro,
        KindLayer::Primitive => DocKind::Primitive,
        KindLayer::AssocConst(ty) => DocKind::AssocConst(to_type(ty)),
        KindLayer::AssocType { generics, bounds, type_ } => DocKind::AssocType {
            generics: to_generics(generics),
            bounds: to_bound_list(bounds),
            type_: match type_ {
                Some(x) => Some(to_type(x)),
                None => None,
            },
        },
    }
}

/// The parts of a `rustdoc_types::Crate`. Its maps are given as lists of their
/// entries, in no particular order.
struct CrateLayer {
    items: Vec<(u32, Option<String>, rustdoc_types::ItemEnum)>,
    paths: Vec<(u32, DocSummary)>,
    external_crates: Vec<(u32, String)>,
}

/// The map with an entry for each pair of a list; where a key occurs twice, the
/// later pair counts.
pub open spec fn by_id<V>(pairs: Seq<(u32, V)>) -> Map<u32, V>
    decreases pairs.len(),
{
    if pairs.len() == 0 {
        Map::empty()
    } else {
        by_id(pairs.drop_last()).insert(pairs.last().0, pairs.last().1)
    }
}

/// What an item with a name says.
spec fn item_tree(name: Option<String>, inner: rustdoc_types::ItemEnum) -> ItemView {
    ItemView {
        name: match name {
            Some(name) => Some(name@),
            None => None,
        },
        inner: kind_tree(inner),
    }
}

impl CrateLayer {
    spec fn item_pairs(self) -> Seq<(u32, ItemView)> {
        self.items@.map_values(
            |e: (u32, Option<String>, rustdoc_types::ItemEnum)| (e.0, item_tree(e.1, e.2)),
        )
    }

    spec fn path_pairs(self) -> Seq<(u32, SummaryView)> {
        self.paths@.map_values(|e: (u32, DocSummary)| (e.0, e.1@))
    }

    spec fn crate_pairs(self) -> Seq<(u32, Seq<char>)> {
        self.external_crates@.map_values(|e: (u32, String)| (e.0, e.1@))
    }

    spec fn docs(self) -> DocsView {
        DocsView {
            items: by_id(self.item_pairs()),
            paths: by_id(self.path_pairs()),
            external_crates: by_id(self.crate_pairs()),
        }
    }
}

/// Takes a `rustdoc_types::Crate` apart into the entries of its `index`, `paths`
/// and `external_crates`, each with its key: of an item the name and what it is,
/// of a place the crate and the path, of a crate the name. The keys of a hash map
/// are distinct, so the order of the entries does not matter.
#[verifier::external_body]
fn crate_layer(value: rustdoc_types::Crate) -> (layer: CrateLayer)
    ensures
        layer.docs() == crate_docs(value),
{
    let (index, paths, crates) = (value.index, value.paths, value.external_crates);
    CrateLayer {
        items: index.into_iter().map(|(id, item)| (id.0, item.name, item.inner)).collect(),
        paths: paths
            .into_iter()
            .map(|(id, s)| (id.0, DocSummary { crate_id: s.crate_id, path: s.path }))
            .collect(),
        external_crates: crates.into_iter().map(|(id, krate)| (id, krate.name)).collect(),
    }
}

/// `serde_json::from_str` reads the JSON of a `rustdoc_types::Crate`; what it
/// reads depends on the text alone.
#[verifier::external_body]
fn json_parse(text: &str) -> (r: Result<rustdoc_types::Crate, serde_json::Error>)
    ensures
        match r {
            Ok(value) => rustdoc_document(text@) == Some(crate_docs(value)),
            Err(_) => rustdoc_document(text@) is None,
        },
{
    serde_json::from_str(text)
}

fn to_docs(layer: CrateLayer) -> (r: Docs)
    ensures
        r@ == layer.docs(),
{
    broadcast use vstd::std_specs::btree::group_btree_axioms;
    broadcast use vstd::std_specs::hash::group_hash_axioms;

    let ghost item_pairs = layer.item_pairs();
    let ghost path_pairs = layer.path_pairs();
    let ghost crate_pairs = layer.crate_pairs();
    let CrateLayer { items, paths, external_crates } = layer;
    let mut docs = Docs {
        items: BTreeMap::new(),
        paths: HashMap::new(),
        external_crates: BTreeMap::new(),
    };
    assert(docs@ =~= (DocsView {
        items: by_id(item_pairs.take(0)),
        paths: by_id(path_pairs.take(0)),
        external_crates: by_id(crate_pairs.take(0)),
    }));
    for entry in iter: items
        invariant
            item_pairs == iter.seq().map_values(
                |e: (u32, Option<String>, rustdoc_types::ItemEnum)| (e.0, item_tree(e.1, e.2)),
            ),
            docs@ == (DocsView {
                items: by_id(item_pairs.take(iter.index())),
                paths: by_id(path_pairs.take(0)),
                external_crates: by_id(crate_pairs.take(0)),
            }),
    {
        broadcast use vstd::std_specs::btree::group_btree_axioms;

        let ghost few = item_pairs.take(iter.index());
        let ghost more = item_pairs.take(iter.index() + 1);
        let ghost before = docs.items@;
        let (id, name, inner) = entry;
        let item = DocItem { name, inner: to_kind(inner) };
        assert(more.drop_last() =~= few);
        assert(more.last() == (id, item@));
        docs.items.insert(id, item);
        assert(items_of(docs.items@) =~= items_of(before).insert(id, item@));
    }
    for entry in iter: paths
        invariant
            path_pairs == iter.seq().map_values(|e: (u32, DocSummary)| (e.0, e.1@)),
            docs@ == (DocsView {
                items: by_id(item_pairs.take(item_pairs.len() as int)),
                paths: by_id(path_pairs.take(iter.index())),
                external_crates: by_id(crate_pairs.take(0)),
            }),
    {
        broadcast use vstd::std_specs::hash::group_hash_axioms;

        let ghost few = path_pairs.take(iter.index());
        let ghost more = path_pairs.take(iter.index() + 1);
        let ghost before = docs.paths@;
        let (id, summary) = entry;
        assert(more.drop_last() =~= few);
        assert(more.last() == (id, summary@));
        docs.paths.insert(id, summary);
        assert(places_of(docs.paths@) =~= places_of(before).insert(id, summary@));
    }
    for entry in iter: external_crates
        invariant
            crate_pairs == iter.seq().map_values(|e: (u32, String)| (e.0, e.1@)),
            docs@ == (DocsView {
                items: by_id(item_pairs.take(item_pairs.len() as int)),
                paths: by_id(path_pairs.take(path_pairs.len() as int)),
                external_crates: by_id(crate_pairs.take(iter.index())),
            }),
    {
        broadcast use vstd::std_specs::btree::group_btree_axioms;

        let ghost few = crate_pairs.take(iter.index());
        let ghost more = crate_pairs.take(iter.index() + 1);
        let ghost before = docs.external_crates@;
        let (id, name) = entry;
        assert(more.drop_last() =~= few);
        assert(more.last() == (id, name@));
        docs.external_crates.insert(id, name);
        assert(name_texts(docs.external_crates@) =~= name_texts(before).insert(id, name@));
    }
    assert(item_pairs.take(item_pairs.len() as int) =~= item_pairs);
    assert(path_pairs.take(path_pairs.len() as int) =~= path_pairs);
    assert(crate_pairs.take(crate_pairs.len() as int) =~= crate_pairs);
    docs
}

/// Read the documentation of a crate from rustdoc's JSON; `None` where the text is
/// not the JSON of a crate's documentation.
pub fn parse_rustdoc(json: &str) -> (r: Option<Docs>)
    ensures
        match r {
            Some(docs) => rustdoc_document(json@) == Some(docs@),
            None => rustdoc_document(json@) is None,
        },
{
    match json_parse(json) {
        Ok(krate) => Some(to_docs(crate_layer(krate))),
        Err(_) => None,
    }
}

} // verus!
