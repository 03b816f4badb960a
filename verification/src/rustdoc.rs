//! What is read of the documentation of a crate's public API.
use std::collections::{BTreeMap, HashMap};

use vstd::prelude::*;

use crate::text::texts;

verus! {

/// A type in a public signature.
#[derive(Debug)]
pub enum DocType {
    ResolvedPath(DocPath),
    /// The traits of a trait object.
    DynTrait(Vec<DocPath>),
    /// A type parameter.
    Generic(String),
    Primitive(String),
    FunctionPointer(Box<DocSignature>),
    Tuple(Vec<DocType>),
    Slice(Box<DocType>),
    Array(Box<DocType>),
    Pat(Box<DocType>),
    ImplTrait(Vec<DocBound>),
    Infer,
    RawPointer(Box<DocType>),
    BorrowedRef(Box<DocType>),
    QualifiedPath { self_type: Box<DocType>, trait_: Option<DocPath>, args: Option<Box<DocArgs>> },
}

/// A path that names an item.
#[derive(Debug)]
pub struct DocPath {
    /// The path as it is written.
    pub path: String,
    /// The item.
    pub id: u32,
    /// The generic arguments of its last segment.
    pub args: Option<Box<DocArgs>>,
}

/// The generic arguments of a path.
#[derive(Debug)]
pub enum DocArgs {
    AngleBracketed { args: Vec<DocArg>, constraints: Vec<DocConstraint> },
    Parenthesized { inputs: Vec<DocType>, output: Option<DocType> },
    ReturnTypeNotation,
}

/// One generic argument.
#[derive(Debug)]
pub enum DocArg {
    Lifetime,
    Type(DocType),
    Const,
    Infer,
}

/// A constraint on an associated item.
#[derive(Debug)]
pub enum DocConstraint {
    /// What the item equals, where that is a type.
    Equality(Option<DocType>),
    Bounds(Vec<DocBound>),
}

/// A bound on a type.
#[derive(Debug)]
pub enum DocBound {
    TraitBound(DocPath),
    Outlives,
    Use,
}

/// The types of a function's parameters and of its result.
#[derive(Debug)]
pub struct DocSignature {
    pub inputs: Vec<DocType>,
    pub output: Option<DocType>,
}

/// A generic parameter.
#[derive(Debug)]
pub enum DocParam {
    Lifetime,
    Type { bounds: Vec<DocBound>, default: Option<DocType> },
    Const,
}

/// A predicate of a `where` clause.
#[derive(Debug)]
pub enum DocPredicate {
    BoundPredicate { type_: DocType, bounds: Vec<DocBound> },
    LifetimePredicate,
    /// `rhs` is `None` where it is no type.
    EqPredicate { lhs: DocType, rhs: Option<DocType> },
}

/// The generic parameters of an item, and its `where` clause.
#[derive(Debug)]
pub struct DocGenerics {
    pub params: Vec<DocParam>,
    pub where_predicates: Vec<DocPredicate>,
}

/// The fields of a struct or of an enum's variant; a field of a tuple that is not
/// documented is `None`.
#[derive(Debug)]
pub enum DocFields {
    Unit,
    Tuple(Vec<Option<u32>>),
    Named(Vec<u32>),
}

/// What an item is.
#[allow(inconsistent_fields)]
#[derive(Debug)]
pub enum DocKind {
    Module,
    ExternCrate,
    /// The item that is imported.
    Use(Option<u32>),
    Union(DocGenerics),
    Struct { fields: DocFields, generics: DocGenerics },
    StructField(DocType),
    Enum(DocGenerics),
    Variant(DocFields),
    Function { sig: DocSignature, generics: DocGenerics },
    Trait { generics: DocGenerics, bounds: Vec<DocBound>, items: Vec<u32> },
    TraitAlias { generics: DocGenerics, params: Vec<DocBound> },
    Impl { generics: DocGenerics, trait_: Option<DocPath>, for_: DocType, items: Vec<u32> },
    TypeAlias { type_: DocType, generics: DocGenerics },
    Constant(DocType),
    Static(DocType),
    ExternType,
    Macro,
    ProcMacro,
    Primitive,
    AssocConst(DocType),
    AssocType { generics: DocGenerics, bounds: Vec<DocBound>, type_: Option<DocType> },
}

/// An item of the public API.
#[derive(Debug)]
pub struct DocItem {
    pub name: Option<String>,
    pub inner: DocKind,
}

/// Where an item is defined.
#[derive(Debug)]
pub struct DocSummary {
    /// The crate; zero stands for the documented crate itself.
    pub crate_id: u32,
    /// The segments of the item's full path.
    pub path: Vec<String>,
}

/// The documentation of a crate.
#[derive(Debug)]
pub struct Docs {
    /// The items of the public API by their ids.
    pub items: BTreeMap<u32, DocItem>,
    /// Where each item is defined.
    pub paths: HashMap<u32, DocSummary>,
    /// The names of the crates that the documented crate refers to, by their ids.
    pub external_crates: BTreeMap<u32, String>,
}

/// What a type says.
pub enum TypeView {
    ResolvedPath(PathView),
    DynTrait(Seq<PathView>),
    Generic(Seq<char>),
    Primitive(Seq<char>),
    FunctionPointer(Box<SignatureView>),
    Tuple(Seq<TypeView>),
    Slice(Box<TypeView>),
    Array(Box<TypeView>),
    Pat(Box<TypeView>),
    ImplTrait(Seq<BoundView>),
    Infer,
    RawPointer(Box<TypeView>),
    BorrowedRef(Box<TypeView>),
    QualifiedPath {
        self_type: Box<TypeView>,
        trait_: Option<PathView>,
        args: Option<Box<ArgsView>>,
    },
}

/// What a path says.
pub struct PathView {
    pub path: Seq<char>,
    pub id: u32,
    pub args: Option<Box<ArgsView>>,
}

/// What generic arguments say.
pub enum ArgsView {
    AngleBracketed { args: Seq<ArgView>, constraints: Seq<ConstraintView> },
    Parenthesized { inputs: Seq<TypeView>, output: Option<TypeView> },
    ReturnTypeNotation,
}

/// What a generic argument says.
pub enum ArgView {
    Lifetime,
    Type(TypeView),
    Const,
    Infer,
}

/// What a constraint says.
pub enum ConstraintView {
    Equality(Option<TypeView>),
    Bounds(Seq<BoundView>),
}

/// What a bound says.
pub enum BoundView {
    TraitBound(PathView),
    Outlives,
    Use,
}

/// What a signature says.
pub struct SignatureView {
    pub inputs: Seq<TypeView>,
    pub output: Option<TypeView>,
}

/// What a generic parameter says.
pub enum ParamView {
    Lifetime,
    Type { bounds: Seq<BoundView>, default: Option<TypeView> },
    Const,
}

/// What a predicate says.
pub enum PredicateView {
    BoundPredicate { type_: TypeView, bounds: Seq<BoundView> },
    LifetimePredicate,
    EqPredicate { lhs: TypeView, rhs: Option<TypeView> },
}

/// What generics say.
pub struct GenericsView {
    pub params: Seq<ParamView>,
    pub where_predicates: Seq<PredicateView>,
}

/// What the fields of a struct or a variant say.
pub enum FieldsView {
    Unit,
    Tuple(Seq<Option<u32>>),
    Named(Seq<u32>),
}

/// What an item says.
#[allow(inconsistent_fields)]
pub enum KindView {
    Module,
    ExternCrate,
    /// The item that is imported.
    Use(Option<u32>),
    Union(GenericsView),
    Struct { fields: FieldsView, generics: GenericsView },
    StructField(TypeView),
    Enum(GenericsView),
    Variant(FieldsView),
    Function { sig: SignatureView, generics: GenericsView },
    Trait { generics: GenericsView, bounds: Seq<BoundView>, items: Seq<u32> },
    TraitAlias { generics: GenericsView, params: Seq<BoundView> },
    Impl { generics: GenericsView, trait_: Option<PathView>, for_: TypeView, items: Seq<u32> },
    TypeAlias { type_: TypeView, generics: GenericsView },
    Constant(TypeView),
    Static(TypeView),
    ExternType,
    Macro,
    ProcMacro,
    Primitive,
    AssocConst(TypeView),
    AssocType { generics: GenericsView, bounds: Seq<BoundView>, type_: Option<TypeView> },
}

/// What an item and its name say.
pub struct ItemView {
    pub name: Option<Seq<char>>,
    pub inner: KindView,
}

/// Where an item is defined: its crate, and the segments of its full path.
pub struct SummaryView {
    pub crate_id: u32,
    pub path: Seq<Seq<char>>,
}

/// What the documentation of a crate says.
#[verifier::ext_equal]
pub struct DocsView {
    /// The items of the public API by their ids.
    pub items: Map<u32, ItemView>,
    /// Where each item is defined.
    pub paths: Map<u32, SummaryView>,
    /// The names of the crates that the documented crate refers to, by their ids.
    pub external_crates: Map<u32, Seq<char>>,
}

/// What a list of types says.
pub open spec fn types_of(list: Seq<DocType>) -> Seq<TypeView>
    decreases list,
{
    Seq::new(
        list.len(),
        |i: int|
            if 0 <= i < list.len() {
                list[i].tree()
            } else {
                arbitrary()
            },
    )
}

/// What a list of paths says.
pub open spec fn paths_of(list: Seq<DocPath>) -> Seq<PathView>
    decreases list,
{
    Seq::new(
        list.len(),
        |i: int|
            if 0 <= i < list.len() {
                list[i].tree()
            } else {
                arbitrary()
            },
    )
}

/// What a list of bounds says.
pub open spec fn bounds_of(list: Seq<DocBound>) -> Seq<BoundView>
    decreases list,
{
    Seq::new(
        list.len(),
        |i: int|
            if 0 <= i < list.len() {
                list[i].tree()
            } else {
                arbitrary()
            },
    )
}

/// What a list of generic arguments says.
pub open spec fn args_of(list: Seq<DocArg>) -> Seq<ArgView>
    decreases list,
{
    Seq::new(
        list.len(),
        |i: int|
            if 0 <= i < list.len() {
                list[i].tree()
            } else {
                arbitrary()
            },
    )
}

/// What a list of constraints says.
pub open spec fn constraints_of(list: Seq<DocConstraint>) -> Seq<ConstraintView>
    decreases list,
{
    Seq::new(
        list.len(),
        |i: int|
            if 0 <= i < list.len() {
                list[i].tree()
            } else {
                arbitrary()
            },
    )
}

/// What a list of generic parameters says.
pub open spec fn params_of(list: Seq<DocParam>) -> Seq<ParamView> {
    list.map_values(|x: DocParam| x.tree())
}

/// What a list of predicates says.
pub open spec fn predicates_of(list: Seq<DocPredicate>) -> Seq<PredicateView> {
    list.map_values(|x: DocPredicate| x.tree())
}

impl DocType {
    /// What a type says.
    pub open spec fn tree(self) -> TypeView
        decreases self,
    {
        match self {
            DocType::ResolvedPath(path) => TypeView::ResolvedPath(path.tree()),
            DocType::DynTrait(traits) => TypeView::DynTrait(paths_of(traits@)),
            DocType::Generic(name) => TypeView::Generic(name@),
            DocType::Primitive(name) => TypeView::Primitive(name@),
            DocType::FunctionPointer(sig) => TypeView::FunctionPointer(Box::new(sig.tree())),
            DocType::Tuple(types) => TypeView::Tuple(types_of(types@)),
            DocType::Slice(inner) => TypeView::Slice(Box::new(inner.tree())),
            DocType::Array(inner) => TypeView::Array(Box::new(inner.tree())),
            DocType::Pat(inner) => TypeView::Pat(Box::new(inner.tree())),
            DocType::ImplTrait(bounds) => TypeView::ImplTrait(bounds_of(bounds@)),
            DocType::Infer => TypeView::Infer,
            DocType::RawPointer(inner) => TypeView::RawPointer(Box::new(inner.tree())),
            DocType::BorrowedRef(inner) => TypeView::BorrowedRef(Box::new(inner.tree())),
            DocType::QualifiedPath { self_type, trait_, args } => TypeView::QualifiedPath {
                self_type: Box::new(self_type.tree()),
                trait_: match trait_ {
                    Some(x) => Some(x.tree()),
                    None => None,
                },
                args: match args {
                    Some(x) => Some(Box::new(x.tree())),
                    None => None,
                },
            },
        }
    }
}

impl DocPath {
    /// What a path says.
    pub open spec fn tree(self) -> PathView
        decreases self,
    {
        PathView {
            path: self.path@,
            id: self.id,
            args: match self.args {
                Some(x) => Some(Box::new(x.tree())),
                None => None,
            },
        }
    }
}

impl DocArgs {
    /// What generic arguments say.
    pub open spec fn tree(self) -> ArgsView
        decreases self,
    {
        match self {
            DocArgs::AngleBracketed { args, constraints } => ArgsView::AngleBracketed {
                args: args_of(args@),
                constraints: constraints_of(constraints@),
            },
            DocArgs::Parenthesized { inputs, output } => ArgsView::Parenthesized {
                inputs: types_of(inputs@),
                output: match output {
                    Some(x) => Some(x.tree()),
                    None => None,
                },
            },
            DocArgs::ReturnTypeNotation => ArgsView::ReturnTypeNotation,
        }
    }
}

impl DocArg {
    /// What a generic argument says.
    pub open spec fn tree(self) -> ArgView
        decreases self,
    {
        match self {
            DocArg::Lifetime => ArgView::Lifetime,
            DocArg::Type(ty) => ArgView::Type(ty.tree()),
            DocArg::Const => ArgView::Const,
            DocArg::Infer => ArgView::Infer,
        }
    }
}

impl DocConstraint {
    /// What a constraint says.
    pub open spec fn tree(self) -> ConstraintView
        decreases self,
    {
        match self {
            DocConstraint::Equality(ty) => ConstraintView::Equality(match ty {
                    Some(x) => Some(x.tree()),
                    None => None,
            }),
            DocConstraint::Bounds(bounds) => ConstraintView::Bounds(bounds_of(bounds@)),
        }
    }
}

impl DocBound {
    /// What a bound says.
    pub open spec fn tree(self) -> BoundView
        decreases self,
    {
        match self {
            DocBound::TraitBound(path) => BoundView::TraitBound(path.tree()),
            DocBound::Outlives => BoundView::Outlives,
            DocBound::Use => BoundView::Use,
        }
    }
}

impl DocSignature {
    /// What a signature says.
    pub open spec fn tree(self) -> SignatureView
        decreases self,
    {
        SignatureView {
            inputs: types_of(self.inputs@),
            output: match self.output {
                Some(x) => Some(x.tree()),
                None => None,
            },
        }
    }
}

impl DocParam {
    /// What a generic parameter says.
    pub open spec fn tree(self) -> ParamView {
        match self {
            DocParam::Lifetime => ParamView::Lifetime,
            DocParam::Type { bounds, default } => ParamView::Type {
                bounds: bounds_of(bounds@),
                default: match default {
                    Some(x) => Some(x.tree()),
                    None => None,
                },
            },
            DocParam::Const => ParamView::Const,
        }
    }
}

impl DocPredicate {
    /// What a predicate says.
    pub open spec fn tree(self) -> PredicateView {
        match self {
            DocPredicate::BoundPredicate { type_, bounds } => PredicateView::BoundPredicate {
                type_: type_.tree(),
                bounds: bounds_of(bounds@),
            },
            DocPredicate::LifetimePredicate => PredicateView::LifetimePredicate,
            DocPredicate::EqPredicate { lhs, rhs } => PredicateView::EqPredicate {
                lhs: lhs.tree(),
                rhs: match rhs {
                    Some(x) => Some(x.tree()),
                    None => None,
                },
            },
        }
    }
}

impl DocGenerics {
    /// What generics say.
    pub open spec fn tree(self) -> GenericsView {
        GenericsView {
            params: params_of(self.params@),
            where_predicates: predicates_of(self.where_predicates@),
        }
    }
}

impl DocKind {
    /// What an item says.
    pub open spec fn tree(self) -> KindView {
        match self {
            DocKind::Module => KindView::Module,
            DocKind::ExternCrate => KindView::ExternCrate,
            DocKind::Use(target) => KindView::Use(target),
            DocKind::Union(generics) => KindView::Union(generics.tree()),
            DocKind::Struct { fields, generics } => KindView::Struct {
                fields: fields@,
                generics: generics.tree(),
            },
            DocKind::StructField(ty) => KindView::StructField(ty.tree()),
            DocKind::Enum(generics) => KindView::Enum(generics.tree()),
            DocKind::Variant(fields) => KindView::Variant(fields@),
            DocKind::Function { sig, generics } => KindView::Function {
                sig: sig.tree(),
                generics: generics.tree(),
            },
            DocKind::Trait { generics, bounds, items } => KindView::Trait {
                generics: generics.tree(),
                bounds: bounds_of(bounds@),
                items: items@,
            },
            DocKind::TraitAlias { generics, params } => KindView::TraitAlias {
                generics: generics.tree(),
                params: bounds_of(params@),
            },
            DocKind::Impl { generics, trait_, for_, items } => KindView::Impl {
                generics: generics.tree(),
                trait_: match trait_ {
                    Some(x) => Some(x.tree()),
                    None => None,
                },
                for_: for_.tree(),
                items: items@,
            },
            DocKind::TypeAlias { type_, generics } => KindView::TypeAlias {
                type_: type_.tree(),
                generics: generics.tree(),
            },
            DocKind::Constant(ty) => KindView::Constant(ty.tree()),
            DocKind::Static(ty) => KindView::Static(ty.tree()),
            DocKind::ExternType => KindView::ExternType,
            DocKind::Macro => KindView::Macro,
            DocKind::ProcMacro => KindView::ProcMacro,
            DocKind::Primitive => KindView::Primitive,
            DocKind::AssocConst(ty) => KindView::AssocConst(ty.tree()),
            DocKind::AssocType { generics, bounds, type_ } => KindView::AssocType {
                generics: generics.tree(),
                bounds: bounds_of(bounds@),
                type_: match type_ {
                    Some(x) => Some(x.tree()),
                    None => None,
                },
            },
        }
    }
}

impl View for DocFields {
    type V = FieldsView;

    open spec fn view(&self) -> FieldsView {
        match self {
            DocFields::Unit => FieldsView::Unit,
            DocFields::Tuple(fields) => FieldsView::Tuple(fields@),
            DocFields::Named(fields) => FieldsView::Named(fields@),
        }
    }
}

impl View for DocItem {
    type V = ItemView;

    open spec fn view(&self) -> ItemView {
        ItemView {
            name: match self.name {
                Some(name) => Some(name@),
                None => None,
            },
            inner: self.inner.tree(),
        }
    }
}

impl View for DocSummary {
    type V = SummaryView;

    open spec fn view(&self) -> SummaryView {
        SummaryView { crate_id: self.crate_id, path: texts(self.path@) }
    }
}

/// What a map of items says.
pub open spec fn items_of(items: Map<u32, DocItem>) -> Map<u32, ItemView> {
    items.map_values(|item: DocItem| item@)
}

/// What a map of places says.
pub open spec fn places_of(paths: Map<u32, DocSummary>) -> Map<u32, SummaryView> {
    paths.map_values(|summary: DocSummary| summary@)
}

/// What a map of names by id says.
pub open spec fn name_texts(names: Map<u32, String>) -> Map<u32, Seq<char>> {
    names.map_values(|s: String| s@)
}

impl View for Docs {
    type V = DocsView;

    open spec fn view(&self) -> DocsView {
        DocsView {
            items: items_of(self.items@),
            paths: places_of(self.paths@),
            external_crates: name_texts(self.external_crates@),
        }
    }
}

} // verus!
