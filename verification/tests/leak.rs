use std::collections::{BTreeMap, HashMap};

use rustdoc_types as rd;
use semwave::leak::find_leaked_deps;
use semwave::rustdoc::{DocItem, DocKind, DocPath, DocSummary, DocType, Docs};
use semwave::rustdoc_json::parse_rustdoc;

const DEP: u32 = 7;

fn plain() -> rd::Generics {
    rd::Generics { params: vec![], where_predicates: vec![] }
}

fn path(id: u32) -> rd::Path {
    rd::Path { path: format!("P{}", id), id: rd::Id(id), args: None }
}

fn dep_path() -> rd::Path {
    path(100)
}

fn dep_type() -> rd::Type {
    rd::Type::ResolvedPath(dep_path())
}

fn own_type() -> rd::Type {
    rd::Type::ResolvedPath(path(1))
}

fn boxed() -> Box<rd::Type> {
    Box::new(dep_type())
}

fn item(id: u32, name: Option<&str>, inner: rd::ItemEnum) -> rd::Item {
    rd::Item {
        id: rd::Id(id),
        crate_id: 0,
        name: name.map(|s| s.to_string()),
        span: None,
        visibility: rd::Visibility::Public,
        docs: None,
        links: HashMap::new(),
        attrs: vec![],
        deprecation: None,
        stability: None,
        const_stability: None,
        inner,
    }
}

fn summary(crate_id: u32, segments: &[&str]) -> rd::ItemSummary {
    rd::ItemSummary {
        crate_id,
        path: segments.iter().map(|s| s.to_string()).collect(),
        kind: rd::ItemKind::Struct,
    }
}

fn paths() -> HashMap<rd::Id, rd::ItemSummary> {
    let mut paths = HashMap::new();
    paths.insert(rd::Id(1), summary(0, &["me", "Own"]));
    paths.insert(rd::Id(100), summary(DEP, &["dep", "sub", "Thing"]));
    paths.insert(rd::Id(101), summary(DEP, &["dep", "Other"]));
    paths.insert(rd::Id(200), summary(8, &["unrelated", "Type"]));
    paths
}

fn deps() -> HashMap<u32, String> {
    let mut deps = HashMap::new();
    deps.insert(DEP, "dep".to_string());
    deps
}

fn json(index: Vec<rd::Item>) -> String {
    let mut external_crates = HashMap::new();
    external_crates.insert(
        DEP,
        rd::ExternalCrate {
            name: "dep".to_string(),
            html_root_url: None,
            path: "/libdep.rlib".into(),
        },
    );
    let krate = rd::Crate {
        root: rd::Id(0),
        crate_version: None,
        includes_private: false,
        index: index.into_iter().map(|item| (item.id, item)).collect(),
        paths: paths(),
        external_crates,
        target: rd::Target { triple: String::new(), target_features: vec![] },
        format_version: rd::FORMAT_VERSION,
    };
    serde_json::to_string(&krate).unwrap()
}

fn docs(index: Vec<rd::Item>) -> Docs {
    parse_rustdoc(&json(index)).unwrap()
}

fn leaks(inner: rd::ItemEnum) -> bool {
    find_leaked_deps(&docs(vec![item(50, None, inner)]), &deps()).contains_key("dep")
}

fn mentions(ty: rd::Type) -> bool {
    leaks(rd::ItemEnum::StructField(ty))
}

fn with_args(args: rd::GenericArgs) -> rd::Type {
    rd::Type::ResolvedPath(rd::Path {
        path: "Own".to_string(),
        id: rd::Id(1),
        args: Some(Box::new(args)),
    })
}

fn poly(trait_: rd::Path) -> rd::PolyTrait {
    rd::PolyTrait { trait_, generic_params: vec![] }
}

fn header() -> rd::FunctionHeader {
    rd::FunctionHeader { is_const: false, is_unsafe: false, is_async: false, abi: rd::Abi::Rust }
}

fn sig(inputs: Vec<rd::Type>, output: Option<rd::Type>) -> rd::FunctionSignature {
    rd::FunctionSignature {
        inputs: inputs.into_iter().map(|ty| ("x".to_string(), ty)).collect(),
        output,
        is_c_variadic: false,
    }
}

fn pointer(sig: rd::FunctionSignature) -> rd::Type {
    rd::Type::FunctionPointer(Box::new(rd::FunctionPointer {
        sig,
        generic_params: vec![],
        header: header(),
    }))
}

fn trait_bound() -> rd::GenericBound {
    rd::GenericBound::TraitBound {
        trait_: dep_path(),
        generic_params: vec![],
        modifier: rd::TraitBoundModifier::None,
    }
}

fn constant() -> rd::Constant {
    rd::Constant { expr: "1".to_string(), value: None, is_literal: true }
}

fn qualified(
    self_type: rd::Type,
    trait_: Option<rd::Path>,
    args: Option<rd::GenericArgs>,
) -> rd::Type {
    rd::Type::QualifiedPath {
        name: "Out".to_string(),
        args: args.map(Box::new),
        self_type: Box::new(self_type),
        trait_,
    }
}

#[test]
fn types_leak_wherever_they_stand() {
    assert!(mentions(dep_type()));
    assert!(mentions(rd::Type::DynTrait(rd::DynTrait {
        traits: vec![poly(path(1)), poly(dep_path())],
        lifetime: None,
    })));
    assert!(mentions(pointer(sig(vec![own_type(), dep_type()], None))));
    assert!(mentions(pointer(sig(vec![], Some(dep_type())))));
    assert!(mentions(rd::Type::Tuple(vec![own_type(), dep_type()])));
    assert!(mentions(rd::Type::Slice(boxed())));
    assert!(mentions(rd::Type::Array { type_: boxed(), len: "3".to_string() }));
    assert!(mentions(rd::Type::Pat {
        type_: boxed(),
        __pat_unstable_do_not_use: "1..".to_string()
    }));
    assert!(mentions(rd::Type::RawPointer { is_mutable: false, type_: boxed() }));
    assert!(mentions(rd::Type::BorrowedRef {
        lifetime: None,
        is_mutable: false,
        type_: boxed()
    }));
    assert!(mentions(rd::Type::ImplTrait(vec![
        rd::GenericBound::Outlives("'a".to_string()),
        trait_bound()
    ])));
    assert!(mentions(qualified(dep_type(), None, None)));
    assert!(mentions(qualified(own_type(), Some(dep_path()), None)));
    assert!(mentions(qualified(
        own_type(),
        None,
        Some(rd::GenericArgs::Parenthesized { inputs: vec![], output: Some(dep_type()) })
    )));
}

#[test]
fn other_types_do_not_leak() {
    assert!(!mentions(own_type()));
    assert!(!mentions(rd::Type::Generic("T".to_string())));
    assert!(!mentions(rd::Type::Primitive("u8".to_string())));
    assert!(!mentions(rd::Type::Infer));
    assert!(!mentions(rd::Type::Tuple(vec![])));
    assert!(!mentions(rd::Type::ImplTrait(vec![rd::GenericBound::Use(vec![])])));
    assert!(!mentions(pointer(sig(vec![own_type()], Some(own_type())))));
    assert!(!mentions(qualified(own_type(), Some(path(1)), None)));
    assert!(!mentions(rd::Type::ResolvedPath(path(200))));
    assert!(!mentions(rd::Type::ResolvedPath(path(999))));
}

fn constraint(binding: rd::AssocItemConstraintKind) -> rd::AssocItemConstraint {
    rd::AssocItemConstraint { name: "Item".to_string(), args: None, binding }
}

#[test]
fn generic_arguments_leak() {
    let bracketed = |args, constraints| rd::GenericArgs::AngleBracketed { args, constraints };
    assert!(mentions(with_args(bracketed(
        vec![rd::GenericArg::Lifetime("'a".to_string()), rd::GenericArg::Type(dep_type())],
        vec![]
    ))));
    assert!(mentions(with_args(bracketed(
        vec![],
        vec![constraint(rd::AssocItemConstraintKind::Equality(rd::Term::Type(dep_type())))]
    ))));
    assert!(mentions(with_args(bracketed(
        vec![],
        vec![constraint(rd::AssocItemConstraintKind::Constraint(vec![trait_bound()]))]
    ))));
    assert!(mentions(with_args(rd::GenericArgs::Parenthesized {
        inputs: vec![dep_type()],
        output: None
    })));
    assert!(!mentions(with_args(bracketed(
        vec![rd::GenericArg::Const(constant()), rd::GenericArg::Infer],
        vec![constraint(rd::AssocItemConstraintKind::Equality(rd::Term::Constant(constant())))]
    ))));
    assert!(!mentions(with_args(rd::GenericArgs::ReturnTypeNotation)));
}

fn param(kind: rd::GenericParamDefKind) -> rd::GenericParamDef {
    rd::GenericParamDef { name: "T".to_string(), kind }
}

fn generics_of(kind: rd::GenericParamDefKind) -> rd::Generics {
    rd::Generics {
        params: vec![param(rd::GenericParamDefKind::Lifetime { outlives: vec![] }), param(kind)],
        where_predicates: vec![],
    }
}

fn clause(predicate: rd::WherePredicate) -> rd::Generics {
    let lifetime =
        rd::WherePredicate::LifetimePredicate { lifetime: "'a".to_string(), outlives: vec![] };
    rd::Generics { params: vec![], where_predicates: vec![lifetime, predicate] }
}

fn struct_of(kind: rd::StructKind, generics: rd::Generics) -> rd::ItemEnum {
    rd::ItemEnum::Struct(rd::Struct { kind, generics, impls: vec![] })
}

#[test]
fn generics_leak() {
    let unit = |generics| struct_of(rd::StructKind::Unit, generics);
    let type_param = |bounds, default| rd::GenericParamDefKind::Type {
        bounds,
        default,
        is_synthetic: false,
    };
    let bounded = |type_, bounds| rd::WherePredicate::BoundPredicate {
        type_,
        bounds,
        generic_params: vec![],
    };
    assert!(leaks(unit(generics_of(type_param(vec![trait_bound()], None)))));
    assert!(leaks(unit(generics_of(type_param(vec![], Some(dep_type()))))));
    assert!(leaks(rd::ItemEnum::Enum(rd::Enum {
        generics: clause(bounded(dep_type(), vec![])),
        has_stripped_variants: false,
        variants: vec![],
        impls: vec![],
    })));
    assert!(leaks(rd::ItemEnum::Union(rd::Union {
        generics: clause(bounded(own_type(), vec![trait_bound()])),
        has_stripped_fields: false,
        fields: vec![],
        impls: vec![],
    })));
    assert!(leaks(unit(clause(rd::WherePredicate::EqPredicate {
        lhs: dep_type(),
        rhs: rd::Term::Constant(constant())
    }))));
    assert!(leaks(unit(clause(rd::WherePredicate::EqPredicate {
        lhs: own_type(),
        rhs: rd::Term::Type(dep_type())
    }))));
    assert!(!leaks(unit(generics_of(rd::GenericParamDefKind::Const {
        type_: dep_type(),
        default: None
    }))));
    assert!(!leaks(unit(plain())));
}

fn imp(trait_: Option<rd::Path>, for_: rd::Type, items: Vec<u32>) -> rd::ItemEnum {
    rd::ItemEnum::Impl(rd::Impl {
        is_unsafe: false,
        generics: plain(),
        provided_trait_methods: vec![],
        trait_,
        for_,
        items: items.into_iter().map(rd::Id).collect(),
        is_negative: false,
        is_synthetic: false,
        blanket_impl: None,
    })
}

fn use_of(id: Option<u32>) -> rd::ItemEnum {
    rd::ItemEnum::Use(rd::Use {
        source: "dep".to_string(),
        name: "dep".to_string(),
        id: id.map(rd::Id),
        is_glob: false,
    })
}

fn assoc_const(type_: rd::Type) -> rd::ItemEnum {
    rd::ItemEnum::AssocConst { type_, value: None, default_unstable: None }
}

fn const_of(type_: rd::Type) -> rd::ItemEnum {
    rd::ItemEnum::Constant { type_, const_: constant() }
}

fn trait_of(bounds: Vec<rd::GenericBound>, items: Vec<u32>) -> rd::ItemEnum {
    rd::ItemEnum::Trait(rd::Trait {
        is_auto: false,
        is_unsafe: false,
        is_dyn_compatible: true,
        items: items.into_iter().map(rd::Id).collect(),
        generics: plain(),
        bounds,
        implementations: vec![],
    })
}

fn variant_of(kind: rd::VariantKind) -> rd::ItemEnum {
    rd::ItemEnum::Variant(rd::Variant { kind, discriminant: None })
}

fn function(sig: rd::FunctionSignature) -> rd::ItemEnum {
    rd::ItemEnum::Function(rd::Function {
        sig,
        generics: plain(),
        header: header(),
        has_body: true,
        default_unstable: None,
    })
}

fn assoc_type(bounds: Vec<rd::GenericBound>, type_: Option<rd::Type>) -> rd::ItemEnum {
    rd::ItemEnum::AssocType { generics: plain(), bounds, type_, default_unstable: None }
}

#[test]
fn items_leak() {
    assert!(leaks(use_of(Some(100))));
    assert!(leaks(function(sig(vec![dep_type()], None))));
    assert!(leaks(rd::ItemEnum::TypeAlias(rd::TypeAlias {
        type_: dep_type(),
        generics: plain()
    })));
    assert!(leaks(trait_of(vec![trait_bound()], vec![])));
    assert!(leaks(rd::ItemEnum::TraitAlias(rd::TraitAlias {
        generics: plain(),
        params: vec![trait_bound()]
    })));
    assert!(leaks(imp(None, dep_type(), vec![])));
    assert!(leaks(imp(Some(dep_path()), own_type(), vec![])));
    assert!(!leaks(imp(None, own_type(), vec![])));
    assert!(leaks(const_of(dep_type())));
    assert!(leaks(rd::ItemEnum::Static(rd::Static {
        type_: dep_type(),
        is_mutable: false,
        expr: String::new(),
        is_unsafe: false,
    })));
    assert!(leaks(assoc_const(dep_type())));
    assert!(leaks(assoc_type(vec![], Some(dep_type()))));
    assert!(leaks(assoc_type(vec![trait_bound()], None)));
    assert!(!leaks(use_of(None)));
    assert!(!leaks(use_of(Some(999))));
    assert!(!leaks(rd::ItemEnum::Module(rd::Module {
        is_crate: false,
        items: vec![],
        is_stripped: false,
    })));
    assert!(!leaks(rd::ItemEnum::ExternCrate { name: "dep".to_string(), rename: None }));
    assert!(!leaks(rd::ItemEnum::ExternType));
    assert!(!leaks(rd::ItemEnum::Macro("m".to_string())));
    assert!(!leaks(rd::ItemEnum::ProcMacro(rd::ProcMacro {
        kind: rd::MacroKind::Bang,
        helpers: vec![],
    })));
    assert!(!leaks(rd::ItemEnum::Primitive(rd::Primitive {
        name: "u8".to_string(),
        impls: vec![],
    })));
    assert!(!leaks(variant_of(rd::VariantKind::Plain)));
}

#[test]
fn leaks_are_named_and_sorted() {
    let named = |fields: Vec<u32>| rd::StructKind::Plain {
        fields: fields.into_iter().map(rd::Id).collect(),
        has_stripped_fields: false,
    };
    let index = vec![
        item(2, Some("Wrapper"), struct_of(named(vec![20]), plain())),
        item(20, Some("inner"), rd::ItemEnum::StructField(dep_type())),
        item(3, None, imp(Some(path(300)), own_type(), vec![30])),
        item(30, Some("Item"), assoc_const(dep_type())),
        item(1, Some("Own"), rd::ItemEnum::StructField(dep_type())),
        item(
            4,
            Some("Variant"),
            variant_of(rd::VariantKind::Tuple(vec![None, Some(rd::Id(40))])),
        ),
        item(40, None, rd::ItemEnum::StructField(rd::Type::ResolvedPath(path(101)))),
        item(5, None, use_of(Some(100))),
        item(6, Some("free"), const_of(dep_type())),
        item(8, None, imp(Some(dep_path()), rd::Type::Slice(Box::new(own_type())), vec![])),
        item(9, None, const_of(dep_type())),
        item(10, Some("Pair"), struct_of(rd::StructKind::Tuple(vec![Some(rd::Id(41))]), plain())),
        item(41, Some("0"), rd::ItemEnum::StructField(dep_type())),
        item(
            11,
            Some("Case"),
            variant_of(rd::VariantKind::Struct {
                fields: vec![rd::Id(42)],
                has_stripped_fields: false,
            }),
        ),
        item(42, Some("x"), rd::ItemEnum::StructField(dep_type())),
        item(12, Some("Api"), trait_of(vec![], vec![43])),
        item(43, Some("Out"), assoc_type(vec![trait_bound()], None)),
    ];
    let leaked = find_leaked_deps(&docs(index), &deps());
    assert_eq!(leaked.len(), 1);
    let details = leaked.get("dep").unwrap();
    let names: Vec<(&str, &str)> =
        details.iter().map(|d| (d.item_name.as_str(), d.item_kind.as_str())).collect();
    assert_eq!(
        names,
        vec![
            ("<P1 as P300>::Item", "assoc const"),
            ("<unnamed>", "const"),
            ("Api::Out", "assoc type"),
            ("Case::x", "field"),
            ("P100 for [P1]", "impl"),
            ("Pair::0", "field"),
            ("Variant::?", "field"),
            ("Wrapper::inner", "field"),
            ("dep::sub::Thing", "use"),
            ("free", "const"),
            ("me::Own", "field"),
        ]
    );
    assert_eq!(details[6].leaked_types.names(), &vec!["dep::Other".to_string()]);
    assert_eq!(details[7].leaked_types.names(), &vec!["dep::sub::Thing".to_string()]);
}

#[test]
fn each_type_is_listed_once_per_item() {
    let field = item(
        50,
        Some("f"),
        rd::ItemEnum::StructField(rd::Type::Tuple(vec![
            dep_type(),
            dep_type(),
            rd::Type::ResolvedPath(path(101)),
            rd::Type::ResolvedPath(path(200)),
        ])),
    );
    let mut deps = deps();
    deps.insert(8, "unrelated".to_string());
    deps.insert(0, "me".to_string());
    let leaked = find_leaked_deps(&docs(vec![field]), &deps);
    assert_eq!(leaked.names(), &vec!["dep".to_string(), "unrelated".to_string()]);
    assert_eq!(
        leaked.get("dep").unwrap()[0].leaked_types.names(),
        &vec!["dep::Other".to_string(), "dep::sub::Thing".to_string()]
    );
}

#[test]
fn own_types_never_leak() {
    let mut deps = HashMap::new();
    deps.insert(0, "me".to_string());
    let index = vec![item(50, Some("f"), rd::ItemEnum::StructField(own_type()))];
    assert!(find_leaked_deps(&docs(index), &deps).is_empty());
}

#[test]
fn docs_are_read_from_json() {
    let read = docs(vec![item(50, Some("f"), const_of(rd::Type::Primitive("u8".to_string())))]);
    assert_eq!(read.items.len(), 1);
    assert_eq!(read.items[&50].name.as_deref(), Some("f"));
    assert!(matches!(
        &read.items[&50].inner,
        DocKind::Constant(DocType::Primitive(name)) if name == "u8"
    ));
    assert_eq!(read.paths.len(), 4);
    assert_eq!(read.paths[&101].crate_id, DEP);
    assert_eq!(read.paths[&101].path, vec!["dep".to_string(), "Other".to_string()]);
    assert_eq!(read.external_crates.len(), 1);
    assert_eq!(read.external_crates[&DEP], "dep");
}

#[test]
fn other_texts_are_no_docs() {
    assert!(parse_rustdoc("").is_none());
    assert!(parse_rustdoc("{}").is_none());
    assert!(parse_rustdoc("[1, 2]").is_none());
    let text = json(vec![]);
    assert!(parse_rustdoc(&text).is_some());
    assert!(parse_rustdoc(&text[1..]).is_none());
}

#[test]
fn same_names_are_listed_by_id() {
    let leaky = |id| {
        DocType::ResolvedPath(DocPath { path: "T".to_string(), id, args: None })
    };
    let constant = |id| DocItem { name: Some("same".to_string()), inner: DocKind::Constant(leaky(id)) };
    let mut items = BTreeMap::new();
    items.insert(9, constant(100));
    items.insert(3, constant(101));
    let mut paths = HashMap::new();
    for (id, name) in [(100, "A"), (101, "B")] {
        let path = vec!["dep".to_string(), name.to_string()];
        paths.insert(id, DocSummary { crate_id: DEP, path });
    }
    let docs = Docs { items, paths, external_crates: BTreeMap::new() };
    let leaked = find_leaked_deps(&docs, &deps());
    let details = leaked.get("dep").unwrap();
    assert_eq!(details.len(), 2);
    assert_eq!(details[0].leaked_types.names(), &vec!["dep::B".to_string()]);
    assert_eq!(details[1].leaked_types.names(), &vec!["dep::A".to_string()]);
}
