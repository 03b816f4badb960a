use semwave::manifest::{parse_manifest, TomlEntry, TomlValue};
use semwave::report::{Event, EventLog};
use semwave::seeds::{
    changed_cargo_tomls, dep_version_string, detect_version_changes, extract_dep_versions,
    extract_package_version, find_workspace_version, needed_manifest, normalize_version, parent_of,
    BaseSide, ManifestChange, ManifestError, ManifestSide, PackageLookup, RequirementError,
    WorkspaceError, WorkspaceLookup,
};
use semwave::semver::{Bump, ChangeKind, Version};

fn version(text: &str) -> Version {
    Version::parse(text).unwrap()
}

fn text(s: &str) -> TomlValue {
    TomlValue::Text(s.to_string())
}

fn table(key: &str, value: TomlValue) -> TomlValue {
    TomlValue::Table(vec![TomlEntry { key: key.to_string(), value }])
}

fn doc(text: &str) -> TomlValue {
    parse_manifest(text).unwrap()
}

#[test]
fn normalize_single_part() {
    let v = normalize_version("1").unwrap();
    assert_eq!(v, Version::parse("1.0.0").unwrap());
}

#[test]
fn normalize_two_parts() {
    let v = normalize_version("0.30").unwrap();
    assert_eq!(v, Version::parse("0.30.0").unwrap());
}

#[test]
fn normalize_three_parts() {
    let v = normalize_version("1.2.3").unwrap();
    assert_eq!(v, Version::parse("1.2.3").unwrap());
}

#[test]
fn normalize_strips_caret() {
    let v = normalize_version("^1.2").unwrap();
    assert_eq!(v, Version::parse("1.2.0").unwrap());
}

#[test]
fn normalize_strips_tilde() {
    let v = normalize_version("~1.2.3").unwrap();
    assert_eq!(v, Version::parse("1.2.3").unwrap());
}

#[test]
fn normalize_strips_equals() {
    let v = normalize_version("=1.2.3").unwrap();
    assert_eq!(v, Version::parse("1.2.3").unwrap());
}

#[test]
fn normalize_complex_version_fails() {
    assert!(normalize_version(">=1.0, <2.0").is_err());
    assert!(normalize_version(">1.0").is_err());
    assert!(normalize_version("<2.0").is_err());
    assert!(normalize_version("*").is_err());
}

#[test]
fn normalize_strips_whitespace() {
    let v = normalize_version("  1.2.3  ").unwrap();
    assert_eq!(v, Version::parse("1.2.3").unwrap());
}

#[test]
fn dep_version_string_from_plain_string() {
    let val = text("0.5");
    assert_eq!(dep_version_string(&val), Some("0.5".to_string()));
}

#[test]
fn dep_version_string_from_table_with_version() {
    let val = table("version", text("1.2"));
    assert_eq!(dep_version_string(&val), Some("1.2".to_string()));
}

#[test]
fn dep_version_string_from_table_without_version() {
    let val = table("path", text("../foo"));
    assert_eq!(dep_version_string(&val), None);
}

#[test]
fn dep_version_string_workspace_ref_returns_none() {
    let val = table("workspace", TomlValue::Flag(true));
    assert_eq!(dep_version_string(&val), None);
}

#[test]
fn extract_dep_versions_workspace_deps() {
    let doc = doc(
        r#"
            [workspace.dependencies]
            tokio = "1.0"
            serde = { version = "1.0.100" }
        "#,
    );
    let deps = extract_dep_versions(&doc);
    assert_eq!(deps.get("tokio"), Some(&"1.0".to_string()));
    assert_eq!(deps.get("serde"), Some(&"1.0.100".to_string()));
}

#[test]
fn extract_dep_versions_regular_deps() {
    let doc = doc(
        r#"
            [dependencies]
            anyhow = "1.0"
            
            [dev-dependencies]
            insta = "1.30"
            
            [build-dependencies]
            cc = "1.0"
        "#,
    );
    let deps = extract_dep_versions(&doc);
    assert_eq!(deps.get("anyhow"), Some(&"1.0".to_string()));
    assert_eq!(deps.get("insta"), Some(&"1.30".to_string()));
    assert_eq!(deps.get("cc"), Some(&"1.0".to_string()));
}

#[test]
fn extract_dep_versions_workspace_takes_priority() {
    let doc = doc(
        r#"
            [workspace.dependencies]
            serde = "1.0.200"
            
            [dependencies]
            serde = { workspace = true }
        "#,
    );
    let deps = extract_dep_versions(&doc);
    assert_eq!(deps.get("serde"), Some(&"1.0.200".to_string()));
}

#[test]
fn extract_dep_versions_empty_manifest() {
    let doc = doc(
        r#"
            [package]
            name = "foo"
            version = "0.1.0"
        "#,
    );
    let deps = extract_dep_versions(&doc);
    assert!(deps.is_empty());
}

#[test]
fn extract_package_version_simple() {
    let doc = doc(
        r#"
            [package]
            name = "my-crate"
            version = "1.2.3"
        "#,
    );
    match extract_package_version(&doc, "Cargo.toml", &vec![]).unwrap() {
        PackageLookup::Found { name, version } => {
            assert_eq!(name, "my-crate");
            assert_eq!(version, Version::parse("1.2.3").unwrap());
        }
        PackageLookup::Read { .. } => panic!("no other manifest is needed"),
    }
}

#[test]
fn extract_package_version_missing_package_table() {
    let doc = doc(
        r#"
            [workspace]
            members = ["crates/*"]
        "#,
    );
    assert!(extract_package_version(&doc, "Cargo.toml", &vec![]).is_err());
}

#[test]
fn extract_package_version_missing_name() {
    let doc = doc(
        r#"
            [package]
            version = "1.0.0"
        "#,
    );
    assert!(extract_package_version(&doc, "Cargo.toml", &vec![]).is_err());
}

#[test]
fn normalize_tells_complex_from_invalid() {
    assert!(matches!(normalize_version("1.*"), Err(RequirementError::Complex)));
    assert!(matches!(normalize_version("1, 2"), Err(RequirementError::Complex)));
    assert!(matches!(normalize_version("one"), Err(RequirementError::Invalid)));
    assert!(matches!(normalize_version(""), Err(RequirementError::Invalid)));
    assert!(matches!(normalize_version("1.2.3.4"), Err(RequirementError::Invalid)));
    assert!(matches!(normalize_version("01.2"), Err(RequirementError::Invalid)));
}

#[test]
fn normalize_strips_operators_in_order() {
    assert_eq!(normalize_version("^^~=1.2").unwrap(), version("1.2.0"));
    assert!(normalize_version("=^1.2").is_err());
    assert!(normalize_version("= 1.2").is_err());
}

#[test]
fn normalize_keeps_pre_releases() {
    let v = normalize_version("1.2.3-rc.1").unwrap();
    assert_eq!((v.major, v.minor, v.patch), (1, 2, 3));
    assert_eq!(v.text, "1.2.3-rc.1");
}

#[test]
fn first_section_with_a_requirement_counts() {
    let doc = doc(
        r#"
            [dependencies]
            a = "1"
            b = { path = "../b" }
            [dev-dependencies]
            a = "2"
            b = "3"
            [build-dependencies]
            b = "4"
        "#,
    );
    let deps = extract_dep_versions(&doc);
    assert_eq!(deps.get("a"), Some(&"1".to_string()));
    assert_eq!(deps.get("b"), Some(&"3".to_string()));
    assert_eq!(deps.len(), 2);
}

#[test]
fn parents_of_paths() {
    assert_eq!(parent_of("crates/a/Cargo.toml"), Some("crates/a".to_string()));
    assert_eq!(parent_of("crates/a"), Some("crates".to_string()));
    assert_eq!(parent_of("crates"), Some("".to_string()));
    assert_eq!(parent_of("/a"), Some("/".to_string()));
    assert_eq!(parent_of("/"), None);
    assert_eq!(parent_of(""), None);
    assert_eq!(parent_of("a//b/"), Some("a".to_string()));
    assert_eq!(parent_of("a/./b"), Some("a".to_string()));
}

#[test]
fn inherited_version_is_searched_upwards() {
    let member = doc(
        r#"
            [package]
            name = "member"
            version.workspace = true
        "#,
    );
    let root = r#"
            [workspace.package]
            version = "0.4.2"
        "#;
    let file = "crates/group/member/Cargo.toml";
    let mut side = ManifestSide { doc: member, above: vec![] };
    assert_eq!(needed_manifest(file, &side), Some("crates/group/Cargo.toml".to_string()));
    side.above.push(None);
    assert_eq!(needed_manifest(file, &side), Some("crates/Cargo.toml".to_string()));
    side.above.push(Some(doc("[package]\nname = \"other\"\nversion = \"9.9.9\"")));
    assert_eq!(needed_manifest(file, &side), Some("Cargo.toml".to_string()));
    side.above.push(Some(doc(root)));
    assert_eq!(needed_manifest(file, &side), None);
    match extract_package_version(&side.doc, file, &side.above).unwrap() {
        PackageLookup::Found { name, version: found } => {
            assert_eq!(name, "member");
            assert_eq!(found, version("0.4.2"));
        }
        PackageLookup::Read { .. } => panic!("the version is known"),
    }
}

#[test]
fn workspace_version_errors() {
    let file = "member/Cargo.toml";
    let missing = vec![Some(doc("[workspace]\nmembers = [\"member\"]"))];
    assert!(matches!(find_workspace_version(file, &missing), Err(WorkspaceError::NoVersion)));
    let bad = vec![Some(doc("[workspace.package]\nversion = \"1\""))];
    assert!(matches!(find_workspace_version(file, &bad), Err(WorkspaceError::InvalidVersion)));
    assert!(matches!(find_workspace_version(file, &vec![None]), Err(WorkspaceError::NoManifest)));
    assert!(matches!(find_workspace_version("", &vec![]), Err(WorkspaceError::NoParentDir)));
    match find_workspace_version("Cargo.toml", &vec![]) {
        Ok(WorkspaceLookup::Read(path)) => assert_eq!(path, "Cargo.toml"),
        _ => panic!("the manifest at the top is read"),
    }
}

#[test]
fn package_version_errors() {
    let file = "Cargo.toml";
    let none = vec![];
    let error = |text: &str| match extract_package_version(&doc(text), file, &none) {
        Err(e) => e,
        Ok(_) => panic!("an error is expected"),
    };
    assert_eq!(error("[workspace]"), ManifestError::NoPackage);
    assert_eq!(error("[package]\nversion = \"1.0.0\""), ManifestError::NoName);
    assert_eq!(error("[package]\nname = \"a\""), ManifestError::NoVersion);
    assert_eq!(error("[package]\nname = \"a\"\nversion = \"1\""), ManifestError::InvalidVersion);
    assert_eq!(error("[package]\nname = \"a\"\nversion = 1"), ManifestError::UnexpectedFormat);
    assert_eq!(
        error("[package]\nname = \"a\"\nversion.workspace = false"),
        ManifestError::UnexpectedFormat
    );
    let inherited = doc("[package]\nname = \"a\"\nversion.workspace = true");
    assert!(matches!(
        extract_package_version(&inherited, file, &vec![None]),
        Err(ManifestError::Workspace(WorkspaceError::NoManifest))
    ));
}

#[test]
fn manifests_are_parsed_as_toml() {
    assert!(parse_manifest("[package").is_none());
    assert!(parse_manifest("a = 1\na = 2").is_none());
    let empty = parse_manifest("").unwrap();
    assert!(empty.get("package").is_none());
}

#[test]
fn manifests_are_picked_from_a_diff() {
    let diff = "Cargo.toml\nsrc/lib.rs\ncrates/a/Cargo.toml\r\nCargo.toml.orig\nmyCargo.toml";
    assert_eq!(
        changed_cargo_tomls(diff),
        vec![
            "Cargo.toml".to_string(),
            "crates/a/Cargo.toml".to_string(),
            "myCargo.toml".to_string()
        ]
    );
    assert!(changed_cargo_tomls("").is_empty());
}

fn side(text: &str) -> Option<ManifestSide> {
    Some(ManifestSide { doc: doc(text), above: vec![] })
}

fn base(text: &str) -> BaseSide {
    BaseSide::Manifest(ManifestSide { doc: doc(text), above: vec![] })
}

#[test]
fn version_changes_make_seeds() {
    let changed = vec![
        ManifestChange {
            file: "Cargo.toml".to_string(),
            old: base(
                r#"
                    [package]
                    name = "root"
                    version = "1.0.0"
                    [dependencies]
                    big = "1"
                    small = "1.2"
                    tiny = "1.2.3"
                    same = "1"
                    odd = ">=1"
                    gone = "1"
                "#,
            ),
            new: side(
                r#"
                    [package]
                    name = "root"
                    version = "1.1.0"
                    [dependencies]
                    big = "2"
                    small = "1.3"
                    tiny = "1.2.4"
                    same = "1"
                    odd = ">=2"
                    fresh = "1"
                "#,
            ),
        },
        ManifestChange {
            file: "a/Cargo.toml".to_string(),
            old: BaseSide::Absent,
            new: side("[package]\nname = \"a\"\nversion = \"0.1.0\""),
        },
        ManifestChange {
            file: "b/Cargo.toml".to_string(),
            old: base("[package]\nname = \"b\"\nversion = \"0.1.0\""),
            new: None,
        },
        ManifestChange {
            file: "c/Cargo.toml".to_string(),
            old: base("[package]\nname = \"c\"\nversion = \"0.1.0\"\n[dependencies]\nbig = \"1\""),
            new: side("[package]\nname = \"c\"\nversion = \"0.1.1\"\n[dependencies]\nbig = \"3\""),
        },
        ManifestChange { file: "d/Cargo.toml".to_string(), old: BaseSide::Absent, new: None },
    ];
    let mut log = EventLog::new();
    let changes = detect_version_changes(&changed, &mut log);
    assert_eq!(changes.breaking_seeds.names(), &vec!["big".to_string()]);
    assert_eq!(
        changes.additive_seeds.names(),
        &vec!["root".to_string(), "small".to_string()]
    );
    assert_eq!(changes.new_crates.names(), &vec!["a".to_string()]);
    assert_eq!(changes.local_bumps.get("root"), Some(&Bump::Minor));
    assert_eq!(changes.local_bumps.get("c"), Some(&Bump::Patch));
    assert_eq!(changes.local_bumps.len(), 2);
    let events = log.drain();
    assert_eq!(events.len(), 7);
    assert!(matches!(&events[0], Event::DetectedChangesHeader));
    assert!(matches!(
        &events[1],
        Event::DepVersionChanged { name, old, new, kind: ChangeKind::Breaking }
            if name == "big" && old == "1" && new == "2"
    ));
    assert!(matches!(
        &events[2],
        Event::DepVersionChanged { name, kind: ChangeKind::Additive, .. } if name == "small"
    ));
    assert!(matches!(
        &events[3],
        Event::LocalPackageBump { name, kind: ChangeKind::Additive, .. } if name == "root"
    ));
    assert!(matches!(&events[4], Event::NewCrate { name } if name == "a"));
    assert!(matches!(&events[5], Event::RemovedCrate { name } if name == "b"));
    assert!(matches!(
        &events[6],
        Event::LocalPackageBump { name, kind: ChangeKind::Patch, .. } if name == "c"
    ));
}

#[test]
fn initial_version_bumps_are_breaking() {
    let changed = vec![ManifestChange {
        file: "Cargo.toml".to_string(),
        old: base("[package]\nname = \"a\"\nversion = \"0.1.0\""),
        new: side("[package]\nname = \"a\"\nversion = \"0.2.0\""),
    }];
    let mut log = EventLog::new();
    let changes = detect_version_changes(&changed, &mut log);
    assert!(changes.breaking_seeds.contains("a"));
    assert!(!changes.additive_seeds.contains("a"));
    assert_eq!(changes.local_bumps.get("a"), Some(&Bump::Minor));
}

#[test]
fn same_manifest_makes_no_seed() {
    let text = "[package]\nname = \"a\"\nversion = \"0.1.0\"\n[dependencies]\nb = \"1\"";
    let changed = vec![ManifestChange {
        file: "Cargo.toml".to_string(),
        old: base(text),
        new: side(text),
    }];
    let mut log = EventLog::new();
    let changes = detect_version_changes(&changed, &mut log);
    assert!(changes.breaking_seeds.is_empty());
    assert!(changes.additive_seeds.is_empty());
    assert!(changes.local_bumps.is_empty());
    assert_eq!(log.drain().len(), 1);
}

#[test]
fn unreadable_base_makes_no_new_crate() {
    let changed = vec![ManifestChange {
        file: "Cargo.toml".to_string(),
        old: BaseSide::Unreadable,
        new: side("[package]\nname = \"a\"\nversion = \"0.1.0\""),
    }];
    let mut log = EventLog::new();
    let changes = detect_version_changes(&changed, &mut log);
    assert!(changes.new_crates.is_empty());
    assert!(changes.breaking_seeds.is_empty());
    assert!(changes.local_bumps.is_empty());
    assert_eq!(log.drain().len(), 1);
}
