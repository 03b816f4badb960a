use semwave::semver::{
    classify_version_change, format_name_set, required_bump, required_bump_or, Bump, ChangeKind,
    Version,
};

fn version(text: &str) -> Version {
    Version::parse(text).unwrap()
}

fn change(before: &str, after: &str) -> ChangeKind {
    classify_version_change(&version(before), &version(after))
}

#[test]
fn versions_are_read() {
    let v = version("1.22.333");
    assert_eq!((v.major, v.minor, v.patch), (1, 22, 333));
    assert_eq!(v.text, "1.22.333");
    let v = version("0.1.0-alpha.1+build.5");
    assert_eq!((v.major, v.minor, v.patch), (0, 1, 0));
    assert_eq!(v.text, "0.1.0-alpha.1+build.5");
    let v = version("18446744073709551615.0.0");
    assert_eq!(v.major, u64::MAX);
}

#[test]
fn other_texts_are_no_versions() {
    for text in ["", "1", "1.2", "1.2.3.4", "01.2.3", "1.2.x", " 1.2.3", "18446744073709551616.0.0"] {
        assert!(Version::parse(text).is_none());
    }
}

#[test]
fn initial_versions_change_with_the_minor_number() {
    assert_eq!(change("0.1.0", "0.2.0"), ChangeKind::Breaking);
    assert_eq!(change("0.2.0", "0.1.0"), ChangeKind::Breaking);
    assert_eq!(change("0.1.0", "0.1.5"), ChangeKind::Patch);
    assert_eq!(change("0.1.0", "0.1.0"), ChangeKind::Unchanged);
}

#[test]
fn stable_versions_change_with_the_major_number() {
    assert_eq!(change("1.0.0", "2.0.0"), ChangeKind::Breaking);
    assert_eq!(change("0.9.0", "1.0.0"), ChangeKind::Breaking);
    assert_eq!(change("1.0.0", "1.1.0"), ChangeKind::Additive);
    assert_eq!(change("1.1.0", "1.1.1"), ChangeKind::Patch);
    assert_eq!(change("1.1.1", "1.1.1-rc.1"), ChangeKind::Unchanged);
}

#[test]
fn required_bumps_follow_the_version_scheme() {
    let initial = version("0.3.0");
    let stable = version("1.3.0");
    assert_eq!(required_bump(&initial, ChangeKind::Breaking), Bump::Minor);
    assert_eq!(required_bump(&initial, ChangeKind::Additive), Bump::Patch);
    assert_eq!(required_bump(&initial, ChangeKind::Patch), Bump::Patch);
    assert_eq!(required_bump(&initial, ChangeKind::Unchanged), Bump::Unchanged);
    assert_eq!(required_bump(&stable, ChangeKind::Breaking), Bump::Major);
    assert_eq!(required_bump(&stable, ChangeKind::Additive), Bump::Minor);
    assert_eq!(required_bump(&stable, ChangeKind::Patch), Bump::Patch);
    assert_eq!(required_bump(&stable, ChangeKind::Unchanged), Bump::Unchanged);
    assert_eq!(required_bump_or(None, ChangeKind::Breaking, Bump::Minor), Bump::Minor);
    assert_eq!(required_bump_or(Some(&stable), ChangeKind::Breaking, Bump::Minor), Bump::Major);
}

#[test]
fn bumping_as_required_shows_the_change() {
    assert_eq!(required_bump(&version("0.3.0"), ChangeKind::Breaking), Bump::Minor);
    assert_eq!(change("0.3.0", "0.4.0"), ChangeKind::Breaking);
    assert_eq!(required_bump(&version("1.3.0"), ChangeKind::Breaking), Bump::Major);
    assert_eq!(change("1.3.0", "2.0.0"), ChangeKind::Breaking);
}

#[test]
fn labels() {
    assert_eq!(Bump::Unchanged.as_str(), "None");
    assert_eq!(Bump::Patch.as_str(), "Patch");
    assert_eq!(Bump::Minor.as_str(), "Minor");
    assert_eq!(Bump::Major.as_str(), "Major");
    assert_eq!(ChangeKind::Unchanged.as_str(), "None");
    assert_eq!(ChangeKind::Breaking.as_str(), "Breaking");
}

#[test]
fn bumps_and_changes_are_ordered() {
    assert!(Bump::Major.at_least(Bump::Minor));
    assert!(!Bump::Patch.at_least(Bump::Minor));
    assert!(Bump::Patch.at_least(Bump::Patch));
    assert_eq!(ChangeKind::Patch.worst(ChangeKind::Additive), ChangeKind::Additive);
    assert_eq!(ChangeKind::Breaking.worst(ChangeKind::Additive), ChangeKind::Breaking);
}

#[test]
fn name_sets_are_displayed_in_order() {
    let names = vec!["b".to_string(), "a".to_string(), "B".to_string()];
    assert_eq!(format_name_set(&names), "{\"B\", \"a\", \"b\"}");
    assert_eq!(format_name_set(&vec![]), "{}");
    assert_eq!(format_name_set(&vec!["x".to_string()]), "{\"x\"}");
}
