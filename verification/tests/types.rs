use std::borrow::Borrow;
use std::str::FromStr;

use semwave::types::{CrateName, ManifestPath, RustdocCrateName, Toolchain};

#[test]
fn crate_names_keep_their_text() {
    let name = CrateName::from("my-crate");
    assert_eq!(name.as_str(), "my-crate");
    assert_eq!(CrateName::from("x".to_string()).as_str(), "x");
    let text: &str = name.as_ref();
    assert_eq!(text, "my-crate");
    let text: &str = name.borrow();
    assert_eq!(text, "my-crate");
    assert_eq!(name.clone().as_str(), "my-crate");
}

#[test]
fn rustdoc_names_have_underscores() {
    assert_eq!(RustdocCrateName::from("my-own-crate").as_str(), "my_own_crate");
    assert_eq!(RustdocCrateName::from("a_b".to_string()).as_str(), "a_b");
    let name = CrateName::from("a-b");
    assert_eq!(RustdocCrateName::from(&name).as_str(), "a_b");
    let once = RustdocCrateName::from("a-b");
    assert_eq!(RustdocCrateName::from(once.as_str()).as_str(), once.as_str());
}

#[test]
fn paths_and_toolchains_keep_their_text() {
    assert_eq!(ManifestPath::from("a/Cargo.toml".to_string()).as_str(), "a/Cargo.toml");
    assert_eq!(Toolchain::from("nightly".to_string()).as_str(), "nightly");
    assert_eq!(Toolchain::from_str("stable").unwrap().as_str(), "stable");
}
