use semwave::names::NameSet;
use semwave::report::stream::{
    ancestor_prefix, bump_styles, change_kind_label, display_list, render, styled, write_tree,
    Channel, Style,
};
use semwave::report::{BumpSource, Event, LeakDetail, TreeNode, TreeNodeKind};
use semwave::semver::{Bump, ChangeKind, Version};
use semwave::types::{CrateName, MissingBumpItem, UnderBumpedItem};

fn set(names: &[&str]) -> NameSet {
    NameSet::from_list(&texts(names))
}

fn texts(names: &[&str]) -> Vec<String> {
    names.iter().map(|s| s.to_string()).collect()
}

fn s(text: &str) -> String {
    text.to_string()
}

fn out(event: Event, text: &str) {
    let output = render(&event).unwrap();
    assert_eq!(output.channel, Channel::Stdout);
    assert_eq!(output.text, text);
}

fn err(event: Event, text: &str) {
    let output = render(&event).unwrap();
    assert_eq!(output.channel, Channel::Stderr);
    assert_eq!(output.text, text);
}

#[test]
fn styles_are_escape_sequences() {
    assert_eq!(styled("x", Style::Red), "\x1b[31mx\x1b[0m");
    assert_eq!(styled("x", Style::RedBold), "\x1b[1m\x1b[31mx\x1b[0m");
    assert_eq!(styled("x", Style::Yellow), "\x1b[33mx\x1b[0m");
    assert_eq!(styled("x", Style::YellowBold), "\x1b[1m\x1b[33mx\x1b[0m");
    assert_eq!(styled("x", Style::Green), "\x1b[32mx\x1b[0m");
    assert_eq!(styled("x", Style::GreenBold), "\x1b[1m\x1b[32mx\x1b[0m");
    assert_eq!(styled("x", Style::Cyan), "\x1b[36mx\x1b[0m");
    assert_eq!(styled("x", Style::CyanBold), "\x1b[1m\x1b[36mx\x1b[0m");
    assert_eq!(styled("x", Style::WhiteBold), "\x1b[1m\x1b[37mx\x1b[0m");
    assert_eq!(styled("x", Style::Bold), "\x1b[1mx\x1b[0m");
    assert_eq!(styled("x", Style::Dimmed), "\x1b[2mx\x1b[0m");
    assert_eq!(styled("", Style::Dimmed), "\x1b[2m\x1b[0m");
}

#[test]
fn lists_are_displayed_for_debugging() {
    assert_eq!(display_list(&texts(&["a", "b\"c", "\n"])), "[\"a\", \"b\\\"c\", \"\\n\"]");
    assert_eq!(display_list(&vec![]), "[]");
}

#[test]
fn labels_of_changes_and_bumps() {
    assert_eq!(change_kind_label(ChangeKind::Breaking), Some(s("\x1b[1m\x1b[31m(BREAKING)\x1b[0m")));
    assert_eq!(change_kind_label(ChangeKind::Additive), Some(s("\x1b[1m\x1b[33m(ADDITIVE)\x1b[0m")));
    assert_eq!(change_kind_label(ChangeKind::Patch), Some(s("\x1b[32m(PATCH)\x1b[0m")));
    assert_eq!(change_kind_label(ChangeKind::Unchanged), None);
    assert_eq!(bump_styles(Bump::Minor), (Style::RedBold, s("\x1b[1m\x1b[31mMINOR\x1b[0m")));
    assert_eq!(bump_styles(Bump::Unchanged), (Style::Dimmed, s("\x1b[2mnone\x1b[0m")));
}

#[test]
fn banners_are_rendered() {
    out(
        Event::DirectModeBanner { seeds: set(&["b", "a"]) },
        "\x1b[1mDirect mode:\x1b[0m assuming BREAKING change for \x1b[36m{\"a\", \"b\"}\x1b[0m\n\n",
    );
    out(
        Event::ComparingRefs { source: s("main"), target: s("HEAD") },
        "Comparing versions between \x1b[1m\x1b[36mmain\x1b[0m and \x1b[1m\x1b[36mHEAD\x1b[0m...\n\n",
    );
    out(
        Event::NoChangesDetected,
        "\x1b[32mNo breaking/additive version changes detected. Nothing to propagate.\x1b[0m\n",
    );
    out(Event::DetectedChangesHeader, "\x1b[1mDetected version changes:\x1b[0m\n");
    out(
        Event::BreakingSeeds { names: set(&["a"]) },
        "\n\x1b[1mBreaking seeds:\x1b[0m \x1b[31m{\"a\"}\x1b[0m\n\n",
    );
    out(
        Event::AdditiveSeeds { names: set(&["a"]) },
        "\x1b[1mAdditive seeds:\x1b[0m \x1b[33m{\"a\"}\x1b[0m\n\n",
    );
    out(Event::InfluenceTreeHeader, "\n\x1b[1m\x1b[32m=== Influence Tree ===\x1b[0m\n");
    out(Event::AnalysisCompleteHeader, "\x1b[1m\x1b[32m=== Analysis Complete ===\x1b[0m\n");
}

#[test]
fn version_changes_are_rendered() {
    let dep = |kind| Event::DepVersionChanged { name: s("serde"), old: s("1"), new: s("2"), kind };
    out(
        dep(ChangeKind::Breaking),
        "  \x1b[2m[dep]\x1b[0m \x1b[36mserde\x1b[0m: \x1b[2m1\x1b[0m -> \x1b[1m\x1b[37m2\x1b[0m \
         \x1b[1m\x1b[31m(BREAKING)\x1b[0m\n",
    );
    assert!(render(&dep(ChangeKind::Unchanged)).is_none());
    let local = |kind, source| Event::LocalPackageBump {
        name: s("me"),
        old: Version::parse("0.1.0").unwrap(),
        new: Version::parse("0.1.1").unwrap(),
        kind,
        source,
    };
    out(
        local(ChangeKind::Patch, BumpSource::Package),
        "  \x1b[2m[local]\x1b[0m \x1b[36mme\x1b[0m: \x1b[2m0.1.0\x1b[0m -> \
         \x1b[1m\x1b[37m0.1.1\x1b[0m \x1b[32m(PATCH)\x1b[0m\n",
    );
    out(
        local(ChangeKind::Patch, BumpSource::Workspace),
        "  \x1b[2m[local]\x1b[0m \x1b[36mme\x1b[0m: \x1b[2m0.1.0\x1b[0m -> \
         \x1b[1m\x1b[37m0.1.1\x1b[0m \x1b[32m(PATCH)\x1b[0m \x1b[2m[workspace]\x1b[0m\n",
    );
    assert!(render(&local(ChangeKind::Unchanged, BumpSource::Package)).is_none());
    out(
        Event::NewCrate { name: s("n") },
        "  \x1b[2m[new]\x1b[0m \x1b[36mn\x1b[0m \x1b[1m\x1b[32m(NEW CRATE)\x1b[0m\n",
    );
    out(
        Event::RemovedCrate { name: s("n") },
        "  \x1b[2m[removed]\x1b[0m \x1b[36mn\x1b[0m \x1b[1m\x1b[31m(REMOVED)\x1b[0m\n",
    );
    err(
        Event::GlobMemberSkipped { member: s("crates/*") },
        "Warning: skipping glob workspace member 'crates/*' for version inheritance\n",
    );
}

#[test]
fn analysis_is_rendered() {
    out(
        Event::AnalyzingCrate { name: s("me"), deps: texts(&["a", "b"]) },
        "Analyzing \x1b[1m\x1b[36mme\x1b[0m for public API exposure of [\"a\", \"b\"]\n",
    );
    out(
        Event::BinaryCrateSkipped { name: s("me") },
        "  \x1b[2m->\x1b[0m \x1b[36mme\x1b[0m is binary-only, no public API to leak\n",
    );
    out(
        Event::LeakDetected {
            crate_name: s("me"),
            dep: s("a"),
            bump: Bump::Major,
            details: vec![LeakDetail {
                item_kind: s("fn"),
                item_name: s("me::f"),
                leaked_types: texts(&["a::X", "a::Y"]),
            }],
        },
        "  \x1b[1m\x1b[31m->\x1b[0m \x1b[1m\x1b[31mme\x1b[0m leaks \x1b[33ma\x1b[0m (Major):\n     \
         \x1b[2mfn\x1b[0m \x1b[2mme::f\x1b[0m — uses \x1b[2ma::X, a::Y\x1b[0m\n",
    );
    err(
        Event::RustdocFailed { crate_name: s("me"), error: s("boom"), conservative_bump: Bump::Minor },
        "  \x1b[1m\x1b[33mWARNING:\x1b[0m rustdoc JSON generation failed for \x1b[36mme\x1b[0m: \
         boom\n  Conservatively assuming Minor bump.\n",
    );
}

#[test]
fn results_are_rendered() {
    let list = |level| Event::BumpList { level, names: set(&["a"]) };
    out(
        list(Bump::Major),
        "\x1b[1m\x1b[31mMAJOR-bump list (Requires MAJOR bump / ↑.0.0):\x1b[0m {\"a\"}\n",
    );
    out(
        list(Bump::Minor),
        "\x1b[1m\x1b[33mMINOR-bump list (Requires MINOR bump / x.↑.0):\x1b[0m {\"a\"}\n",
    );
    out(
        list(Bump::Patch),
        "\x1b[1m\x1b[36mPATCH-bump list (Requires PATCH bump / x.y.↑):\x1b[0m {\"a\"}\n",
    );
    assert!(render(&list(Bump::Unchanged)).is_none());
    err(
        Event::FailedRustdocSummary { names: set(&["a"]) },
        "\n\x1b[1m\x1b[33mWARNING:\x1b[0m The following crates failed rustdoc JSON generation and \
         were conservatively assumed breaking. Verify manually:\n  {\"a\"}\n",
    );
    err(
        Event::UnderBumped {
            items: vec![UnderBumpedItem {
                name: CrateName::from("a"),
                required: Bump::Major,
                local: Bump::Patch,
            }],
        },
        "\n\x1b[1m\x1b[31mERROR:\x1b[0m These crates have insufficient version bumps:\n  \
         \x1b[36ma\x1b[0m has Patch bump but requires Major\n",
    );
    err(
        Event::MissingBumps {
            items: vec![MissingBumpItem { name: CrateName::from("a"), required: Bump::Minor }],
        },
        "\n\x1b[1m\x1b[31mERROR:\x1b[0m These crates need a version bump but have none:\n  \
         \x1b[36ma\x1b[0m requires Minor\n",
    );
}

fn node(depth: usize, is_last_sibling: bool, name: &str, kind: TreeNodeKind) -> TreeNode {
    TreeNode { depth, is_last_sibling, name: CrateName::from(name), kind }
}

#[test]
fn trees_are_drawn() {
    let child = |bump, already_shown| TreeNodeKind::Child { bump, already_shown };
    let nodes = vec![
        node(0, true, "seed", TreeNodeKind::Seed),
        node(1, false, "a", child(Bump::Major, false)),
        node(2, true, "b", child(Bump::Patch, false)),
        node(1, true, "b", child(Bump::Patch, true)),
    ];
    let text = "\x1b[2m└── \x1b[0m\x1b[1m\x1b[33mseed (seed)\x1b[0m\n\
        \x1b[2m    \x1b[0m\x1b[1m\x1b[31m├── \x1b[0m\x1b[1m\x1b[36ma\x1b[0m  \
        (\x1b[1m\x1b[31mMAJOR\x1b[0m)\n\
        \x1b[2m    │   \x1b[0m\x1b[32m└── \x1b[0m\x1b[1m\x1b[36mb\x1b[0m  \
        (\x1b[32mPATCH\x1b[0m)\n\
        \x1b[2m    \x1b[0m\x1b[32m└── \x1b[0m\x1b[36mb\x1b[0m \
        \x1b[2m(\x1b[32mPATCH\x1b[0m, already shown above)\x1b[0m\n";
    assert_eq!(write_tree(&nodes), text);
    out(Event::InfluenceTree { nodes }, &format!("{}\n", text));
}

#[test]
fn prefixes_show_open_levels() {
    assert_eq!(ancestor_prefix(&vec![]), "");
    assert_eq!(ancestor_prefix(&vec![true]), "");
    assert_eq!(ancestor_prefix(&vec![true, false, true]), "    │   ");
    assert_eq!(ancestor_prefix(&vec![false, false]), "│   ");
}
