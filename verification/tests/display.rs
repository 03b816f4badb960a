use semwave::display::print_influence_tree;
use semwave::names::{NameMap, NameSet};
use semwave::report::{Event, EventLog, TreeNode, TreeNodeKind};
use semwave::semver::Bump;
use semwave::types::{CrateName, TreeEdge};

fn edges(list: &[(&str, &[&str])]) -> NameMap<Vec<TreeEdge>> {
    let mut map = NameMap::new();
    for (parent, children) in list {
        let list = children
            .iter()
            .map(|child| TreeEdge { child: CrateName::from(*child), bump: Bump::Minor })
            .collect();
        map.insert(parent.to_string(), list);
    }
    map
}

fn tree(seeds: &[&str], list: &[(&str, &[&str])]) -> Vec<TreeNode> {
    let seeds = NameSet::from_list(&seeds.iter().map(|s| s.to_string()).collect());
    let mut log = EventLog::new();
    print_influence_tree(&seeds, &edges(list), &mut log);
    let mut events = log.drain();
    assert_eq!(events.len(), 1);
    match events.remove(0) {
        Event::InfluenceTree { nodes } => nodes,
        _ => panic!("a tree is reported"),
    }
}

fn shape(nodes: &[TreeNode]) -> Vec<(usize, &str, bool, bool)> {
    nodes
        .iter()
        .map(|n| {
            let repeated = matches!(n.kind, TreeNodeKind::Child { already_shown: true, .. });
            (n.depth, n.name.as_str(), n.is_last_sibling, repeated)
        })
        .collect()
}

#[test]
fn seeds_and_children_are_sorted() {
    let nodes = tree(&["z", "a"], &[("a", &["y", "x"])]);
    assert_eq!(
        shape(&nodes),
        vec![
            (0, "a", false, false),
            (1, "x", false, false),
            (1, "y", true, false),
            (0, "z", true, false),
        ]
    );
    assert_eq!(nodes[0].kind, TreeNodeKind::Seed);
    assert_eq!(nodes[1].kind, TreeNodeKind::Child { bump: Bump::Minor, already_shown: false });
}

#[test]
fn crates_are_expanded_once() {
    let nodes = tree(&["s"], &[("s", &["a", "b"]), ("a", &["b"]), ("b", &["c"])]);
    assert_eq!(
        shape(&nodes),
        vec![
            (0, "s", true, false),
            (1, "a", false, false),
            (2, "b", true, false),
            (3, "c", true, false),
            (1, "b", true, true),
        ]
    );
}

#[test]
fn cycles_end() {
    let nodes = tree(&["s"], &[("s", &["a"]), ("a", &["s"])]);
    assert_eq!(
        shape(&nodes),
        vec![
            (0, "s", true, false),
            (1, "a", true, false),
            (2, "s", true, false),
            (3, "a", true, true),
        ]
    );
}

#[test]
fn tree_without_seeds_is_empty() {
    assert!(tree(&[], &[("a", &["b"])]).is_empty());
}
