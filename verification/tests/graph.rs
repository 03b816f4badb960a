use semwave::graph::{find_cycle, is_normal_dep};
use semwave::names::NameMap;
use semwave::workspace::{DependencyKind, NodeDep};

fn graph(edges: &[(&str, &[&str])]) -> NameMap<Vec<String>> {
    let mut adj = NameMap::new();
    for (from, to) in edges {
        adj.insert(from.to_string(), to.iter().map(|s| s.to_string()).collect());
    }
    adj
}

fn is_cycle_of(adj: &NameMap<Vec<String>>, cycle: &[String]) -> bool {
    cycle.len() >= 2
        && cycle.first() == cycle.last()
        && (0..cycle.len() - 1).all(|i| {
            adj.get(&cycle[i]).map_or(false, |to| to.contains(&cycle[i + 1]))
        })
}

#[test]
fn acyclic_graph_has_no_cycle() {
    assert!(find_cycle(&graph(&[])).is_none());
    assert!(find_cycle(&graph(&[("a", &["b", "c"]), ("b", &["c"]), ("c", &["d"])])).is_none());
}

#[test]
fn cycles_are_found() {
    let adj = graph(&[("a", &["b"]), ("b", &["d", "c"]), ("c", &["a"])]);
    let cycle = find_cycle(&adj).unwrap();
    assert_eq!(cycle.len(), 4);
    assert!(is_cycle_of(&adj, &cycle));
}

#[test]
fn self_loop_is_a_cycle() {
    let adj = graph(&[("a", &["b"]), ("b", &["b"])]);
    assert_eq!(find_cycle(&adj), Some(vec!["b".to_string(), "b".to_string()]));
}

#[test]
fn cycle_behind_a_shared_node_is_found() {
    let adj = graph(&[("a", &["c"]), ("b", &["c"]), ("c", &["d"]), ("d", &["e"]), ("e", &["c"])]);
    let cycle = find_cycle(&adj).unwrap();
    assert!(is_cycle_of(&adj, &cycle));
    assert_eq!(cycle.len(), 4);
}

#[test]
fn normal_dependencies_are_told_apart() {
    let dep = |kinds: Vec<DependencyKind>| NodeDep { pkg: "p".to_string(), dep_kinds: kinds };
    assert!(is_normal_dep(&dep(vec![DependencyKind::Normal])));
    assert!(is_normal_dep(&dep(vec![DependencyKind::Build, DependencyKind::Normal])));
    assert!(!is_normal_dep(&dep(vec![DependencyKind::Development, DependencyKind::Build])));
    assert!(!is_normal_dep(&dep(vec![DependencyKind::Unknown])));
    assert!(!is_normal_dep(&dep(vec![])));
}
