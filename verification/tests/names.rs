use semwave::names::{NameMap, NameSet};

fn texts(list: &[&str]) -> Vec<String> {
    list.iter().map(|s| s.to_string()).collect()
}

#[test]
fn sets_hold_each_name_once() {
    let mut set = NameSet::from_list(&texts(&["b", "a", "b"]));
    assert_eq!(set.names(), &texts(&["a", "b"]));
    assert!(!set.insert("a".to_string()));
    assert!(set.insert("c".to_string()));
    assert_eq!(set.len(), 3);
    assert!(set.contains("c"));
    assert!(!set.contains("d"));
    assert!(set.remove("b"));
    assert!(!set.remove("b"));
    assert_eq!(set.clone().names(), &texts(&["a", "c"]));
    assert!(NameSet::new().is_empty());
}

#[test]
fn names_are_ordered_by_code_point() {
    let set = NameSet::from_list(&texts(&["ab", "a", "é", "Z", "a-b", "a_b"]));
    assert_eq!(set.names(), &texts(&["Z", "a", "a-b", "a_b", "ab", "é"]));
}

#[test]
fn maps_hold_the_last_value() {
    let mut map: NameMap<u8> = NameMap::new();
    assert!(map.is_empty());
    map.insert("b".to_string(), 1);
    map.insert("a".to_string(), 2);
    map.insert("b".to_string(), 3);
    assert_eq!(map.len(), 2);
    assert_eq!(map.get("b"), Some(&3));
    assert_eq!(map.get("c"), None);
    assert!(map.contains_key("a"));
    assert_eq!(map.names(), &texts(&["a", "b"]));
    assert_eq!(map.entry(0), ("a", &2));
    assert_eq!(map.remove("a"), Some(2));
    assert_eq!(map.remove("a"), None);
    assert_eq!(map.len(), 1);
}
