use ochami_rs::group::{filter_and_convert_to_map, group_labels, Group, GroupMap};

fn ids(list: &[&str]) -> Vec<String> {
    list.iter().map(|id| id.to_string()).collect()
}

fn group(label: &str, members: &[&str]) -> Group {
    Group {
        label: label.to_string(),
        description: String::new(),
        tags: Vec::new(),
        members: ids(members),
    }
}

#[test]
fn filter_keeps_only_wanted_labels() {
    let listing = vec![
        group("compute", &["x1", "x2"]),
        group("gpu", &["x3"]),
        group("login", &["x4", "x5"]),
    ];
    let map = filter_and_convert_to_map(vec!["login", "compute", "absent"], listing);
    assert_eq!(map.len(), 2);
    assert_eq!(map.get("compute"), Some(&ids(&["x1", "x2"])));
    assert_eq!(map.get("login"), Some(&ids(&["x4", "x5"])));
    assert_eq!(map.get("gpu"), None);
    assert_eq!(map.get("absent"), None);
    assert!(!map.contains_key("absent"));
}

#[test]
fn filter_of_several_groups_with_one_label_takes_the_first() {
    let listing = vec![group("a", &["x1"]), group("b", &["x2"]), group("a", &["x9"])];
    let map = filter_and_convert_to_map(vec!["a", "b"], listing);
    assert_eq!(map.len(), 2);
    assert_eq!(map.get("a"), Some(&ids(&["x1"])));
    assert_eq!(map.get("b"), Some(&ids(&["x2"])));
}

#[test]
fn filter_keeps_member_lists_as_they_are() {
    let listing = vec![group("a", &["x3", "x1", "x3"])];
    let map = filter_and_convert_to_map(vec!["a", "a"], listing);
    assert_eq!(map.get("a"), Some(&ids(&["x3", "x1", "x3"])));
}

#[test]
fn filter_with_nothing_wanted_or_nothing_listed_is_empty() {
    assert_eq!(filter_and_convert_to_map(vec![], vec![group("a", &["x1"])]).len(), 0);
    assert_eq!(filter_and_convert_to_map(vec!["a"], vec![]).len(), 0);
}

#[test]
fn map_insert_replaces_what_stood_under_the_label() {
    let mut map = GroupMap::new();
    assert_eq!(map.len(), 0);
    map.insert("a".to_string(), ids(&["x1"]));
    map.insert("b".to_string(), ids(&["x2"]));
    map.insert("a".to_string(), ids(&["x3", "x4"]));
    assert_eq!(map.len(), 2);
    assert_eq!(map.get("a"), Some(&ids(&["x3", "x4"])));
    assert_eq!(map.get("b"), Some(&ids(&["x2"])));
    assert!(map.contains_key("a"));
    assert!(!map.contains_key("c"));
    let mut labels = map.labels();
    labels.sort();
    assert_eq!(labels, ids(&["a", "b"]));
}

#[test]
fn map_all_members_is_the_union_in_normal_form() {
    let mut map = GroupMap::new();
    assert_eq!(map.all_members(), ids(&[]));
    map.insert("a".to_string(), ids(&["x3", "x1"]));
    map.insert("b".to_string(), ids(&["x2", "x3"]));
    map.insert("c".to_string(), ids(&[]));
    assert_eq!(map.all_members(), ids(&["x1", "x2", "x3"]));
}

#[test]
fn labels_come_in_the_order_of_the_groups() {
    let listing = vec![group("b", &[]), group("a", &["x1"]), group("b", &["x2"])];
    assert_eq!(group_labels(&listing), ids(&["b", "a", "b"]));
    assert_eq!(group_labels(&Vec::new()), ids(&[]));
}
