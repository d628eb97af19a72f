use ochami_rs::node_id::{id_less, same_id};
use ochami_rs::reconcile::{
    compute_delete_retained, compute_migration_state, contains_id, insert_id,
    merge_and_normalize,
};

fn ids(list: &[&str]) -> Vec<String> {
    list.iter().map(|id| id.to_string()).collect()
}

#[test]
fn id_order_is_that_of_strings() {
    let samples = ["", "x", "x1", "x10", "x2", "x1000c0s0b0n0", "x1000c0s0b0n1", "é", "z", "X"];
    for a in samples {
        for b in samples {
            assert_eq!(id_less(a, b), a < b, "{a:?} < {b:?}");
            assert_eq!(same_id(a, b), a == b, "{a:?} == {b:?}");
        }
    }
}

#[test]
fn id_order_prefix_comes_first() {
    assert!(id_less("x1", "x10"));
    assert!(!id_less("x10", "x1"));
    assert!(!id_less("x1", "x1"));
}

#[test]
fn merge_sorts_and_dedupes() {
    let merged = merge_and_normalize(&ids(&["x2", "x1"]), &ids(&["x3", "x1"]));
    assert_eq!(merged, ids(&["x1", "x2", "x3"]));
}

#[test]
fn merge_of_nothing_is_empty() {
    assert_eq!(merge_and_normalize(&ids(&[]), &ids(&[])), ids(&[]));
}

#[test]
fn merge_removes_duplicates_of_one_list() {
    let merged = merge_and_normalize(&ids(&["x3", "x3", "x1", "x3"]), &ids(&[]));
    assert_eq!(merged, ids(&["x1", "x3"]));
}

#[test]
fn merge_agrees_with_sort_and_dedup() {
    let existing = ids(&["x1000c0s0b0n3", "x1000c0s0b0n1", "x1000c0s1b0n0", "x9"]);
    let additions = ids(&["x1000c0s0b0n2", "x1000c0s0b0n1", "x10", "x9", "x1"]);
    let mut expected = existing.clone();
    expected.extend(additions.iter().cloned());
    expected.sort();
    expected.dedup();
    assert_eq!(merge_and_normalize(&existing, &additions), expected);
}

#[test]
fn merge_twice_is_merge_once() {
    let existing = ids(&["x4", "x2"]);
    let additions = ids(&["x3", "x2", "x5"]);
    let once = merge_and_normalize(&existing, &additions);
    let twice = merge_and_normalize(&once, &additions);
    assert_eq!(once, twice);
}

#[test]
fn insert_keeps_order_and_skips_known_id() {
    let mut list = ids(&["x1", "x3"]);
    insert_id(&mut list, &"x2".to_string());
    assert_eq!(list, ids(&["x1", "x2", "x3"]));
    insert_id(&mut list, &"x2".to_string());
    assert_eq!(list, ids(&["x1", "x2", "x3"]));
    insert_id(&mut list, &"x0".to_string());
    insert_id(&mut list, &"x9".to_string());
    assert_eq!(list, ids(&["x0", "x1", "x2", "x3", "x9"]));
}

#[test]
fn contains_finds_by_search() {
    let list = ids(&["x1", "x2", "x4", "x8"]);
    for id in ["x1", "x2", "x4", "x8"] {
        assert!(contains_id(&list, &id.to_string()));
    }
    for id in ["", "x0", "x3", "x5", "x9"] {
        assert!(!contains_id(&list, &id.to_string()));
    }
    assert!(!contains_id(&ids(&[]), &"x1".to_string()));
}

#[test]
fn delete_keeps_what_is_not_named() {
    let retained = compute_delete_retained(&ids(&["x3", "x1", "x2"]), &ids(&["x2", "x7"]));
    assert_eq!(retained, ids(&["x1", "x3"]));
}

#[test]
fn deleted_ids_are_absent_from_the_result() {
    let current = ids(&["x1", "x2", "x3", "x4"]);
    let to_delete = ids(&["x2", "x4"]);
    let retained = compute_delete_retained(&current, &to_delete);
    for id in &to_delete {
        assert!(!retained.contains(id));
    }
    assert_eq!(retained, ids(&["x1", "x3"]));
}

#[test]
fn delete_of_everything_leaves_nothing() {
    let current = ids(&["x1", "x2"]);
    assert_eq!(compute_delete_retained(&current, &current), ids(&[]));
    assert_eq!(compute_delete_retained(&current, &ids(&[])), current);
}

#[test]
fn migration_moves_node_from_parent_to_target() {
    let (target_new, parent_new) = compute_migration_state(
        &ids(&["x1", "x2"]),
        &ids(&["x4", "x5", "x6"]),
        &ids(&["x5"]),
    );
    assert_eq!(target_new, ids(&["x1", "x2", "x5"]));
    assert_eq!(parent_new, ids(&["x4", "x6"]));
}

#[test]
fn migration_takes_shared_node_out_of_parent() {
    let (target_new, parent_new) = compute_migration_state(
        &ids(&["x1", "x4"]),
        &ids(&["x4", "x5", "x6"]),
        &ids(&["x5"]),
    );
    assert_eq!(target_new, ids(&["x1", "x4", "x5"]));
    assert_eq!(parent_new, ids(&["x6"]));
}

#[test]
fn migration_lists_share_no_id() {
    let moving = ids(&["x5", "x7", "x5"]);
    let (target_new, parent_new) =
        compute_migration_state(&ids(&["x2", "x6"]), &ids(&["x7", "x6", "x5", "x3"]), &moving);
    for id in &target_new {
        assert!(!parent_new.contains(id));
    }
    for id in &moving {
        assert!(target_new.contains(id));
        assert!(!parent_new.contains(id));
    }
    assert_eq!(target_new, ids(&["x2", "x5", "x6", "x7"]));
    assert_eq!(parent_new, ids(&["x3"]));
}

#[test]
fn migration_planned_again_gives_the_same_lists() {
    let target = ids(&["x1", "x2"]);
    let parent = ids(&["x4", "x5", "x6"]);
    let moving = ids(&["x5", "x6"]);
    let (target_new, parent_new) = compute_migration_state(&target, &parent, &moving);
    let target_after = ids(&["x1", "x2", "x5", "x6"]);
    let parent_after = ids(&["x4"]);
    assert_eq!(
        compute_migration_state(&target_after, &parent_after, &moving),
        (target_new.clone(), parent_new.clone())
    );
    assert_eq!(
        compute_migration_state(&target_new, &parent_new, &moving),
        (target_new, parent_new)
    );
}
