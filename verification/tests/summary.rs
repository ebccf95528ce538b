use lcov_merge::summary::Summary;
use lcov_merge::{AggregateResult, BranchUnit, Hit, Line, LineData, Lines, TryMerge};

#[test]
fn aggregate_result_insert_keeps_keys_ascending_and_returns_the_old_value() {
    let mut map: AggregateResult<u32, u32> = AggregateResult::new();
    assert!(map.is_empty());
    assert_eq!(map.insert(5, 50), None);
    assert_eq!(map.insert(1, 10), None);
    assert_eq!(map.insert(3, 30), None);
    assert_eq!(map.insert(5, 55), Some(50));

    assert_eq!(map.len(), 3);
    assert!(!map.is_empty());
    let entries: Vec<(u32, u32)> = (0..map.len()).map(|i| (*map.key_at(i), *map.value_at(i))).collect();
    assert_eq!(entries, vec![(1, 10), (3, 30), (5, 55)]);
    assert_eq!(map.locate(&3), (true, 1));
    assert_eq!(map.locate(&0), (false, 0));
    assert_eq!(map.locate(&4), (false, 2));
    assert_eq!(map.locate(&9), (false, 3));
}

#[test]
fn aggregate_result_get_mut_changes_the_value_in_place() {
    let mut map: AggregateResult<String, u32> = AggregateResult::new();
    map.insert("b".to_string(), 2);
    map.insert("a".to_string(), 1);

    *map.get_mut(&"a".to_string()).unwrap() += 10;
    *map.value_at_mut(1) += 20;
    assert!(map.get_mut(&"c".to_string()).is_none());

    assert_eq!(map.get(&"a".to_string()), Some(&11));
    assert_eq!(map.get(&"b".to_string()), Some(&22));
    assert!(map.contains_key(&"a".to_string()));
    assert!(!map.contains_key(&"".to_string()));
}

#[test]
fn aggregate_result_single_and_insert_at() {
    let mut map = AggregateResult::single(BranchUnit::new(1, 1), 7u32);
    map.insert_at(0, BranchUnit::new(0, 9), 1);
    map.insert_at(2, BranchUnit::new(1, 2), 2);
    assert_eq!(map.len(), 3);
    assert_eq!(map.get(&BranchUnit::new(1, 1)), Some(&7));
    assert_eq!(*map.key_at(0), BranchUnit::new(0, 9));
    assert_eq!(*map.key_at(2), BranchUnit::new(1, 2));
}

#[test]
fn summary_looks_up_by_key() {
    let mut lines = Lines::new();
    lines.try_merge(&LineData { line: 2, count: 0, checksum: None }).unwrap();
    lines.try_merge(&LineData { line: 1, count: 3, checksum: None }).unwrap();

    assert_eq!(Summary::len(&lines), 2);
    assert!(!Summary::is_empty(&lines));
    assert!(Summary::contains_key(&lines, &2));
    assert!(!Summary::contains_key(&lines, &3));
    assert_eq!(Summary::get(&lines, &1), Some(&Line::new(1, 3, None)));
    assert_eq!(Summary::get(&lines, &3), None);
    assert!(Summary::is_empty(&Lines::new()));
}

#[test]
fn hit_is_a_count_above_zero() {
    assert!(!0u32.is_hit());
    assert!(1u32.is_hit());
    assert!(u32::MAX.is_hit());
    assert!(!Line::new(1, 0, None).is_hit());
    assert!(Line::new(1, 1, None).is_hit());
}

#[test]
fn merge_entry_refuses_without_a_change() {
    let mut map: AggregateResult<u32, u32> = AggregateResult::single(1, u32::MAX);
    assert!(map.merge_entry(&1, 1).is_err());
    assert!(map.merge_entry_ref(&1, &1).is_err());
    assert_eq!(map.get(&1), Some(&u32::MAX));
    assert!(map.merge_entry(&2, 1).is_ok());
    assert!(map.merge_entry_ref(&2, &1).is_ok());
    assert!(map.merge_entry_ref(&3, &9).is_ok());
    assert_eq!(map.get(&2), Some(&2));
    assert_eq!(map.get(&3), Some(&9));
}
