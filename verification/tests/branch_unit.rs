use lcov_merge::branch::BranchUnit;
use std::collections::HashMap;

#[test]
fn branch_branch_unit() {
    let branch1 = BranchUnit::new(1, 1);
    let branch2 = BranchUnit::new(1, 2);
    assert!(branch1 != branch2, "branch1 = {:?}, branch2 = {:?}", branch1, branch2);

    let same_branch1 = BranchUnit::new(1, 1);
    let same_branch2 = BranchUnit::new(1, 1);
    assert!(
        same_branch1 == same_branch2,
        "branch1 = {:?}, branch2 = {:?}",
        same_branch1,
        same_branch2
    );
}

#[test]
fn branch_branch_unit_as_hash_key() {
    let mut container = HashMap::new();
    container.insert(BranchUnit::new(1, 1), 1);

    assert!(container.contains_key(&BranchUnit::new(1, 1)));
}

#[test]
fn branch_unit() {
    let branch1 = BranchUnit(1, 1);
    let branch2 = BranchUnit(1, 2);

    assert!(branch1 != branch2);

    let same_branch1 = BranchUnit(1, 1);
    let same_branch2 = BranchUnit(1, 1);

    assert_eq!(same_branch1, same_branch2);
}

#[test]
fn branch_unit_as_hash_key() {
    let mut container = HashMap::new();
    container.insert(BranchUnit(1, 1), 1);

    assert!(container.contains_key(&BranchUnit(1, 1)));
}
