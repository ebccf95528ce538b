use lcov_merge::{
    BranchBlocks, BranchData, BranchUnit, Function, FunctionData, Line, LineData, Merge, Test,
    TestError, TestSum, Tests, TryMerge,
};
use lcov_merge::{ChecksumError, FunctionError};
use lcov_merge::record::FunctionName;

#[test]
fn test_add_line_data() {
    let mut test = Test::new();

    test.try_merge(&LineData { line: 1, count: 1, checksum: None }).unwrap();
    assert_eq!(test.get_line_count(&1), Some(&1u32));

    test.try_merge(&LineData { line: 1, count: 1, checksum: None }).unwrap();
    assert_eq!(test.get_line_count(&1), Some(&2u32));
}

#[test]
fn test_add_func_data() {
    let mut test = Test::new();

    test.try_merge(&FunctionData { name: "main".to_string(), count: 1 }).unwrap();
    assert_eq!(test.get_func_count(&"main".to_string()), Some(&1u32));

    test.try_merge(&FunctionData { name: "main".to_string(), count: 1 }).unwrap();
    assert_eq!(test.get_func_count(&"main".to_string()), Some(&2u32));
}

#[test]
fn test_add_branch_data() {
    let mut test = Test::new();

    test.merge(&BranchData { line: 1, block: 1, branch: 1, taken: 1 });

    let mut branches1 = BranchBlocks::new();
    branches1.merge(&BranchData { line: 1, block: 1, branch: 1, taken: 1 });

    assert_eq!(test.get_branch_count(&1), Some(&branches1));

    test.merge(&BranchData { line: 1, block: 1, branch: 1, taken: 1 });

    let mut branches2 = BranchBlocks::new();
    branches2.merge(&BranchData { line: 1, block: 1, branch: 1, taken: 2 });

    assert_eq!(test.get_branch_count(&1), Some(&branches2));
}

#[test]
fn test_add_test_data() {
    let mut test1 = Test::new();

    test1.try_merge(&LineData { line: 1, count: 1, checksum: Some("xyz".to_string()) }).unwrap();
    test1.try_merge(&FunctionData { name: "main".to_string(), count: 1 }).unwrap();
    test1.merge(&BranchData { line: 1, block: 1, branch: 1, taken: 1 });

    let test2 = {
        let mut test2 = Test::new();
        test2
            .try_merge(&LineData { line: 1, count: 1, checksum: Some("xyz".to_string()) })
            .unwrap();
        test2.try_merge(&FunctionData { name: "main".to_string(), count: 1 }).unwrap();
        test2.merge(&BranchData { line: 1, block: 1, branch: 1, taken: 1 });
        test2
    };
    test1.try_merge(&test2).unwrap();

    let lines = test1.lines();
    assert_eq!(lines.get(&1), Some(&Line::new(1, 2, None)));
    assert_eq!(test1.get_line_count(&1), Some(&2u32));

    let functions = test1.functions();
    assert_eq!(functions.get(&"main".to_string()), Some(&Function::new("main".to_string(), 0, 2)));
    assert_eq!(test1.get_func_count(&"main".to_string()), Some(&2u32));

    let mut branches = BranchBlocks::new();
    branches.merge(&BranchData { line: 1, block: 1, branch: 1, taken: 2 });

    assert_eq!(test1.get_branch_count(&1), Some(&branches));
}

#[test]
fn test_add_tests_data() {
    let mut tests = Tests::new();
    let line_data = &LineData { line: 1, count: 1, checksum: None };
    let function_data = &FunctionData { name: "main".to_string(), count: 1 };
    let branch_data = &BranchData { line: 1, block: 1, branch: 1, taken: 1 };
    let test_name = "test1".to_string();
    let function_name = "main".to_string();

    tests.try_merge((&test_name, line_data)).unwrap();
    tests.try_merge((&test_name, function_data)).unwrap();
    tests.merge((&test_name, branch_data));

    assert!(tests.contains_key(&test_name));

    let test = tests.get(&test_name).unwrap();
    let lines = test.lines();
    let functions = test.functions();
    let branches = test.branches();
    let branch_blocks = branches.get(&1).unwrap();

    assert_eq!(lines.get(&1), Some(&Line::new(1, 1, None)));
    assert_eq!(functions.get(&function_name), Some(&Function::new("main".to_string(), 0, 1)));
    assert_eq!(functions.get(&function_name).map(|f| *f.execution_count()), Some(1));
    assert_eq!(branch_blocks.get(&BranchUnit::new(1, 1)), Some(&1));
}

#[test]
fn test_sum_add_line_data() {
    let mut test = TestSum::new();

    test.try_merge(&LineData { line: 1, count: 1, checksum: None }).unwrap();
    assert_eq!(test.get_line_count(&1), Some(&1u32));

    test.try_merge(&LineData { line: 1, count: 1, checksum: None }).unwrap();
    assert_eq!(test.get_line_count(&1), Some(&2u32));
}

#[test]
fn test_sum_add_func_data() {
    let mut test = TestSum::new();

    test.try_merge(&FunctionData { name: "main".to_string(), count: 1 }).unwrap();
    assert_eq!(test.get_func_count(&"main".to_string()), Some(&1u32));

    test.try_merge(&FunctionData { name: "main".to_string(), count: 1 }).unwrap();
    assert_eq!(test.get_func_count(&"main".to_string()), Some(&2u32));
}

#[test]
fn test_sum_add_branch_data() {
    let mut test = TestSum::default();

    test.merge(&BranchData { line: 1, block: 1, branch: 1, taken: 1 });

    let mut first_branch_count = BranchBlocks::new();
    first_branch_count.insert(BranchUnit::new(1, 1), 1);

    assert_eq!(test.get_branch_count(&1), Some(&first_branch_count));

    test.merge(&BranchData { line: 1, block: 1, branch: 1, taken: 1 });

    let mut second_branch_count = BranchBlocks::new();
    second_branch_count.insert(BranchUnit::new(1, 1), 2);

    assert_eq!(test.get_branch_count(&1), Some(&second_branch_count));
}

#[test]
fn test_merge_reports_lines_before_functions() {
    let mut a = Test::new();
    a.try_merge(&LineData { line: 1, count: 1, checksum: Some("a".to_string()) }).unwrap();
    a.try_merge(&FunctionName { name: "f".to_string(), line: 1 }).unwrap();
    let mut b = Test::new();
    b.try_merge(&LineData { line: 1, count: 1, checksum: Some("b".to_string()) }).unwrap();
    b.try_merge(&FunctionName { name: "f".to_string(), line: 2 }).unwrap();

    assert!(matches!(a.try_merge(&b), Err(TestError::Checksum(ChecksumError::Mismatch(_, _)))));

    let mut c = Test::new();
    c.try_merge(&FunctionName { name: "f".to_string(), line: 2 }).unwrap();
    assert!(matches!(a.try_merge(&c), Err(TestError::Function(FunctionError::Mismatch(_, _)))));
    assert_eq!(a.get_line_count(&1), Some(&1));
}

#[test]
fn tests_merge_name_opens_an_empty_test_once() {
    let mut tests = Tests::new();
    let name = "t".to_string();
    tests.merge(&name);
    assert_eq!(tests.len(), 1);
    assert!(tests.get(&name).unwrap().lines().is_empty());

    tests.try_merge((&name, &LineData { line: 1, count: 1, checksum: None })).unwrap();
    tests.merge(&name);
    assert_eq!(tests.len(), 1);
    assert_eq!(tests.get(&name).unwrap().get_line_count(&1), Some(&1));
}
