use lcov_merge::{
    ChecksumError, FoundCounter, HitCounter, Line, LineData, Lines, MergeLine, Refusal, TryMerge,
};

#[test]
fn line_add_line_data() {
    let mut lines = Lines::new();
    lines.try_merge(&LineData { line: 1, count: 1, checksum: None }).unwrap();
    lines.try_merge(&LineData { line: 1, count: 1, checksum: None }).unwrap();

    let result = lines.clone();
    assert_eq!(result.get(&1), Some(&Line::new(1, 2, None)));
    assert_eq!(result.get(&1).map(|line| *line.execution_count()), Some(2u32));
}

#[test]
fn line_add_lines_data() {
    let mut lines = Lines::new();
    lines.try_merge(&LineData { line: 1, count: 1, checksum: None }).unwrap();

    let ref cloned_lines = lines.clone();
    lines.try_merge(cloned_lines).unwrap();

    assert_eq!(lines.get(&1), Some(&Line::new(1, 2, None)));
    assert_eq!(lines.get(&1).map(|line| *line.execution_count()), Some(2u32));
}

#[test]
fn line_hit_count_and_found_count() {
    let mut lines = Lines::new();
    lines.try_merge(&LineData { line: 1, count: 1, checksum: None }).unwrap();
    lines.try_merge(&LineData { line: 2, count: 0, checksum: None }).unwrap();

    assert_eq!(lines.hit_count(), 1);
    assert_eq!(lines.found_count(), 2);
}

#[test]
fn line_without_checksum_meets_line_without_checksum() {
    let mut lines = Lines::new();
    lines.try_merge(&LineData { line: 10, count: 1, checksum: None }).unwrap();
    lines.try_merge(&LineData { line: 10, count: 3, checksum: None }).unwrap();

    let line = lines.get(&10).unwrap();
    assert_eq!(*line.execution_count(), 4);
    assert_eq!(line.checksum(), None);
    assert!(!line.has_checkshum());
}

#[test]
fn line_checksum_is_kept_whichever_side_has_it() {
    let mut first = Lines::new();
    first.try_merge(&LineData { line: 10, count: 1, checksum: Some("abc".to_string()) }).unwrap();
    first.try_merge(&LineData { line: 10, count: 1, checksum: None }).unwrap();
    let mut second = Lines::new();
    second.try_merge(&LineData { line: 10, count: 1, checksum: None }).unwrap();
    second.try_merge(&LineData { line: 10, count: 1, checksum: Some("abc".to_string()) }).unwrap();

    for lines in [&first, &second] {
        let line = lines.get(&10).unwrap();
        assert_eq!(*line.line_number(), 10);
        assert_eq!(*line.execution_count(), 2);
        assert_eq!(line.checksum(), Some(&"abc".to_string()));
    }
}

#[test]
fn line_differing_checksums_are_an_error() {
    let mut lines = Lines::new();
    lines.try_merge(&LineData { line: 10, count: 1, checksum: Some("abc".to_string()) }).unwrap();
    let before = lines.clone();

    let result = lines.try_merge(&LineData { line: 10, count: 1, checksum: Some("def".to_string()) });

    assert_eq!(
        result,
        Err(ChecksumError::Mismatch(
            MergeLine { line: 10, checksum: Some("abc".to_string()) },
            MergeLine { line: 10, checksum: Some("def".to_string()) }
        ))
    );
    assert_eq!(lines.get(&10).map(|line| *line.execution_count()), Some(1));
    assert_eq!(lines.len(), before.len());
}

#[test]
fn lines_merge_reports_the_first_conflict_in_line_order() {
    let mut a = Lines::new();
    a.try_merge(&LineData { line: 7, count: 1, checksum: Some("p".to_string()) }).unwrap();
    a.try_merge(&LineData { line: 3, count: 1, checksum: Some("q".to_string()) }).unwrap();
    let mut b = Lines::new();
    b.try_merge(&LineData { line: 7, count: 1, checksum: Some("x".to_string()) }).unwrap();
    b.try_merge(&LineData { line: 3, count: 1, checksum: Some("y".to_string()) }).unwrap();
    b.try_merge(&LineData { line: 1, count: 1, checksum: Some("z".to_string()) }).unwrap();

    assert_eq!(
        a.try_merge(&b),
        Err(ChecksumError::Mismatch(
            MergeLine { line: 3, checksum: Some("q".to_string()) },
            MergeLine { line: 3, checksum: Some("y".to_string()) }
        ))
    );
    assert_eq!(a.len(), 2);
    assert_eq!(a.get(&3).map(|line| *line.execution_count()), Some(1));
}

#[test]
fn line_try_merge_checked_tells_overflow_from_conflict() {
    let mut lines = Lines::new();
    lines
        .try_merge(&LineData { line: 1, count: u32::MAX, checksum: Some("a".to_string()) })
        .unwrap();

    let overflow = lines.try_merge_checked(&LineData { line: 1, count: 1, checksum: None });
    assert!(matches!(overflow, Err(Refusal::Overflow)));
    let conflict =
        lines.try_merge_checked(&LineData { line: 1, count: 1, checksum: Some("b".to_string()) });
    assert!(matches!(conflict, Err(Refusal::Conflict(ChecksumError::Mismatch(_, _)))));
    assert!(lines.try_merge_checked(&LineData { line: 1, count: 0, checksum: None }).is_ok());
    assert_eq!(lines.get(&1).map(|line| *line.execution_count()), Some(u32::MAX));
}

#[test]
fn line_equality_goes_by_checksum_then_by_number() {
    assert_eq!(Line::new(1, 5, None), Line::new(1, 9, None));
    assert_ne!(Line::new(1, 5, None), Line::new(2, 5, None));
    assert_eq!(Line::new(1, 5, Some("a".to_string())), Line::new(2, 5, Some("a".to_string())));
    assert_ne!(Line::new(1, 5, Some("a".to_string())), Line::new(1, 5, Some("b".to_string())));
    assert_eq!(Line::new(1, 5, Some("a".to_string())), Line::new(1, 5, None));
}
