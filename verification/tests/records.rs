use lcov_merge::record::{numbers_fit_in, read_record, FunctionName};
use lcov_merge::{
    BranchData, ChecksumError, Function, FunctionData, FunctionError, Line, LineData, MergeError,
    MergeLine, Record, RecordParseError, RecordWrite, Report, ReportParser, Stop, Test, TestError,
    Merge, TryMerge,
};

fn lines_of(text: &str) -> Vec<String> {
    text.split_inclusive('\n').map(|line| line.to_string()).collect()
}

const TRACE: &str = "TN:t1\nSF:a.c\nFN:0,late\nFNDA:1,late\nFN:3,main\nFNDA:0,main\nFNF:2\nFNH:1\n\
BRDA:1,0,0,1\nBRDA:1,0,1,0\nBRDA:4,2,0,7\nBRF:3\nBRH:2\nDA:1,1,abc\nDA:4,0\nLF:2\nLH:1\nend_of_record\n\
TN:t2\nSF:a.c\nend_of_record\n\
TN:\nSF:b.c\nDA:9,9\nLF:1\nLH:1\nend_of_record\n";

#[test]
fn report_to_records_leaves_the_summaries_out() {
    let mut parser = ReportParser::new();
    let report = parser.parse(&lines_of(TRACE)).unwrap();
    let expected: Vec<Record> = lines_of(TRACE)
        .iter()
        .map(|line| read_record(line).unwrap())
        .filter(|record| {
            !matches!(
                record,
                Record::FunctionsFound(_)
                    | Record::FunctionsHit(_)
                    | Record::LinesFound(_)
                    | Record::LinesHit(_)
                    | Record::BranchesFound(_)
                    | Record::BranchesHit(_)
            )
        })
        .map(|record| match record {
            Record::TestName(None) => Record::TestName(Some(String::new())),
            other => other,
        })
        .collect();
    assert_eq!(report.to_records(), expected);
}

#[test]
fn records_of_a_report_fold_back_into_it() {
    let mut parser = ReportParser::new();
    let report = parser.parse(&lines_of(TRACE)).unwrap();
    assert_eq!(report.to_string(), TRACE);

    let mut again = ReportParser::new();
    let folded = again.parse_records(&report.to_records()).unwrap();
    assert_eq!(folded.to_string(), TRACE);
    assert_eq!(folded.to_records(), report.to_records());
}

#[test]
fn numbers_of_a_record_have_to_fit_u32() {
    assert!(numbers_fit_in("DA:4294967295,4294967295\n"));
    assert!(!numbers_fit_in("DA:4294967296,1\n"));
    assert!(!numbers_fit_in("DA:1,4294967296\n"));
    assert!(numbers_fit_in("DA:1,1,99999999999999999999\n"));
    assert!(numbers_fit_in("DA:00000000000000000001,1\n"));
    assert!(!numbers_fit_in("FN:99999999999,f\n"));
    assert!(numbers_fit_in("FN:1,99999999999\n"));
    assert!(!numbers_fit_in("FNDA:99999999999,f\n"));
    assert!(!numbers_fit_in("FNF:99999999999\n"));
    assert!(!numbers_fit_in("FNH:99999999999\n"));
    assert!(!numbers_fit_in("LF:99999999999\n"));
    assert!(!numbers_fit_in("LH:99999999999\n"));
    assert!(!numbers_fit_in("BRF:99999999999\n"));
    assert!(!numbers_fit_in("BRH:99999999999\n"));
    assert!(!numbers_fit_in("BRDA:1,2,3,99999999999\n"));
    assert!(!numbers_fit_in("BRDA:1,2,99999999999,4\n"));
    assert!(numbers_fit_in("BRDA:1,2,3,-\n"));
    assert!(numbers_fit_in("BRDA:1,2,3,4,99999999999\n"));
    assert!(numbers_fit_in("TN:99999999999\n"));
    assert!(numbers_fit_in("SF:/build-20240101123456/a.c\n"));
    assert!(numbers_fit_in("99999999999\n"));
    assert!(numbers_fit_in(""));
    assert!(numbers_fit_in("DA:x99999999999\n"));
}

#[test]
fn lines_whose_numbers_fit_are_read_or_refused_without_a_panic() {
    for line in [
        "DA:4294967295,4294967295\n",
        "DA:1,1,99999999999999999999\n",
        "DA:00000000000000000001,1\n",
        "DA:00000000004294967295,00000000000000000000\n",
        "FN:1,99999999999\n",
        "FN:4294967295,99999999999,99999999999\n",
        "FNDA:0,99999999999\n",
        "BRDA:1,2,3,-\n",
        "BRDA:1,2,3,4,99999999999\n",
        "BRDA:1,2,3\n",
        "BRDA:1,,99999999999\n",
        "BRDA:1;99999999999\n",
        "BRDA:-,99999999999\n",
        "TN:99999999999\n",
        "SF:/build-20240101123456/a.c\n",
        "99999999999\n",
        "",
        "\n",
        "DA:x99999999999\n",
        "DA:1 ,99999999999\n",
        "DA:,99999999999\n",
        "da:99999999999\n",
        " DA:99999999999\n",
        "FNA:99999999999\n",
        "FNF:1,99999999999\n",
        "LH:4294967295x\n",
        "BRF :99999999999\n",
        "end_of_record99999999999\n",
        "DA:\u{661}\u{662}99999999999,1\n",
    ] {
        assert!(numbers_fit_in(line), "{:?}", line);
        let _ = read_record(line);
    }
}

#[test]
fn long_digit_runs_in_names_are_read() {
    assert_eq!(
        read_record("SF:/build-20240101123456/a.c\n").unwrap(),
        Record::SourceFile("/build-20240101123456/a.c".to_string())
    );
    assert_eq!(
        read_record("DA:1,1,99999999999999999999\n").unwrap(),
        Record::Data(LineData {
            line: 1,
            count: 1,
            checksum: Some("99999999999999999999".to_string())
        })
    );
    assert_eq!(
        read_record("BRDA:1,2,3,-\n").unwrap(),
        Record::BranchData(BranchData { line: 1, block: 2, branch: 3, taken: 0 })
    );
}

#[test]
fn number_beyond_u32_stops_the_parser() {
    let mut parser = ReportParser::new();
    assert!(parser.feed_line("TN:t\n").is_ok());
    assert!(matches!(parser.feed_line("DA:1,4294967296\n"), Err(Stop::Overflow)));
    assert_eq!(parser.line, 1);
    assert!(parser.feed_line("DA:1,4294967295\n").is_ok());
    assert!(matches!(parser.feed_line("DA:1,1\n"), Err(Stop::Overflow)));
    assert_eq!(parser.line, 2);
}

#[test]
fn feed_line_counts_the_lines_it_takes() {
    let mut parser = ReportParser::new();
    assert_eq!(parser.line, 0);
    parser.feed_line("TN:t\n").unwrap();
    parser.feed_line("SF:a.c\n").unwrap();
    parser.feed_line("LF:3\n").unwrap();
    assert_eq!(parser.line, 3);
    match parser.feed_line("what\n") {
        Err(Stop::Failed(MergeError::RecordParse(RecordParseError { line, .. }))) => {
            assert_eq!(line, 4)
        }
        other => panic!("{:?}", other),
    }
    assert_eq!(parser.line, 3);
    parser.feed_line("end_of_record\n").unwrap();
    assert_eq!(parser.report().len(), 1);
    assert!(matches!(parser.feed_line("end_of_record"), Err(Stop::Failed(MergeError::RecordParse(_)))));
}

#[test]
fn parser_handlers_follow_the_cursor() {
    let mut parser = ReportParser::new();
    parser.on_data(&LineData { line: 1, count: 1, checksum: None }).unwrap();
    assert!(parser.tests.tests().is_empty());

    parser.on_test_name(&None);
    assert_eq!(parser.test_name, Some(String::new()));
    parser.on_source_file(&"a.c".to_string());
    assert_eq!(parser.source_name, Some("a.c".to_string()));
    parser.on_data(&LineData { line: 1, count: 1, checksum: None }).unwrap();
    parser.on_func_name(&FunctionName { name: "f".to_string(), line: 2 }).unwrap();
    parser.on_func_data(&FunctionData { name: "f".to_string(), count: 3 }).unwrap();
    parser.on_branch_data(&BranchData { line: 1, block: 0, branch: 0, taken: 4 }).unwrap();
    parser.step(&Record::LinesFound(100)).unwrap();
    parser.on_end_of_record().unwrap();
    assert!(parser.tests.tests().is_empty());
    assert_eq!(parser.test_name, Some(String::new()));

    assert_eq!(
        parser.report().to_string(),
        "TN:\nSF:a.c\nFN:2,f\nFNDA:3,f\nFNF:1\nFNH:1\nBRDA:1,0,0,4\nBRF:1\nBRH:1\nDA:1,1\nLF:1\nLH:1\nend_of_record\n"
    );
}

#[test]
fn write_records_appends_each_block() {
    let mut test = Test::new();
    let mut out = "x".to_string();
    test.lines().write_records(&mut out);
    test.functions().write_records(&mut out);
    test.branches().write_records(&mut out);
    assert_eq!(out, "x");

    test.try_merge(&LineData { line: 12, count: 0, checksum: Some("cs".to_string()) }).unwrap();
    test.try_merge(&LineData { line: 3, count: 10, checksum: None }).unwrap();
    test.try_merge(&FunctionData { name: "g".to_string(), count: 0 }).unwrap();
    test.merge(&BranchData { line: 2, block: 1, branch: 0, taken: 0 });
    test.merge(&BranchData { line: 1, block: 1, branch: 0, taken: 1 });
    test.merge(&BranchData { line: 1, block: 0, branch: 5, taken: 1 });

    test.lines().write_records(&mut out);
    assert_eq!(out, "xDA:3,10\nDA:12,0,cs\nLF:2\nLH:1\n");
    let mut out = String::new();
    test.functions().write_records(&mut out);
    assert_eq!(out, "FN:0,g\nFNDA:0,g\nFNF:1\nFNH:0\n");
    let mut out = String::new();
    test.branches().write_records(&mut out);
    assert_eq!(out, "BRDA:1,0,5,1\nBRDA:1,1,0,1\nBRDA:2,1,0,0\nBRF:3\nBRH:2\n");

    let mut out = String::new();
    Report::new(lcov_merge::Files::new()).write_records(&mut out);
    assert_eq!(out, "");
}

#[test]
fn errors_convert_upwards() {
    let checksum = || {
        ChecksumError::Mismatch(
            MergeLine::from(&Line::new(1, 1, Some("a".to_string()))),
            MergeLine { line: 1, checksum: Some("b".to_string()) },
        )
    };
    let function = || {
        FunctionError::Mismatch(
            FunctionName { name: "f".to_string(), line: 1 },
            FunctionName { name: "f".to_string(), line: 2 },
        )
    };
    assert_eq!(
        MergeLine::from(&Line::new(7, 1, Some("a".to_string()))),
        MergeLine { line: 7, checksum: Some("a".to_string()) }
    );
    assert_eq!(MergeLine::from(&Line::new(7, 1, None)), MergeLine { line: 7, checksum: None });
    assert_eq!(TestError::from(checksum()), TestError::Checksum(checksum()));
    assert_eq!(TestError::from(function()), TestError::Function(function()));
    assert!(matches!(
        MergeError::from(checksum()),
        MergeError::Process(TestError::Checksum(ChecksumError::Mismatch(_, _)))
    ));
    assert!(matches!(
        MergeError::from(function()),
        MergeError::Process(TestError::Function(FunctionError::Mismatch(_, _)))
    ));
    assert!(matches!(
        MergeError::from(TestError::Function(function())),
        MergeError::Process(TestError::Function(_))
    ));
    assert!(matches!(
        MergeError::from(RecordParseError { line: 1, column: 2, message: "m".to_string() }),
        MergeError::RecordParse(RecordParseError { line: 1, column: 2, .. })
    ));
    assert!(matches!(
        MergeError::from(std::io::Error::new(std::io::ErrorKind::NotFound, "gone")),
        MergeError::IO(_)
    ));
    assert!(matches!(ChecksumError::Empty(MergeLine { line: 1, checksum: None }), ChecksumError::Empty(_)));
}

#[test]
fn lines_and_functions_come_from_their_records() {
    let line = Line::from(&LineData { line: 3, count: 4, checksum: Some("c".to_string()) });
    assert_eq!(*line.line_number(), 3);
    assert_eq!(*line.execution_count(), 4);
    assert_eq!(line.checksum(), Some(&"c".to_string()));
    assert!(line.has_checkshum());

    let declared = Function::from(&FunctionName { name: "f".to_string(), line: 9 });
    assert_eq!((declared.name().as_str(), *declared.line_number(), *declared.execution_count()), ("f", 9, 0));
    let counted = Function::from(&FunctionData { name: "f".to_string(), count: 2 });
    assert_eq!((counted.name().as_str(), *counted.line_number(), *counted.execution_count()), ("f", 0, 2));
    assert_eq!(declared.clone(), declared);
    assert_ne!(declared, counted);
    assert_eq!(line.clone(), line);
}
