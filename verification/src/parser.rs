//! The record-driven parser: it folds the records of one trace into a report,
//! keeping track of the test and the source file that the records belong to.

use crate::aggregate::entry_merged;
use crate::aggregate::refusal;
use crate::aggregate::Aggregate;
use crate::aggregate::Refusal;
use crate::file::File;
use crate::file::Files;
use crate::merge::ChecksumError;
use crate::merge::FunctionError;
use crate::merge::Merge;
use crate::merge::MergeError;
use crate::merge::TestError;
use crate::merge::TryMerge;
use crate::record::BranchData;
use crate::record::FunctionData;
use crate::record::FunctionName;
use crate::record::LineData;
use crate::record::line_record;
use crate::record::numbers_fit;
use crate::record::numbers_fit_in;
use crate::record::read_record;
use crate::record::Record;
use crate::record::RecordParseError;
use crate::report::Report;
use crate::report::ReportModel;
use crate::summary::lemma_entry_at;
use crate::summary::position;
use crate::test::empty_test;
use crate::test::lemma_of_branch;
use crate::test::lemma_of_function_data;
use crate::test::lemma_of_function_name;
use crate::test::lemma_of_line;
use crate::test::lemma_test_at;
use crate::test::single_branch;
use crate::test::single_count;
use crate::test::single_declaration;
use crate::test::single_line;
use crate::test::Test;
use crate::test::TestModel;
use crate::test::Tests;
use vstd::prelude::*;
use vstd::utf8::encode_utf8;

verus! {

/// Why the parser does not take a record.
#[derive(Debug)]
pub enum Stop {
    /// A number does not fit `u32`: a sum of counts, a number written in
    /// the trace, or the number of its lines.
    Overflow,
    /// A block was closed before any source file was named.
    MissingSource,
    /// The trace is refused with this error.
    Failed(MergeError),
}

/// What the parser holds.
pub struct ParserModel {
    /// The test that records belong to, once one was named.
    pub test_name: Option<Seq<char>>,
    /// The source file that records belong to, once one was named.
    pub source: Option<Seq<char>>,
    /// The tests of the block that is open.
    pub tests: Map<Seq<char>, TestModel>,
    /// The blocks that were closed.
    pub files: ReportModel,
}

/// The parser before the first record.
pub open spec fn initial() -> ParserModel {
    ParserModel { test_name: None, source: None, tests: Map::empty(), files: Map::empty() }
}

/// The name that a `TN` record gives: the empty name where it gives none.
pub open spec fn named(name: Option<String>) -> Seq<char> {
    match name {
        Some(s) => s@,
        None => Seq::empty(),
    }
}

/// The open block with the test of one record merged into the current
/// test; nothing where the two disagree or a count would leave `u32`.
/// Before the first `TN` record the record is passed over.
pub open spec fn with_test(m: ParserModel, single: TestModel) -> Option<ParserModel> {
    match m.test_name {
        None => Some(m),
        Some(name) => if m.tests.contains_key(name) && !(Test::compatible(m.tests[name], single)
            && Test::fits(Test::merged(m.tests[name], single))) {
            None
        } else {
            Some(ParserModel { tests: entry_merged::<Seq<char>, Test>(m.tests, name, single), ..m })
        },
    }
}

/// The parser after one record; nothing where the parser stops.
pub open spec fn step_model(m: ParserModel, record: Record) -> Option<ParserModel> {
    match record {
        Record::TestName(name) => Some(
            ParserModel {
                test_name: Some(named(name)),
                tests: if m.tests.contains_key(named(name)) {
                    m.tests
                } else {
                    m.tests.insert(named(name), empty_test())
                },
                ..m
            },
        ),
        Record::SourceFile(path) => Some(ParserModel { source: Some(path@), ..m }),
        Record::Data(data) => with_test(m, single_line(data)),
        Record::FunctionName(record) => with_test(m, single_declaration(record)),
        Record::FunctionData(record) => with_test(m, single_count(record)),
        Record::BranchData(data) => with_test(m, single_branch(data)),
        Record::EndOfRecord => match m.source {
            None => None,
            Some(path) => if m.files.contains_key(path) && !(File::compatible(
                m.files[path],
                m.tests,
            ) && File::fits(File::merged(m.files[path], m.tests))) {
                None
            } else {
                Some(
                    ParserModel {
                        files: entry_merged::<Seq<char>, File>(m.files, path, m.tests),
                        tests: Map::empty(),
                        ..m
                    },
                )
            },
        },
        _ => Some(m),
    }
}

/// The parser after a sequence of records; nothing where it stops on the way.
pub open spec fn run_model(m: ParserModel, records: Seq<Record>) -> Option<ParserModel>
    decreases records.len(),
{
    if records.len() == 0 {
        Some(m)
    } else {
        match run_model(m, records.drop_last()) {
            Some(p) => step_model(p, records.last()),
            None => None,
        }
    }
}

/// Where the parser stops on a prefix of the records, it stops on all of them.
pub proof fn lemma_run_stops(m: ParserModel, records: Seq<Record>, n: int)
    requires
        0 <= n <= records.len(),
        run_model(m, records.take(n)) is None,
    ensures
        run_model(m, records) is None,
    decreases records.len() - n,
{
    if n < records.len() {
        assert(records.take(n + 1).drop_last() =~= records.take(n));
        lemma_run_stops(m, records, n + 1);
    } else {
        assert(records.take(n) =~= records);
    }
}

/// A refusal of lines as a stop of the parser.
pub open spec fn stop_of_lines(r: Option<Refusal<ChecksumError>>) -> Option<Stop> {
    match r {
        Some(Refusal::Conflict(e)) => Some(
            Stop::Failed(MergeError::Process(TestError::Checksum(e))),
        ),
        Some(Refusal::Overflow) => Some(Stop::Overflow),
        None => None,
    }
}

/// A refusal of functions as a stop of the parser.
pub open spec fn stop_of_functions(r: Option<Refusal<FunctionError>>) -> Option<Stop> {
    match r {
        Some(Refusal::Conflict(e)) => Some(
            Stop::Failed(MergeError::Process(TestError::Function(e))),
        ),
        Some(Refusal::Overflow) => Some(Stop::Overflow),
        None => None,
    }
}

/// A refusal of tests as a stop of the parser.
pub open spec fn stop_of_tests(r: Option<Refusal<TestError>>) -> Option<Stop> {
    match r {
        Some(Refusal::Conflict(e)) => Some(Stop::Failed(MergeError::Process(e))),
        Some(Refusal::Overflow) => Some(Stop::Overflow),
        None => None,
    }
}

/// The parser of one trace.
#[derive(Debug)]
pub struct ReportParser {
    pub test_name: Option<String>,
    pub source_name: Option<String>,
    /// The block that is open.
    pub tests: File,
    /// The blocks that were closed.
    pub files: Files,
    /// How many lines of text were read.
    pub line: u32,
}

impl ReportParser {
    /// The open block and the closed blocks are well formed.
    pub open spec fn inv(&self) -> bool {
        self.tests.inv() && self.files.inv()
    }

    /// What the parser holds.
    pub open spec fn model(&self) -> ParserModel {
        ParserModel {
            test_name: match self.test_name {
                Some(s) => Some(s@),
                None => None,
            },
            source: match self.source_name {
                Some(s) => Some(s@),
                None => None,
            },
            tests: self.tests.model(),
            files: self.files.model(),
        }
    }

    /// Why the parser does not take the record, if it does not.
    pub open spec fn stop(&self, record: Record) -> Option<Stop> {
        match record {
            Record::Data(data) => match self.test_name {
                Some(name) => stop_of_lines(self.tests.tests.merge_refusal((&name, &data))),
                None => None,
            },
            Record::FunctionName(record) => match self.test_name {
                Some(name) => stop_of_functions(self.tests.tests.merge_refusal((&name, &record))),
                None => None,
            },
            Record::FunctionData(record) => match self.test_name {
                Some(name) => stop_of_functions(self.tests.tests.merge_refusal((&name, &record))),
                None => None,
            },
            Record::BranchData(data) => match self.test_name {
                Some(name) => if self.tests.tests.merge_fits((&name, &data)) {
                    None
                } else {
                    Some(Stop::Overflow)
                },
                None => None,
            },
            Record::EndOfRecord => match self.source_name {
                Some(path) => stop_of_tests(self.files.merge_refusal((&path, &self.tests))),
                None => Some(Stop::MissingSource),
            },
            _ => None,
        }
    }

    /// What holds after the parser was handed `record` and answered `r`:
    /// it has taken the record, or it is as it was.
    pub open spec fn stepped(&self, record: Record, r: Result<(), Stop>, after: &Self) -> bool {
        &&& after.inv()
        &&& after.line == self.line
        &&& match r {
            Ok(()) => self.stop(record) is None && step_model(self.model(), record) == Some(
                after.model(),
            ),
            Err(s) => self.stop(record) == Some(s) && step_model(self.model(), record) is None
                && *after == *self,
        }
    }

    pub fn new() -> (parser: Self)
        ensures
            parser.inv(),
            parser.model() == initial(),
            parser.line == 0,
    {
        let parser = ReportParser {
            test_name: None,
            source_name: None,
            tests: File::new(Tests::new()),
            files: Files::new(),
            line: 0,
        };
        proof {
            assert(parser.tests.model() =~= Map::empty());
            assert(parser.files.model() =~= Map::empty());
        }
        parser
    }

    /// `TN`: the test becomes the current one, and is opened in the block
    /// if it is not there yet.
    pub fn on_test_name(&mut self, test_name: &Option<String>)
        requires
            old(self).inv(),
        ensures
            old(self).stepped(Record::TestName(*test_name), Ok(()), final(self)),
    {
        let name = match test_name {
            Some(name) => name.clone(),
            None => String::new(),
        };
        self.tests.tests.merge(&name);
        self.test_name = Some(name);
    }

    /// `SF`: the source file becomes the current one.
    pub fn on_source_file(&mut self, source_name: &String)
        requires
            old(self).inv(),
        ensures
            old(self).stepped(Record::SourceFile(*source_name), Ok(()), final(self)),
    {
        self.source_name = Some(source_name.clone());
    }

    /// `DA`: the line goes to the current test.
    pub fn on_data(&mut self, line_data: &LineData) -> (r: Result<(), Stop>)
        requires
            old(self).inv(),
        ensures
            old(self).stepped(Record::Data(*line_data), r, final(self)),
    {
        match &self.test_name {
            Some(name) => {
                let single = Test::of_line(line_data);
                proof {
                    if self.tests.tests@.contains_key(name@) {
                        lemma_test_at(&self.tests.tests, name@);
                        lemma_of_line(&self.tests.tests@[name@], &single, *line_data);
                        self.tests.tests@[name@].lemma_conflict(&single);
                    } else {
                        lemma_of_line(&single, &single, *line_data);
                    }
                }
                match self.tests.tests.merge_entry(name, single) {
                    Ok(()) => Ok(()),
                    Err(Refusal::Conflict(e)) => Err(Stop::Failed(MergeError::Process(e))),
                    Err(Refusal::Overflow) => Err(Stop::Overflow),
                }
            },
            None => Ok(()),
        }
    }

    /// `FN`: the declaration goes to the current test.
    pub fn on_func_name(&mut self, func_name: &FunctionName) -> (r: Result<(), Stop>)
        requires
            old(self).inv(),
        ensures
            old(self).stepped(Record::FunctionName(*func_name), r, final(self)),
    {
        match &self.test_name {
            Some(name) => {
                let single = Test::of_function_name(func_name);
                proof {
                    if self.tests.tests@.contains_key(name@) {
                        lemma_test_at(&self.tests.tests, name@);
                        lemma_of_function_name(&self.tests.tests@[name@], &single, *func_name);
                        self.tests.tests@[name@].lemma_conflict(&single);
                    } else {
                        lemma_of_function_name(&single, &single, *func_name);
                    }
                }
                match self.tests.tests.merge_entry(name, single) {
                    Ok(()) => Ok(()),
                    Err(Refusal::Conflict(e)) => Err(Stop::Failed(MergeError::Process(e))),
                    Err(Refusal::Overflow) => Err(Stop::Overflow),
                }
            },
            None => Ok(()),
        }
    }

    /// `FNDA`: the count goes to the current test.
    pub fn on_func_data(&mut self, func_data: &FunctionData) -> (r: Result<(), Stop>)
        requires
            old(self).inv(),
        ensures
            old(self).stepped(Record::FunctionData(*func_data), r, final(self)),
    {
        match &self.test_name {
            Some(name) => {
                let single = Test::of_function_data(func_data);
                proof {
                    if self.tests.tests@.contains_key(name@) {
                        lemma_test_at(&self.tests.tests, name@);
                        lemma_of_function_data(&self.tests.tests@[name@], &single, *func_data);
                        self.tests.tests@[name@].lemma_conflict(&single);
                    } else {
                        lemma_of_function_data(&single, &single, *func_data);
                    }
                }
                match self.tests.tests.merge_entry(name, single) {
                    Ok(()) => Ok(()),
                    Err(Refusal::Conflict(e)) => Err(Stop::Failed(MergeError::Process(e))),
                    Err(Refusal::Overflow) => Err(Stop::Overflow),
                }
            },
            None => Ok(()),
        }
    }

    /// `BRDA`: the branch goes to the current test.
    pub fn on_branch_data(&mut self, branch_data: &BranchData) -> (r: Result<(), Stop>)
        requires
            old(self).inv(),
        ensures
            old(self).stepped(Record::BranchData(*branch_data), r, final(self)),
    {
        match &self.test_name {
            Some(name) => {
                let single = Test::of_branch(branch_data);
                proof {
                    if self.tests.tests@.contains_key(name@) {
                        lemma_test_at(&self.tests.tests, name@);
                        lemma_of_branch(&self.tests.tests@[name@], &single, *branch_data);
                        self.tests.tests@[name@].lemma_conflict(&single);
                    } else {
                        lemma_of_branch(&single, &single, *branch_data);
                    }
                }
                match self.tests.tests.merge_entry(name, single) {
                    Ok(()) => Ok(()),
                    Err(_) => Err(Stop::Overflow),
                }
            },
            None => Ok(()),
        }
    }

    /// `end_of_record`: the open block is merged into the file of the
    /// current source, and a new block is opened. The current test stays.
    pub fn on_end_of_record(&mut self) -> (r: Result<(), Stop>)
        requires
            old(self).inv(),
        ensures
            old(self).stepped(Record::EndOfRecord, r, final(self)),
    {
        match &self.source_name {
            Some(path) => {
                proof {
                    if self.files@.contains_key(path@) {
                        let j = position(self.files.entries(), path@);
                        lemma_entry_at(self.files.entries(), j);
                        self.files@[path@].lemma_conflict(&self.tests);
                    }
                }
                match self.files.merge_entry_ref(path, &self.tests) {
                    Ok(()) => {
                        self.tests = File::new(Tests::new());
                        proof {
                            assert(self.tests.model() =~= Map::empty());
                        }
                        Ok(())
                    },
                    Err(Refusal::Conflict(e)) => Err(Stop::Failed(MergeError::Process(e))),
                    Err(Refusal::Overflow) => Err(Stop::Overflow),
                }
            },
            None => Err(Stop::MissingSource),
        }
    }

    /// Hands the parser one record. Records that carry a summary are passed over.
    pub fn step(&mut self, record: &Record) -> (r: Result<(), Stop>)
        requires
            old(self).inv(),
        ensures
            old(self).stepped(*record, r, final(self)),
    {
        match record {
            Record::TestName(name) => {
                self.on_test_name(name);
                Ok(())
            },
            Record::SourceFile(path) => {
                self.on_source_file(path);
                Ok(())
            },
            Record::Data(data) => self.on_data(data),
            Record::FunctionName(record) => self.on_func_name(record),
            Record::FunctionData(record) => self.on_func_data(record),
            Record::BranchData(data) => self.on_branch_data(data),
            Record::EndOfRecord => self.on_end_of_record(),
            _ => Ok(()),
        }
    }

    /// The report of the blocks that were closed so far.
    pub fn report(&self) -> (report: Report)
        requires
            self.inv(),
        ensures
            report.inv(),
            report.model() == self.model().files,
    {
        let files = self.files.clone();
        proof {
            self.files.lemma_cloned(&files);
        }
        Report::new(files)
    }

    /// Folds the records into the parser and gives the report of the blocks
    /// they closed. Where the parser stops, it is left as it was before the
    /// record that stopped it.
    pub fn parse_records(&mut self, records: &Vec<Record>) -> (r: Result<Report, Stop>)
        requires
            old(self).inv(),
        ensures
            final(self).inv(),
            final(self).line == old(self).line,
            match r {
                Ok(report) => {
                    &&& run_model(old(self).model(), records@) == Some(final(self).model())
                    &&& report.inv()
                    &&& report.model() == final(self).model().files
                },
                Err(stop) => {
                    &&& run_model(old(self).model(), records@) is None
                    &&& exists|i: int|
                        0 <= i < records.len() && run_model(
                            old(self).model(),
                            #[trigger] records@.take(i),
                        ) == Some(final(self).model()) && final(self).stop(records[i]) == Some(
                            stop,
                        )
                },
            },
    {
        let n = records.len();
        let mut i: usize = 0;
        proof {
            assert(records@.take(0) =~= Seq::<Record>::empty());
        }
        while i < n
            invariant
                i <= n,
                n == records.len(),
                self.inv(),
                self.line == old(self).line,
                run_model(old(self).model(), records@.take(i as int)) == Some(self.model()),
            decreases n - i,
        {
            let ghost before = *self;
            proof {
                assert(records@.take(i + 1).drop_last() =~= records@.take(i as int));
            }
            match self.step(&records[i]) {
                Ok(()) => {},
                Err(stop) => {
                    proof {
                        lemma_run_stops(old(self).model(), records@, i + 1);
                    }
                    return Err(stop);
                },
            }
            i += 1;
        }
        proof {
            assert(records@.take(n as int) =~= records@);
        }
        Ok(self.report())
    }
}

/// The error of a line that is no record, with the number of the line in its trace.
pub open spec fn numbered(e: RecordParseError, line: u32) -> RecordParseError {
    RecordParseError { line, column: e.column, message: e.message }
}

/// The parser after one line of text, the `line_no`-th of its trace;
/// nothing where the parser stops: the lines can no longer be counted in a
/// `u32`, a number of the line's record does not fit `u32`, the line is no record,
/// or the parser does not take its record.
pub open spec fn step_line(m: ParserModel, line_no: nat, text: Seq<char>) -> Option<ParserModel> {
    if line_no > u32::MAX || !numbers_fit(encode_utf8(text)) {
        None
    } else {
        match line_record(text) {
            Ok(record) => step_model(m, record),
            Err(_) => None,
        }
    }
}

/// The parser after some lines of text, of which `read` were read before.
pub open spec fn run_lines(m: ParserModel, read: nat, lines: Seq<String>) -> Option<ParserModel>
    decreases lines.len(),
{
    if lines.len() == 0 {
        Some(m)
    } else {
        match run_lines(m, read, lines.drop_last()) {
            Some(p) => step_line(p, read + lines.len(), lines.last()@),
            None => None,
        }
    }
}

/// Where the parser stops on a prefix of the lines, it stops on all of them.
pub proof fn lemma_lines_stop(m: ParserModel, read: nat, lines: Seq<String>, n: int)
    requires
        0 <= n <= lines.len(),
        run_lines(m, read, lines.take(n)) is None,
    ensures
        run_lines(m, read, lines) is None,
    decreases lines.len() - n,
{
    if n < lines.len() {
        assert(lines.take(n + 1).drop_last() =~= lines.take(n));
        lemma_lines_stop(m, read, lines, n + 1);
    } else {
        assert(lines.take(n) =~= lines);
    }
}

impl ReportParser {
    /// Why the parser does not take the line, if it does not.
    pub open spec fn line_stop(&self, text: Seq<char>) -> Option<Stop> {
        if self.line == u32::MAX || !numbers_fit(encode_utf8(text)) {
            Some(Stop::Overflow)
        } else {
            match line_record(text) {
                Ok(record) => self.stop(record),
                Err(e) => Some(
                    Stop::Failed(MergeError::RecordParse(numbered(e, (self.line + 1) as u32))),
                ),
            }
        }
    }

    /// What holds after the parser was handed a line and answered `r`: it
    /// has counted the line and taken its record, or it is as it was.
    pub open spec fn fed(&self, text: Seq<char>, r: Result<(), Stop>, after: &Self) -> bool {
        &&& after.inv()
        &&& match r {
            Ok(()) => {
                &&& self.line_stop(text) is None
                &&& after.line == self.line + 1
                &&& step_line(self.model(), (self.line + 1) as nat, text) == Some(after.model())
            },
            Err(s) => {
                &&& self.line_stop(text) == Some(s)
                &&& step_line(self.model(), (self.line + 1) as nat, text) is None
                &&& *after == *self
            },
        }
    }

    /// Hands the parser one line of a trace, with its line end.
    pub fn feed_line(&mut self, line: &str) -> (r: Result<(), Stop>)
        requires
            old(self).inv(),
        ensures
            old(self).fed(line@, r, final(self)),
    {
        if self.line == u32::MAX || !numbers_fit_in(line) {
            return Err(Stop::Overflow);
        }
        match read_record(line) {
            Ok(record) => {
                match self.step(&record) {
                    Ok(()) => {
                        self.line = self.line + 1;
                        Ok(())
                    },
                    Err(stop) => Err(stop),
                }
            },
            Err(e) => Err(
                Stop::Failed(
                    MergeError::RecordParse(
                        RecordParseError { line: self.line + 1, column: e.column, message: e.message },
                    ),
                ),
            ),
        }
    }

    /// Folds the lines of a trace into the parser and gives the report of
    /// the blocks they closed. Where the parser stops, it is left as it was
    /// before the line that stopped it.
    pub fn parse(&mut self, lines: &Vec<String>) -> (r: Result<Report, Stop>)
        requires
            old(self).inv(),
        ensures
            final(self).inv(),
            match r {
                Ok(report) => {
                    &&& run_lines(old(self).model(), old(self).line as nat, lines@) == Some(
                        final(self).model(),
                    )
                    &&& final(self).line == old(self).line + lines.len()
                    &&& report.inv()
                    &&& report.model() == final(self).model().files
                },
                Err(stop) => {
                    &&& run_lines(old(self).model(), old(self).line as nat, lines@) is None
                    &&& exists|i: int|
                        0 <= i < lines.len() && run_lines(
                            old(self).model(),
                            old(self).line as nat,
                            #[trigger] lines@.take(i),
                        ) == Some(final(self).model()) && final(self).line == old(self).line + i
                            && final(self).line_stop(lines[i]@) == Some(stop)
                },
            },
    {
        let n = lines.len();
        let mut i: usize = 0;
        proof {
            assert(lines@.take(0) =~= Seq::<String>::empty());
        }
        while i < n
            invariant
                i <= n,
                n == lines.len(),
                self.inv(),
                self.line == old(self).line + i,
                run_lines(old(self).model(), old(self).line as nat, lines@.take(i as int)) == Some(
                    self.model(),
                ),
            decreases n - i,
        {
            proof {
                assert(lines@.take(i + 1).drop_last() =~= lines@.take(i as int));
            }
            match self.feed_line(lines[i].as_str()) {
                Ok(()) => {},
                Err(stop) => {
                    proof {
                        lemma_lines_stop(
                            old(self).model(),
                            old(self).line as nat,
                            lines@,
                            i + 1,
                        );
                    }
                    return Err(stop);
                },
            }
            i += 1;
        }
        proof {
            assert(lines@.take(n as int) =~= lines@);
        }
        Ok(self.report())
    }
}

} // verus!
