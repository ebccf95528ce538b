//! The records of an LCOV trace, one per line of its text.

use lcov_parser::LCOVRecord;
use vstd::prelude::*;
use vstd::string::StringSliceAdditionalSpecFns;

verus! {

/// `DA`: a line was executed `count` times.
#[derive(Debug, PartialEq)]
pub struct LineData {
    pub line: u32,
    pub count: u32,
    pub checksum: Option<String>,
}

/// `FN`: the function `name` starts at `line`.
#[derive(Debug, PartialEq)]
pub struct FunctionName {
    pub name: String,
    pub line: u32,
}

/// `FNDA`: the function `name` was executed `count` times.
#[derive(Debug, PartialEq)]
pub struct FunctionData {
    pub name: String,
    pub count: u32,
}

/// `BRDA`: a branch of a conditional at `line` was taken `taken` times.
#[derive(Debug, PartialEq, Clone, Copy)]
pub struct BranchData {
    pub line: u32,
    pub block: u32,
    pub branch: u32,
    pub taken: u32,
}

/// One record of a trace.
#[derive(Debug, PartialEq)]
pub enum Record {
    /// `TN`: the test that the following records belong to; the name may be missing.
    TestName(Option<String>),
    /// `SF`: the source file that the following records belong to.
    SourceFile(String),
    Data(LineData),
    FunctionName(FunctionName),
    FunctionData(FunctionData),
    /// `FNF`
    FunctionsFound(u32),
    /// `FNH`
    FunctionsHit(u32),
    /// `LH`
    LinesHit(u32),
    /// `LF`
    LinesFound(u32),
    BranchData(BranchData),
    /// `BRF`
    BranchesFound(u32),
    /// `BRH`
    BranchesHit(u32),
    /// `end_of_record`: closes the block of one test and one source file.
    EndOfRecord,
}

/// A line of text that is no record.
#[derive(Debug, PartialEq)]
pub struct RecordParseError {
    pub line: u32,
    pub column: u32,
    pub message: String,
}

impl Clone for LineData {
    fn clone(&self) -> (r: Self)
        ensures
            r == *self,
    {
        LineData { line: self.line, count: self.count, checksum: copy_text(&self.checksum) }
    }
}

impl Clone for FunctionName {
    fn clone(&self) -> (r: Self)
        ensures
            r == *self,
    {
        FunctionName { name: self.name.clone(), line: self.line }
    }
}

impl Clone for FunctionData {
    fn clone(&self) -> (r: Self)
        ensures
            r == *self,
    {
        FunctionData { name: self.name.clone(), count: self.count }
    }
}

impl Clone for RecordParseError {
    fn clone(&self) -> (r: Self)
        ensures
            r == *self,
    {
        RecordParseError { line: self.line, column: self.column, message: self.message.clone() }
    }
}

impl Clone for Record {
    fn clone(&self) -> (r: Self)
        ensures
            r == *self,
    {
        match self {
            Record::TestName(name) => Record::TestName(copy_text(name)),
            Record::SourceFile(path) => Record::SourceFile(path.clone()),
            Record::Data(data) => Record::Data(data.clone()),
            Record::FunctionName(record) => Record::FunctionName(record.clone()),
            Record::FunctionData(record) => Record::FunctionData(record.clone()),
            Record::FunctionsFound(n) => Record::FunctionsFound(*n),
            Record::FunctionsHit(n) => Record::FunctionsHit(*n),
            Record::LinesHit(n) => Record::LinesHit(*n),
            Record::LinesFound(n) => Record::LinesFound(*n),
            Record::BranchData(data) => Record::BranchData(*data),
            Record::BranchesFound(n) => Record::BranchesFound(*n),
            Record::BranchesHit(n) => Record::BranchesHit(*n),
            Record::EndOfRecord => Record::EndOfRecord,
        }
    }
}

/// Something that is written as records of a trace.
pub trait RecordWrite {
    /// The text that it is written as.
    spec fn written(&self) -> Seq<char>;

    /// Appends the text to `output`.
    fn write_records(&self, output: &mut String)
        ensures
            final(output)@ == old(output)@ + self.written(),
    ;
}

/// Whether two texts are the same.
pub fn same_text(a: &String, b: &String) -> (r: bool)
    ensures
        r == (a@ == b@),
{
    *a == *b
}

/// A copy of an optional text.
pub fn copy_text(text: &Option<String>) -> (r: Option<String>)
    ensures
        r == *text,
{
    match text {
        Some(s) => Some(s.clone()),
        None => None,
    }
}

/// What `lcov_parser::parse_record` makes of one line of a trace: the
/// record that the line holds, variant by variant and field by field, or
/// where and why it holds none.
pub uninterp spec fn line_record(line: Seq<char>) -> Result<Record, RecordParseError>;

/// `TN`, `SF` and `end_of_record`.
pub open spec fn is_general(record: Record) -> bool {
    record is TestName || record is SourceFile || record is EndOfRecord
}

/// `DA`, `FN` and `FNDA`.
pub open spec fn is_coverage(record: Record) -> bool {
    record is Data || record is FunctionName || record is FunctionData
}

/// `BRDA`, `BRF` and `BRH`.
pub open spec fn is_branch(record: Record) -> bool {
    record is BranchData || record is BranchesFound || record is BranchesHit
}

/// `FNF`, `FNH`, `LF` and `LH`.
pub open spec fn is_summary(record: Record) -> bool {
    record is FunctionsFound || record is FunctionsHit || record is LinesFound || record is LinesHit
}

/// The numbers of a record, from the byte at `from` on, fit `u32`: there
/// are up to `fields` of them, each a run of decimal digits, one after the
/// other with a comma between; `run` is what the digits of the current
/// number stand for so far, and `started` says whether it has any.
pub open spec fn fields_fit(bytes: Seq<u8>, from: int, fields: nat, run: nat, started: bool) -> bool
    decreases bytes.len() - from,
{
    if fields == 0 || from < 0 || from >= bytes.len() {
        true
    } else if 48 <= bytes[from] <= 57 {
        run * 10 + (bytes[from] - 48) <= u32::MAX && fields_fit(
            bytes,
            from + 1,
            fields,
            (run * 10 + (bytes[from] - 48)) as nat,
            true,
        )
    } else if started && bytes[from] == 44 {
        fields_fit(bytes, from + 1, (fields - 1) as nat, 0, false)
    } else {
        true
    }
}

/// The text starts with three given bytes.
pub open spec fn tag3(bytes: Seq<u8>, a: u8, b: u8, c: u8) -> bool {
    bytes.len() >= 3 && bytes[0] == a && bytes[1] == b && bytes[2] == c
}

/// The text starts with four given bytes.
pub open spec fn tag4(bytes: Seq<u8>, a: u8, b: u8, c: u8, d: u8) -> bool {
    bytes.len() >= 4 && bytes[0] == a && bytes[1] == b && bytes[2] == c && bytes[3] == d
}

/// The text starts with five given bytes.
pub open spec fn tag5(bytes: Seq<u8>, a: u8, b: u8, c: u8, d: u8, e: u8) -> bool {
    bytes.len() >= 5 && bytes[0] == a && bytes[1] == b && bytes[2] == c && bytes[3] == d
        && bytes[4] == e
}

/// Where the numbers of a line start, and how many there can be: two after
/// `DA:`, four after `BRDA:`, one after `FN:`, `FNDA:` and the tag of a
/// summary, none in any other line.
pub open spec fn number_fields(bytes: Seq<u8>) -> (int, nat) {
    if tag3(bytes, 68, 65, 58) {
        (3, 2)
    } else if tag5(bytes, 66, 82, 68, 65, 58) {
        (5, 4)
    } else if tag3(bytes, 70, 78, 58) || tag3(bytes, 76, 72, 58) || tag3(bytes, 76, 70, 58) {
        (3, 1)
    } else if tag4(bytes, 70, 78, 70, 58) || tag4(bytes, 70, 78, 72, 58) || tag4(
        bytes,
        66,
        82,
        70,
        58,
    ) || tag4(bytes, 66, 82, 72, 58) {
        (4, 1)
    } else if tag5(bytes, 70, 78, 68, 65, 58) {
        (5, 1)
    } else {
        (0, 0)
    }
}

/// Every number that the line holds as a record fits `u32`.
pub open spec fn numbers_fit(bytes: Seq<u8>) -> bool {
    fields_fit(bytes, number_fields(bytes).0, number_fields(bytes).1, 0, false)
}

/// Whether every number that the line holds as a record fits `u32`.
pub fn numbers_fit_in(line: &str) -> (fit: bool)
    ensures
        fit == numbers_fit(line.spec_bytes()),
{
    let bytes = line.as_bytes();
    let n = bytes.len();
    let three = n >= 3;
    let four = n >= 4;
    let five = n >= 5;
    let (start, count): (usize, u8) = if three && bytes[0] == 68 && bytes[1] == 65 && bytes[2]
        == 58 {
        (3, 2)
    } else if five && bytes[0] == 66 && bytes[1] == 82 && bytes[2] == 68 && bytes[3] == 65
        && bytes[4] == 58 {
        (5, 4)
    } else if three && bytes[2] == 58 && ((bytes[0] == 70 && bytes[1] == 78) || (bytes[0] == 76
        && (bytes[1] == 72 || bytes[1] == 70))) {
        (3, 1)
    } else if four && bytes[3] == 58 && ((bytes[0] == 70 && bytes[1] == 78) || (bytes[0] == 66
        && bytes[1] == 82)) && (bytes[2] == 70 || bytes[2] == 72) {
        (4, 1)
    } else if five && bytes[0] == 70 && bytes[1] == 78 && bytes[2] == 68 && bytes[3] == 65
        && bytes[4] == 58 {
        (5, 1)
    } else {
        (0, 0)
    };
    let mut fields: u8 = count;
    let mut run: u64 = 0;
    let mut started = false;
    let mut i: usize = start;
    while i < n && fields > 0
        invariant
            start <= i,
            n == bytes@.len(),
            run <= u32::MAX,
            bytes@ == line.spec_bytes(),
            numbers_fit(bytes@) == fields_fit(bytes@, i as int, fields as nat, run as nat, started),
        decreases n - i,
    {
        let b = bytes[i];
        let ghost held = run;
        if b >= 48 && b <= 57 {
            run = run * 10 + (b - 48) as u64;
            started = true;
            if run > 0xFFFF_FFFF {
                assert(!fields_fit(bytes@, i as int, fields as nat, held as nat, started));
                return false;
            }
        } else if started && b == 44 {
            fields = fields - 1;
            run = 0;
            started = false;
        } else {
            return true;
        }
        i += 1;
    }
    true
}

/// The record, if it is of the kind that `kind` tells.
pub open spec fn of_kind(
    read: Result<Record, RecordParseError>,
    kind: spec_fn(Record) -> bool,
) -> Option<Record> {
    match read {
        Ok(record) => if kind(record) {
            Some(record)
        } else {
            None
        },
        Err(_) => None,
    }
}

/// Calls `lcov_parser::parse_record` on one line, and hands on what
/// `line_record` names if it is a `Data`, a `FunctionName` or a
/// `FunctionData`, with the same fields. `lcov_parser` reads each number of
/// a record, a run of digits after the tag or after the comma that ends
/// the number before, into a `u32` and panics where it does not fit: such
/// lines are left out.
#[verifier::external_body]
fn read_coverage(line: &str) -> (r: Option<Record>)
    requires
        numbers_fit(line.spec_bytes()),
    ensures
        r == of_kind(line_record(line@), |record: Record| is_coverage(record)),
{
    match lcov_parser::parse_record(line) {
        Ok(LCOVRecord::Data(d)) => Some(
            Record::Data(LineData { line: d.line, count: d.count, checksum: d.checksum }),
        ),
        Ok(LCOVRecord::FunctionName(f)) => Some(
            Record::FunctionName(FunctionName { name: f.name, line: f.line }),
        ),
        Ok(LCOVRecord::FunctionData(f)) => Some(
            Record::FunctionData(FunctionData { name: f.name, count: f.count }),
        ),
        _ => None,
    }
}

/// Calls `lcov_parser::parse_record` on one line, and hands on what
/// `line_record` names if it is a `BranchData`, a `BranchesFound` or a
/// `BranchesHit`, with the same fields. Lines with a number beyond `u32`,
/// on which `lcov_parser` panics, are left out.
#[verifier::external_body]
fn read_branch(line: &str) -> (r: Option<Record>)
    requires
        numbers_fit(line.spec_bytes()),
    ensures
        r == of_kind(line_record(line@), |record: Record| is_branch(record)),
{
    match lcov_parser::parse_record(line) {
        Ok(LCOVRecord::BranchData(b)) => Some(
            Record::BranchData(
                BranchData { line: b.line, block: b.block, branch: b.branch, taken: b.taken },
            ),
        ),
        Ok(LCOVRecord::BranchesFound(n)) => Some(Record::BranchesFound(n)),
        Ok(LCOVRecord::BranchesHit(n)) => Some(Record::BranchesHit(n)),
        _ => None,
    }
}

/// Calls `lcov_parser::parse_record` on one line, and hands on what
/// `line_record` names if it is a `FunctionsFound`, a `FunctionsHit`, a
/// `LinesFound` or a `LinesHit`, with the same number. Lines with a number
/// beyond `u32`, on which `lcov_parser` panics, are left out.
#[verifier::external_body]
fn read_summary(line: &str) -> (r: Option<Record>)
    requires
        numbers_fit(line.spec_bytes()),
    ensures
        r == of_kind(line_record(line@), |record: Record| is_summary(record)),
{
    match lcov_parser::parse_record(line) {
        Ok(LCOVRecord::FunctionsFound(n)) => Some(Record::FunctionsFound(n)),
        Ok(LCOVRecord::FunctionsHit(n)) => Some(Record::FunctionsHit(n)),
        Ok(LCOVRecord::LinesFound(n)) => Some(Record::LinesFound(n)),
        Ok(LCOVRecord::LinesHit(n)) => Some(Record::LinesHit(n)),
        _ => None,
    }
}

/// Calls `lcov_parser::parse_record` on one line, and hands on what
/// `line_record` names if it is an error, with the same fields, or a
/// `TestName`, a `SourceFile` or an `EndOfRecord`, with the same text.
/// Lines with a number beyond `u32`, on which `lcov_parser` panics, are
/// left out.
#[verifier::external_body]
fn read_general(line: &str) -> (r: Result<Option<Record>, RecordParseError>)
    requires
        numbers_fit(line.spec_bytes()),
    ensures
        r == (match line_record(line@) {
            Ok(record) => Ok::<Option<Record>, RecordParseError>(
                if is_general(record) {
                    Some(record)
                } else {
                    None
                },
            ),
            Err(e) => Err(e),
        }),
{
    match lcov_parser::parse_record(line) {
        Err(e) => Err(RecordParseError { line: e.line, column: e.column, message: e.message }),
        Ok(LCOVRecord::TestName(name)) => Ok(Some(Record::TestName(name))),
        Ok(LCOVRecord::SourceFile(path)) => Ok(Some(Record::SourceFile(path))),
        Ok(LCOVRecord::EndOfRecord) => Ok(Some(Record::EndOfRecord)),
        _ => Ok(None),
    }
}

/// The record that one line of a trace holds. Every number of the record
/// has to fit `u32`: `numbers_fit_in` tells.
pub fn read_record(line: &str) -> (r: Result<Record, RecordParseError>)
    requires
        numbers_fit(line.spec_bytes()),
    ensures
        r == line_record(line@),
{
    if let Some(record) = read_coverage(line) {
        return Ok(record);
    }
    if let Some(record) = read_branch(line) {
        return Ok(record);
    }
    match read_general(line) {
        Err(e) => Err(e),
        Ok(Some(record)) => Ok(record),
        Ok(None) => match read_summary(line) {
            Some(record) => Ok(record),
            None => Ok(Record::EndOfRecord),
        },
    }
}

} // verus!
