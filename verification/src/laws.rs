//! What holds of merging, stated of whole reports.

use crate::aggregate::map_merged;
use crate::aggregate::Aggregate;
use crate::attribute::LineNumber;
use crate::branch::BranchUnit;
use crate::counter::FoundCounter;
use crate::counter::Hit;
use crate::counter::HitCounter;
use crate::counter::HitFoundCounter;
use crate::key::SortKey;
use crate::aggregate::Refusal;
use crate::function::Functions;
use crate::merge::TryMerge;
use crate::record::FunctionData;
use crate::record::LineData;
use crate::line::text_view;
use crate::line::Lines;
use crate::merge::ChecksumError;
use crate::merge::FunctionError;
use crate::merge::MergeLine;
use crate::merge::TestError;
use crate::record::FunctionName;
use crate::report::Report;
use crate::report::ReportModel;
use crate::summary::AggregateResult;
use vstd::prelude::*;

verus! {

/// The empty report is the identity of merging: nothing stands against
/// merging a report into it, or it into a report, and either gives the report.
pub proof fn law_identity(r: ReportModel)
    ensures
        Report::compatible(Map::empty(), r),
        Report::compatible(r, Map::empty()),
        Report::merged(Map::empty(), r) == r,
        Report::merged(r, Map::empty()) == r,
{
    let empty = Map::<Seq<char>, Map<Seq<char>, crate::test::TestModel>>::empty();
    assert(Report::merged(empty, r) =~= r);
    assert(Report::merged(r, empty) =~= r);
}

/// Merging is commutative: where `b` merges into `a`, `a` merges into `b`,
/// and the two reports are the same.
pub proof fn law_commutative(a: ReportModel, b: ReportModel)
    requires
        Report::compatible(a, b),
    ensures
        Report::compatible(b, a),
        Report::merged(a, b) == Report::merged(b, a),
{
    Report::law_commutative(a, b);
}

/// Merging is associative: where `b` merges into `a` and `c` into their
/// merge, `c` merges into `b` and their merge into `a`, and the two reports
/// are the same.
pub proof fn law_associative(a: ReportModel, b: ReportModel, c: ReportModel)
    requires
        Report::compatible(a, b),
        Report::compatible(Report::merged(a, b), c),
    ensures
        Report::compatible(b, c),
        Report::compatible(a, Report::merged(b, c)),
        Report::merged(Report::merged(a, b), c) == Report::merged(a, Report::merged(b, c)),
{
    Report::law_associative(a, b, c);
}

/// The keys of a merge are the keys of either side: the source paths of two
/// reports, the test names of two files, the lines, functions and
/// branch units of two tests.
pub proof fn law_keys_union<K, V: Aggregate>(a: Map<K, V::Model>, b: Map<K, V::Model>)
    ensures
        map_merged::<K, V>(a, b).dom() == a.dom().union(b.dom()),
{
    assert(map_merged::<K, V>(a, b).dom() =~= a.dom().union(b.dom()));
}

/// The keys of two merged reports, level by level.
pub proof fn law_report_keys_union(
    a: ReportModel,
    b: ReportModel,
    file: Seq<char>,
    test: Seq<char>,
    line: LineNumber,
)
    requires
        a.contains_key(file),
        b.contains_key(file),
        a[file].contains_key(test),
        b[file].contains_key(test),
    ensures
        Report::merged(a, b).dom() == a.dom().union(b.dom()),
        Report::merged(a, b)[file].dom() == a[file].dom().union(b[file].dom()),
        Report::merged(a, b)[file][test].lines.dom() == a[file][test].lines.dom().union(
            b[file][test].lines.dom(),
        ),
        Report::merged(a, b)[file][test].functions.dom() == a[file][test].functions.dom().union(
            b[file][test].functions.dom(),
        ),
        Report::merged(a, b)[file][test].branches.dom() == a[file][test].branches.dom().union(
            b[file][test].branches.dom(),
        ),
        a[file][test].branches.contains_key(line) && b[file][test].branches.contains_key(line)
            ==> Report::merged(a, b)[file][test].branches[line].dom()
            == a[file][test].branches[line].dom().union(b[file][test].branches[line].dom()),
{
    let m = Report::merged(a, b);
    assert(m.dom() =~= a.dom().union(b.dom()));
    assert(m[file].dom() =~= a[file].dom().union(b[file].dom()));
    let (x, y, z) = (a[file][test], b[file][test], m[file][test]);
    assert(z.lines.dom() =~= x.lines.dom().union(y.lines.dom()));
    assert(z.functions.dom() =~= x.functions.dom().union(y.functions.dom()));
    assert(z.branches.dom() =~= x.branches.dom().union(y.branches.dom()));
    if x.branches.contains_key(line) && y.branches.contains_key(line) {
        assert(z.branches[line].dom() =~= x.branches[line].dom().union(y.branches[line].dom()));
    }
}

/// Counts add up: the count of a line that both reports hold for a test of
/// a file is, in their merge, the sum of the two.
pub proof fn law_line_counts_add(
    a: ReportModel,
    b: ReportModel,
    file: Seq<char>,
    test: Seq<char>,
    line: LineNumber,
)
    requires
        a.contains_key(file) && a[file].contains_key(test) && a[file][test].lines.contains_key(
            line,
        ),
        b.contains_key(file) && b[file].contains_key(test) && b[file][test].lines.contains_key(
            line,
        ),
    ensures
        Report::merged(a, b)[file][test].lines[line].count == a[file][test].lines[line].count
            + b[file][test].lines[line].count,
{
}

/// Counts add up: the count of a function that both reports hold for a test
/// of a file is, in their merge, the sum of the two.
pub proof fn law_function_counts_add(
    a: ReportModel,
    b: ReportModel,
    file: Seq<char>,
    test: Seq<char>,
    name: Seq<char>,
)
    requires
        a.contains_key(file) && a[file].contains_key(test)
            && a[file][test].functions.contains_key(name),
        b.contains_key(file) && b[file].contains_key(test)
            && b[file][test].functions.contains_key(name),
    ensures
        Report::merged(a, b)[file][test].functions[name].count
            == a[file][test].functions[name].count + b[file][test].functions[name].count,
{
}

/// Counts add up: the count of a branch unit that both reports hold for a
/// line of a test of a file is, in their merge, the sum of the two.
pub proof fn law_branch_counts_add(
    a: ReportModel,
    b: ReportModel,
    file: Seq<char>,
    test: Seq<char>,
    line: LineNumber,
    unit: BranchUnit,
)
    requires
        a.contains_key(file) && a[file].contains_key(test) && a[file][test].branches.contains_key(
            line,
        ) && a[file][test].branches[line].contains_key(unit),
        b.contains_key(file) && b[file].contains_key(test) && b[file][test].branches.contains_key(
            line,
        ) && b[file][test].branches[line].contains_key(unit),
    ensures
        Report::merged(a, b)[file][test].branches[line][unit] == a[file][test].branches[line][unit]
            + b[file][test].branches[line][unit],
{
}

/// What a map of lines, of functions or of branch units counts: as many
/// found as it has keys, as many hit as it has entries with a count above
/// zero, and so no more hit than found.
pub proof fn law_hit_found<K: SortKey, V: Hit>(map: &AggregateResult<K, V>)
    requires
        map.wf(),
    ensures
        map.hits() <= map.founds(),
        map.founds() == map@.dom().len(),
        map.founds() == map.entries().len(),
        map.hits() == map.entries().filter(|e: (K, V)| e.1.hit()).len(),
{
    map.lemma_hits_within_founds();
    map.lemma_len();
}

/// A checksum error names the line and carries both checksums: where two
/// maps of lines disagree, they both hold a line of which each has a
/// checksum, the two differ, and the error is the mismatch of that line
/// with the checksum held and the one that came. It is the first such
/// line.
pub proof fn law_checksum_error(held: &Lines, came: &Lines) -> (line: LineNumber)
    requires
        held.inv(),
        came.inv(),
        held.conflict(came) is Some,
    ensures
        held@.contains_key(line),
        came@.contains_key(line),
        held.model()[line].checksum is Some,
        came.model()[line].checksum is Some,
        held.model()[line].checksum != came.model()[line].checksum,
        held.model()[line].checksum == text_view(held@[line].checksum),
        came.model()[line].checksum == text_view(came@[line].checksum),
        held.conflict(came) == Some(
            ChecksumError::Mismatch(
                MergeLine { line, checksum: held@[line].checksum },
                MergeLine { line, checksum: came@[line].checksum },
            ),
        ),
        forall|before: LineNumber|
            held.model().contains_key(before) && #[trigger] came.model().contains_key(before)
                && before < line ==> crate::line::Line::compatible(
                held.model()[before],
                came.model()[before],
            ),
{
    let line = held.lemma_conflict_key(came);
    held.lemma_held(line);
    came.lemma_held(line);
    assert forall|before: LineNumber|
        held.model().contains_key(before) && #[trigger] came.model().contains_key(before)
            && before < line implies crate::line::Line::compatible(
        held.model()[before],
        came.model()[before],
    ) by {
        assert(came@.contains_key(before));
        held.lemma_held(before);
        came.lemma_held(before);
        held@[before].lemma_conflict(&came@[before]);
    }
    line
}

/// A function error names the function and carries both declarations:
/// where two maps of functions disagree, they both hold a function that
/// each declares, at different lines, and the error is the mismatch of the
/// declaration held and the one that came.
pub proof fn law_function_error(held: &Functions, came: &Functions) -> (name: Seq<char>)
    requires
        held.inv(),
        came.inv(),
        held.conflict(came) is Some,
    ensures
        held@.contains_key(name),
        came@.contains_key(name),
        held@[name].name@ == name,
        came@[name].name@ == name,
        held.model()[name].line != 0,
        came.model()[name].line != 0,
        held.model()[name].line != came.model()[name].line,
        held.conflict(came) == Some(
            FunctionError::Mismatch(
                FunctionName { name: held@[name].name, line: held.model()[name].line },
                FunctionName { name: came@[name].name, line: came.model()[name].line },
            ),
        ),
{
    let name = held.lemma_conflict_key(came);
    held.lemma_held(name);
    came.lemma_held(name);
    name
}

/// What two reports disagree on: a line or a function of a test of a
/// source file that both hold.
pub proof fn law_report_error(held: &Report, came: &Report) -> (at: (Seq<char>, Seq<char>))
    requires
        held.inv(),
        came.inv(),
        held.conflict(came) is Some,
    ensures
        held.files@.contains_key(at.0) && came.files@.contains_key(at.0),
        held.files@[at.0].tests@.contains_key(at.1) && came.files@[at.0].tests@.contains_key(at.1),
        held.files@[at.0].tests@[at.1].inv() && came.files@[at.0].tests@[at.1].inv(),
        held.conflict(came) == held.files@[at.0].tests@[at.1].conflict(
            &came.files@[at.0].tests@[at.1],
        ),
        match held.conflict(came) {
            Some(TestError::Checksum(e)) => Some(e) == held.files@[at.0].tests@[at.1].lines.conflict(
                &came.files@[at.0].tests@[at.1].lines,
            ),
            Some(TestError::Function(e)) => Some(e)
                == held.files@[at.0].tests@[at.1].functions.conflict(
                &came.files@[at.0].tests@[at.1].functions,
            ),
            None => false,
        },
{
    let file = held.files.lemma_conflict_key(&came.files);
    held.files.lemma_held(file);
    came.files.lemma_held(file);
    let test = held.files@[file].tests.lemma_conflict_key(&came.files@[file].tests);
    held.files@[file].tests.lemma_held(test);
    came.files@[file].tests.lemma_held(test);
    (file, test)
}

/// What stands against a `DA` record, in terms of what the lines hold: a
/// checksum that differs from the one held for the line, reported with
/// the line's number and both checksums, or else a count that would leave
/// `u32`; nothing stands against a new line.
pub proof fn law_line_record(lines: &Lines, data: LineData)
    requires
        lines.inv(),
    ensures
        match lines.merge_refusal(&data) {
            Some(Refusal::Conflict(e)) => {
                &&& lines.model().contains_key(data.line)
                &&& lines.model()[data.line].checksum is Some
                &&& data.checksum is Some
                &&& lines.model()[data.line].checksum != text_view(data.checksum)
                &&& lines.model()[data.line].checksum == text_view(lines@[data.line].checksum)
                &&& e == ChecksumError::Mismatch(
                    MergeLine { line: data.line, checksum: lines@[data.line].checksum },
                    MergeLine { line: data.line, checksum: data.checksum },
                )
            },
            Some(Refusal::Overflow) => {
                &&& lines.model().contains_key(data.line)
                &&& !(lines.model()[data.line].checksum is Some && data.checksum is Some
                    && lines.model()[data.line].checksum != text_view(data.checksum))
                &&& lines.model()[data.line].count + data.count > u32::MAX
            },
            None => lines.model().contains_key(data.line) ==> {
                &&& !(lines.model()[data.line].checksum is Some && data.checksum is Some
                    && lines.model()[data.line].checksum != text_view(data.checksum))
                &&& lines.model()[data.line].count + data.count <= u32::MAX
            },
        },
{
    if lines@.contains_key(data.line) {
        lines.lemma_held(data.line);
    }
}

/// What stands against an `FN` record, in terms of what the functions
/// hold: a declaration of the function at another line, reported with the
/// function's name and both lines; nothing else.
pub proof fn law_declaration_record(functions: &Functions, record: FunctionName)
    requires
        functions.inv(),
    ensures
        match functions.merge_refusal(&record) {
            Some(Refusal::Conflict(e)) => {
                &&& functions.model().contains_key(record.name@)
                &&& functions.model()[record.name@].line != 0
                &&& record.line != 0
                &&& functions.model()[record.name@].line != record.line
                &&& functions@[record.name@].name@ == record.name@
                &&& e == FunctionError::Mismatch(
                    FunctionName {
                        name: functions@[record.name@].name,
                        line: functions.model()[record.name@].line,
                    },
                    record,
                )
            },
            Some(Refusal::Overflow) => false,
            None => functions.model().contains_key(record.name@) ==> (functions.model()[
                record.name@
            ].line == 0 || record.line == 0 || functions.model()[record.name@].line == record.line),
        },
{
    if functions@.contains_key(record.name@) {
        functions.lemma_held(record.name@);
    }
}

/// What stands against an `FNDA` record, in terms of what the functions
/// hold: only a count that would leave `u32`.
pub proof fn law_count_record(functions: &Functions, record: FunctionData)
    requires
        functions.inv(),
    ensures
        match functions.merge_refusal(&record) {
            Some(Refusal::Conflict(e)) => false,
            Some(Refusal::Overflow) => functions.model().contains_key(record.name@)
                && functions.model()[record.name@].count + record.count > u32::MAX,
            None => functions.model().contains_key(record.name@) ==> functions.model()[
                record.name@
            ].count + record.count <= u32::MAX,
        },
{
    if functions@.contains_key(record.name@) {
        functions.lemma_held(record.name@);
    }
}

} // verus!
