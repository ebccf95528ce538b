//! The round trip: the records that a report is written as fold back into
//! the report.

use crate::aggregate::entry_merged;
use crate::aggregate::lemma_take;
use crate::aggregate::map_fits;
use crate::aggregate::map_model;
use crate::aggregate::Aggregate;
use crate::attribute::ExecutionCount;
use crate::attribute::LineNumber;
use crate::branch::BranchBlocks;
use crate::branch::BranchUnit;
use crate::branch::Branches;
use crate::file::File;
use crate::function::Function;
use crate::function::FunctionModel;
use crate::function::Functions;
use crate::key::SortKey;
use crate::line::Line;
use crate::line::LineModel;
use crate::line::Lines;
use crate::parser::initial;
use crate::parser::run_model;
use crate::parser::step_model;
use crate::parser::with_test;
use crate::parser::ParserModel;
use crate::record::Record;
use crate::render::branch_records;
use crate::render::count_of;
use crate::render::declaration_of;
use crate::render::function_records;
use crate::render::line_record_of;
use crate::render::line_records;
use crate::render::unit_record_of;
use crate::render::unit_records;
use crate::report::Report;
use crate::report::ReportModel;
use crate::summary::ascending;
use crate::summary::entry_map;
use crate::summary::lemma_entry_at;
use crate::summary::position;
use crate::test::empty_test;
use crate::test::Test;
use crate::test::TestModel;
use vstd::prelude::*;

verus! {

/// Running the parser over two runs of records is running it over the
/// first, then over the second.
pub proof fn lemma_run_add(m: ParserModel, a: Seq<Record>, b: Seq<Record>)
    ensures
        run_model(m, a + b) == (match run_model(m, a) {
            Some(p) => run_model(p, b),
            None => None,
        }),
    decreases b.len(),
{
    if b.len() == 0 {
        assert(a + b =~= a);
    } else {
        lemma_run_add(m, a, b.drop_last());
        assert((a + b).drop_last() =~= a + b.drop_last());
        assert((a + b).last() == b.last());
    }
}

/// The content of ascending entries whose values are well formed fits.
pub proof fn lemma_entries_fit<K: SortKey, V: Aggregate>(s: Seq<(K, V)>)
    requires
        ascending(s),
        forall|i: int| 0 <= i < s.len() ==> (#[trigger] s[i]).1.inv(),
    ensures
        map_fits::<K::V, V>(map_model::<K::V, V>(entry_map(s))),
{
    let m = map_model::<K::V, V>(entry_map(s));
    assert forall|k: K::V| #[trigger] m.contains_key(k) implies V::fits(m[k]) by {
        let j = position(s, k);
        lemma_entry_at(s, j);
        s[j].1.lemma_fits();
    }
}

/// The parser inside a block: the current test is `name`, and the block
/// holds that test alone.
pub open spec fn inside(
    name: Seq<char>,
    source: Option<Seq<char>>,
    test: TestModel,
    files: ReportModel,
) -> ParserModel {
    ParserModel {
        test_name: Some(name),
        source,
        tests: Map::<Seq<char>, TestModel>::empty().insert(name, test),
        files,
    }
}

/// Inside a block, the test of a record that agrees with the current test
/// is merged into it.
pub proof fn lemma_inside_step(
    name: Seq<char>,
    source: Option<Seq<char>>,
    test: TestModel,
    files: ReportModel,
    single: TestModel,
)
    requires
        Test::compatible(test, single),
        Test::fits(Test::merged(test, single)),
    ensures
        with_test(inside(name, source, test, files), single) == Some(
            inside(name, source, Test::merged(test, single), files),
        ),
{
    let m = inside(name, source, test, files);
    assert(m.tests.contains_key(name));
    assert(entry_merged::<Seq<char>, Test>(m.tests, name, single) =~= Map::<
        Seq<char>,
        TestModel,
    >::empty().insert(name, Test::merged(test, single)));
}

/// The content of the first lines.
pub open spec fn lines_model(s: Seq<(LineNumber, Line)>) -> Map<LineNumber, LineModel> {
    map_model::<LineNumber, Line>(entry_map(s))
}

/// The content of the first functions.
pub open spec fn functions_model(s: Seq<(String, Function)>) -> Map<Seq<char>, FunctionModel> {
    map_model::<Seq<char>, Function>(entry_map(s))
}

/// The content of the first units of a line.
pub open spec fn units_model(s: Seq<(BranchUnit, ExecutionCount)>) -> Map<BranchUnit, nat> {
    map_model::<BranchUnit, ExecutionCount>(entry_map(s))
}

/// The content of the first lines with branches.
pub open spec fn branches_model(s: Seq<(LineNumber, BranchBlocks)>) -> Map<
    LineNumber,
    Map<BranchUnit, nat>,
> {
    map_model::<LineNumber, BranchBlocks>(entry_map(s))
}

/// Inside a block whose test has no lines yet, the `DA` records of some
/// lines give the test those lines.
pub proof fn lemma_lines_fold(
    name: Seq<char>,
    source: Option<Seq<char>>,
    test: TestModel,
    files: ReportModel,
    s: Seq<(LineNumber, Line)>,
    n: int,
)
    requires
        ascending(s),
        0 <= n <= s.len(),
        test.lines == Map::<LineNumber, LineModel>::empty(),
        Test::fits(test),
    ensures
        run_model(inside(name, source, test, files), line_records(s.take(n))) == Some(
            inside(name, source, TestModel { lines: lines_model(s.take(n)), ..test }, files),
        ),
    decreases n,
{
    if n == 0 {
        assert(s.take(0) =~= Seq::<(LineNumber, Line)>::empty());
        assert(lines_model(s.take(0)) =~= Map::<LineNumber, LineModel>::empty());
    } else {
        lemma_lines_fold(name, source, test, files, s, n - 1);
        lemma_take(s, n - 1);
        assert(s.take(n).drop_last() =~= s.take(n - 1));
        assert(s.take(n).last() == s[n - 1]);
        let records = line_records(s.take(n));
        assert(records.drop_last() =~= line_records(s.take(n - 1)));
        assert(records.last() == line_record_of(s[n - 1]));
        let before = TestModel { lines: lines_model(s.take(n - 1)), ..test };
        let after = TestModel { lines: lines_model(s.take(n)), ..test };
        let single = crate::test::single_line(line_record_of(s[n - 1])->Data_0);
        assert(!lines_model(s.take(n - 1)).contains_key(s[n - 1].0));
        assert(lines_model(s.take(n)) =~= lines_model(s.take(n - 1)).insert(
            s[n - 1].0,
            s[n - 1].1.model(),
        ));
        assert(Lines::merged(before.lines, single.lines) =~= after.lines);
        assert(Functions::merged(before.functions, single.functions) =~= after.functions);
        assert(Branches::merged(before.branches, single.branches) =~= after.branches);
        assert(Test::merged(before, single) == after);
        lemma_entries_fit::<LineNumber, Line>(s.take(n));
        lemma_inside_step(name, source, before, files, single);
    }
}

/// Inside a block whose test has no functions yet, the `FN` and `FNDA`
/// records of some functions give the test those functions.
pub proof fn lemma_functions_fold(
    name: Seq<char>,
    source: Option<Seq<char>>,
    test: TestModel,
    files: ReportModel,
    s: Seq<(String, Function)>,
    n: int,
)
    requires
        ascending(s),
        0 <= n <= s.len(),
        test.functions == Map::<Seq<char>, FunctionModel>::empty(),
        Test::fits(test),
    ensures
        run_model(inside(name, source, test, files), function_records(s.take(n))) == Some(
            inside(name, source, TestModel { functions: functions_model(s.take(n)), ..test }, files),
        ),
    decreases n,
{
    if n == 0 {
        assert(s.take(0) =~= Seq::<(String, Function)>::empty());
        assert(functions_model(s.take(0)) =~= Map::<Seq<char>, FunctionModel>::empty());
    } else {
        lemma_functions_fold(name, source, test, files, s, n - 1);
        lemma_take(s, n - 1);
        assert(s.take(n).drop_last() =~= s.take(n - 1));
        assert(s.take(n).last() == s[n - 1]);
        let r0 = function_records(s.take(n - 1));
        let r1 = r0.push(declaration_of(s[n - 1]));
        let r2 = r1.push(count_of(s[n - 1]));
        assert(function_records(s.take(n)) == r2);
        assert(r2.drop_last() =~= r1);
        assert(r1.drop_last() =~= r0);
        assert(r2.last() == count_of(s[n - 1]));
        assert(r1.last() == declaration_of(s[n - 1]));
        let key = s[n - 1].0@;
        let before = TestModel { functions: functions_model(s.take(n - 1)), ..test };
        let declared = crate::test::single_declaration(declaration_of(s[n - 1])->FunctionName_0);
        let middle = Test::merged(before, declared);
        let counted = crate::test::single_count(count_of(s[n - 1])->FunctionData_0);
        let after = TestModel { functions: functions_model(s.take(n)), ..test };
        assert(!functions_model(s.take(n - 1)).contains_key(key));
        assert(functions_model(s.take(n)) =~= functions_model(s.take(n - 1)).insert(
            key,
            s[n - 1].1.model(),
        ));
        assert(middle.functions =~= before.functions.insert(
            key,
            FunctionModel { line: s[n - 1].1.line_number, count: 0 },
        ));
        assert(middle.lines =~= test.lines);
        assert(middle.branches =~= test.branches);
        assert(Functions::merged(middle.functions, counted.functions) =~= after.functions);
        assert(Lines::merged(middle.lines, counted.lines) =~= after.lines);
        assert(Branches::merged(middle.branches, counted.branches) =~= after.branches);
        assert(Test::merged(middle, counted) == after);
        lemma_entries_fit::<String, Function>(s.take(n));
        lemma_entries_fit::<String, Function>(s.take(n - 1));
        assert(Functions::fits(middle.functions)) by {
            assert forall|k: Seq<char>| #[trigger]
                middle.functions.contains_key(k) implies Function::fits(middle.functions[k]) by {
                if k != key {
                    assert(before.functions.contains_key(k));
                }
            }
        }
        lemma_inside_step(name, source, before, files, declared);
        lemma_inside_step(name, source, middle, files, counted);
        assert(run_model(inside(name, source, test, files), r1) == Some(
            inside(name, source, middle, files),
        ));
    }
}

/// Inside a block whose test has no branches at the line `line` yet, the
/// `BRDA` records of some units of that line give the test those units
/// there; without a unit the test stays as it is.
pub proof fn lemma_units_fold(
    name: Seq<char>,
    source: Option<Seq<char>>,
    test: TestModel,
    files: ReportModel,
    line: LineNumber,
    s: Seq<(BranchUnit, ExecutionCount)>,
    n: int,
)
    requires
        ascending(s),
        0 <= n <= s.len(),
        !test.branches.contains_key(line),
        Test::fits(test),
    ensures
        run_model(inside(name, source, test, files), unit_records(line, s.take(n))) == Some(
            inside(
                name,
                source,
                if n == 0 {
                    test
                } else {
                    TestModel {
                        branches: test.branches.insert(line, units_model(s.take(n))),
                        ..test
                    }
                },
                files,
            ),
        ),
    decreases n,
{
    if n == 0 {
        assert(s.take(0) =~= Seq::<(BranchUnit, ExecutionCount)>::empty());
    } else {
        lemma_units_fold(name, source, test, files, line, s, n - 1);
        lemma_take(s, n - 1);
        assert(s.take(n).drop_last() =~= s.take(n - 1));
        assert(s.take(n).last() == s[n - 1]);
        let records = unit_records(line, s.take(n));
        assert(records.drop_last() =~= unit_records(line, s.take(n - 1)));
        assert(records.last() == unit_record_of(line, s[n - 1]));
        let before = if n - 1 == 0 {
            test
        } else {
            TestModel { branches: test.branches.insert(line, units_model(s.take(n - 1))), ..test }
        };
        let after = TestModel { branches: test.branches.insert(line, units_model(s.take(n))), ..test };
        let single = crate::test::single_branch(unit_record_of(line, s[n - 1])->BranchData_0);
        assert(!units_model(s.take(n - 1)).contains_key(s[n - 1].0));
        assert(units_model(s.take(n)) =~= units_model(s.take(n - 1)).insert(
            s[n - 1].0,
            s[n - 1].1 as nat,
        ));
        if n - 1 == 0 {
            assert(s.take(0) =~= Seq::<(BranchUnit, ExecutionCount)>::empty());
            assert(units_model(s.take(0)) =~= Map::<BranchUnit, nat>::empty());
        } else {
            assert(BranchBlocks::merged(
                before.branches[line],
                single.branches[line],
            ) =~= units_model(s.take(n)));
        }
        assert(single.branches.contains_key(line));
        assert(Branches::merged(before.branches, single.branches) =~= after.branches);
        assert(Lines::merged(before.lines, single.lines) =~= after.lines);
        assert(Functions::merged(before.functions, single.functions) =~= after.functions);
        assert(Test::merged(before, single) == after);
        lemma_entries_fit::<BranchUnit, ExecutionCount>(s.take(n));
        assert(Branches::fits(after.branches)) by {
            assert forall|k: LineNumber| #[trigger]
                after.branches.contains_key(k) implies BranchBlocks::fits(after.branches[k]) by {
                if k != line {
                    assert(test.branches.contains_key(k));
                }
            }
        }
        assert(Test::compatible(before, single));
        lemma_inside_step(name, source, before, files, single);
    }
}

/// Inside a block whose test has no branches yet, the `BRDA` records of
/// some lines, each with a unit at least, give the test those branches.
pub proof fn lemma_branches_fold(
    name: Seq<char>,
    source: Option<Seq<char>>,
    test: TestModel,
    files: ReportModel,
    s: Seq<(LineNumber, BranchBlocks)>,
    n: int,
)
    requires
        ascending(s),
        forall|i: int| 0 <= i < s.len() ==> (#[trigger] s[i]).1.wf() && s[i].1.entries().len() > 0,
        0 <= n <= s.len(),
        test.branches == Map::<LineNumber, Map<BranchUnit, nat>>::empty(),
        Test::fits(test),
    ensures
        run_model(inside(name, source, test, files), branch_records(s.take(n))) == Some(
            inside(name, source, TestModel { branches: branches_model(s.take(n)), ..test }, files),
        ),
    decreases n,
{
    if n == 0 {
        assert(s.take(0) =~= Seq::<(LineNumber, BranchBlocks)>::empty());
        assert(branches_model(s.take(0)) =~= Map::<LineNumber, Map<BranchUnit, nat>>::empty());
    } else {
        lemma_branches_fold(name, source, test, files, s, n - 1);
        lemma_take(s, n - 1);
        assert(s.take(n).drop_last() =~= s.take(n - 1));
        assert(s.take(n).last() == s[n - 1]);
        let line = s[n - 1].0;
        let units = s[n - 1].1.entries();
        let before = TestModel { branches: branches_model(s.take(n - 1)), ..test };
        let after = TestModel { branches: branches_model(s.take(n)), ..test };
        assert(!before.branches.contains_key(line));
        assert forall|i: int| 0 <= i < s.take(n - 1).len() implies (#[trigger] s.take(
            n - 1,
        )[i]).1.inv() by {
            assert(s.take(n - 1)[i] == s[i]);
        }
        lemma_entries_fit::<LineNumber, BranchBlocks>(s.take(n - 1));
        lemma_units_fold(name, source, before, files, line, units, units.len() as int);
        assert(units.take(units.len() as int) =~= units);
        assert(units_model(units) == s[n - 1].1.model());
        assert(branches_model(s.take(n)) =~= branches_model(s.take(n - 1)).insert(
            line,
            s[n - 1].1.model(),
        ));
        lemma_run_add(
            inside(name, source, test, files),
            branch_records(s.take(n - 1)),
            unit_records(line, units),
        );
    }
}

/// The records of the block of one test and one source file: the test,
/// the source, the functions, the branches, the lines, and the end of the
/// block. They are the lines of the block's text without the summaries.
pub open spec fn test_records(path: String, name: String, test: &Test) -> Seq<Record> {
    seq![Record::TestName(Some(name)), Record::SourceFile(path)] + function_records(
        test.functions.entries(),
    ) + branch_records(test.branches.entries()) + line_records(test.lines.entries())
        + seq![Record::EndOfRecord]
}

/// The records of the blocks of one source file, test by test.
pub open spec fn file_records(path: String, tests: Seq<(String, Test)>) -> Seq<Record>
    decreases tests.len(),
{
    if tests.len() == 0 {
        Seq::empty()
    } else {
        file_records(path, tests.drop_last()) + test_records(path, tests.last().0, &tests.last().1)
    }
}

/// The records of the blocks of the source files, file by file.
pub open spec fn files_records(files: Seq<(String, File)>) -> Seq<Record>
    decreases files.len(),
{
    if files.len() == 0 {
        Seq::empty()
    } else {
        files_records(files.drop_last()) + file_records(
            files.last().0,
            files.last().1.tests.entries(),
        )
    }
}

/// The records that a report is written as, without the summaries.
pub open spec fn report_records(report: &Report) -> Seq<Record> {
    files_records(report.files.entries())
}

/// Every line of the test's branches has a unit.
pub open spec fn test_complete(test: &Test) -> bool {
    forall|i: int|
        0 <= i < test.branches.entries().len() ==> (
        #[trigger] test.branches.entries()[i]).1.entries().len() > 0
}

/// The file has a test, and every test of it is complete.
pub open spec fn file_complete(file: &File) -> bool {
    &&& file.tests.entries().len() > 0
    &&& forall|i: int|
        0 <= i < file.tests.entries().len() ==> test_complete(
            &(#[trigger] file.tests.entries()[i]).1,
        )
}

/// Nothing of the report is lost in its text: every file has a test, and
/// every line of a test's branches a unit.
pub open spec fn report_complete(report: &Report) -> bool {
    forall|i: int|
        0 <= i < report.files.entries().len() ==> file_complete(
            &(#[trigger] report.files.entries()[i]).1,
        )
}

/// The content of the first tests.
pub open spec fn tests_model(s: Seq<(String, Test)>) -> Map<Seq<char>, TestModel> {
    map_model::<Seq<char>, Test>(entry_map(s))
}

/// The content of the first files.
pub open spec fn files_model(s: Seq<(String, File)>) -> ReportModel {
    map_model::<Seq<char>, File>(entry_map(s))
}

/// The file that holds one test.
pub open spec fn one_test(name: Seq<char>, test: TestModel) -> Map<Seq<char>, TestModel> {
    Map::<Seq<char>, TestModel>::empty().insert(name, test)
}

/// Between two blocks, the records of the block of a complete test merge
/// the test into the file of its source, where the file takes it.
pub proof fn lemma_test_fold(m: ParserModel, path: String, name: String, test: &Test)
    requires
        test.inv(),
        test_complete(test),
        m.tests == Map::<Seq<char>, TestModel>::empty(),
        m.files.contains_key(path@) ==> File::compatible(
            m.files[path@],
            one_test(name@, test.model()),
        ) && File::fits(File::merged(m.files[path@], one_test(name@, test.model()))),
    ensures
        run_model(m, test_records(path, name, test)) == Some(
            ParserModel {
                test_name: Some(name@),
                source: Some(path@),
                tests: Map::empty(),
                files: entry_merged::<Seq<char>, File>(
                    m.files,
                    path@,
                    one_test(name@, test.model()),
                ),
            },
        ),
{
    let head = seq![Record::TestName(Some(name)), Record::SourceFile(path)];
    let functions = function_records(test.functions.entries());
    let branches = branch_records(test.branches.entries());
    let lines = line_records(test.lines.entries());
    let tail = seq![Record::EndOfRecord];
    let opened = inside(name@, Some(path@), empty_test(), m.files);
    assert(run_model(m, head) == Some(opened)) by {
        reveal_with_fuel(run_model, 3);
        assert(head.drop_last() =~= seq![Record::TestName(Some(name))]);
        assert(head.drop_last().drop_last() =~= Seq::<Record>::empty());
        assert(head.last() == Record::SourceFile(path));
        assert(head.drop_last().last() == Record::TestName(Some(name)));
        let named = step_model(m, Record::TestName(Some(name)))->0;
        assert(named.tests =~= opened.tests);
    }
    let f = test.functions.entries();
    let b = test.branches.entries();
    let l = test.lines.entries();
    assert(f.take(f.len() as int) =~= f);
    assert(b.take(b.len() as int) =~= b);
    assert(l.take(l.len() as int) =~= l);
    let x1 = TestModel { functions: functions_model(f), ..empty_test() };
    let x2 = TestModel { branches: branches_model(b), ..x1 };
    let x3 = TestModel { lines: lines_model(l), ..x2 };
    assert(Test::fits(empty_test()));
    lemma_functions_fold(name@, Some(path@), empty_test(), m.files, f, f.len() as int);
    lemma_entries_fit::<String, Function>(f);
    assert(Test::fits(x1));
    lemma_branches_fold(name@, Some(path@), x1, m.files, b, b.len() as int);
    lemma_entries_fit::<LineNumber, BranchBlocks>(b);
    assert(Test::fits(x2));
    lemma_lines_fold(name@, Some(path@), x2, m.files, l, l.len() as int);
    assert(x3 == test.model());
    lemma_run_add(m, head, functions);
    lemma_run_add(m, head + functions, branches);
    lemma_run_add(m, head + functions + branches, lines);
    lemma_run_add(m, head + functions + branches + lines, tail);
    let closing = inside(name@, Some(path@), x3, m.files);
    assert(run_model(m, head + functions + branches + lines) == Some(closing));
    assert(run_model(closing, tail) == step_model(closing, Record::EndOfRecord)) by {
        reveal_with_fuel(run_model, 2);
        assert(tail.drop_last() =~= Seq::<Record>::empty());
        assert(tail.last() == Record::EndOfRecord);
    }
    assert(closing.tests == one_test(name@, test.model()));
}

/// Between two blocks, and with a source that no closed block has, the
/// records of the first tests of the source give it a file of those tests.
pub proof fn lemma_file_fold(m: ParserModel, path: String, tests: Seq<(String, Test)>, n: int)
    requires
        ascending(tests),
        forall|i: int|
            0 <= i < tests.len() ==> (#[trigger] tests[i]).1.inv() && test_complete(&tests[i].1),
        0 <= n <= tests.len(),
        m.tests == Map::<Seq<char>, TestModel>::empty(),
        !m.files.contains_key(path@),
    ensures
        run_model(m, file_records(path, tests.take(n))) == Some(
            if n == 0 {
                m
            } else {
                ParserModel {
                    test_name: Some(tests[n - 1].0@),
                    source: Some(path@),
                    tests: Map::empty(),
                    files: m.files.insert(path@, tests_model(tests.take(n))),
                }
            },
        ),
    decreases n,
{
    if n == 0 {
        assert(tests.take(0) =~= Seq::<(String, Test)>::empty());
    } else {
        lemma_file_fold(m, path, tests, n - 1);
        lemma_take(tests, n - 1);
        assert(tests.take(n).drop_last() =~= tests.take(n - 1));
        assert(tests.take(n).last() == tests[n - 1]);
        let name = tests[n - 1].0;
        let test = tests[n - 1].1;
        let single = one_test(name@, test.model());
        let before = run_model(m, file_records(path, tests.take(n - 1)))->0;
        assert(tests_model(tests.take(n)) =~= tests_model(tests.take(n - 1)).insert(
            name@,
            test.model(),
        ));
        assert forall|i: int| 0 <= i < tests.take(n).len() implies (#[trigger] tests.take(
            n,
        )[i]).1.inv() by {
            assert(tests.take(n)[i] == tests[i]);
        }
        lemma_entries_fit::<String, Test>(tests.take(n));
        if n - 1 > 0 {
            let held = tests_model(tests.take(n - 1));
            assert(before.files[path@] == held);
            assert(!held.contains_key(name@));
            assert(File::merged(held, single) =~= tests_model(tests.take(n)));
            assert(File::compatible(held, single));
            assert(entry_merged::<Seq<char>, File>(before.files, path@, single) =~= m.files.insert(
                path@,
                tests_model(tests.take(n)),
            ));
        } else {
            assert(tests.take(0) =~= Seq::<(String, Test)>::empty());
            assert(tests_model(tests.take(0)) =~= Map::<Seq<char>, TestModel>::empty());
            assert(single =~= tests_model(tests.take(n)));
            assert(entry_merged::<Seq<char>, File>(before.files, path@, single) =~= m.files.insert(
                path@,
                tests_model(tests.take(n)),
            ));
        }
        lemma_test_fold(before, path, name, &test);
        lemma_run_add(m, file_records(path, tests.take(n - 1)), test_records(path, name, &test));
    }
}

/// From the start, the records of the first files of a complete report
/// give those files, and leave no block open.
pub proof fn lemma_files_fold(files: Seq<(String, File)>, n: int)
    requires
        ascending(files),
        forall|i: int|
            0 <= i < files.len() ==> (#[trigger] files[i]).1.inv() && file_complete(&files[i].1),
        0 <= n <= files.len(),
    ensures
        match run_model(initial(), files_records(files.take(n))) {
            Some(p) => p.files == files_model(files.take(n)) && p.tests == Map::<
                Seq<char>,
                TestModel,
            >::empty(),
            None => false,
        },
    decreases n,
{
    if n == 0 {
        assert(files.take(0) =~= Seq::<(String, File)>::empty());
        assert(files_model(files.take(0)) =~= Map::<Seq<char>, Map<Seq<char>, TestModel>>::empty());
    } else {
        lemma_files_fold(files, n - 1);
        lemma_take(files, n - 1);
        assert(files.take(n).drop_last() =~= files.take(n - 1));
        assert(files.take(n).last() == files[n - 1]);
        let path = files[n - 1].0;
        let tests = files[n - 1].1.tests.entries();
        let before = run_model(initial(), files_records(files.take(n - 1)))->0;
        assert(!before.files.contains_key(path@));
        assert(tests.take(tests.len() as int) =~= tests);
        lemma_file_fold(before, path, tests, tests.len() as int);
        assert(tests_model(tests) == files[n - 1].1.model());
        assert(files_model(files.take(n)) =~= files_model(files.take(n - 1)).insert(
            path@,
            files[n - 1].1.model(),
        ));
        lemma_run_add(
            initial(),
            files_records(files.take(n - 1)),
            file_records(path, tests),
        );
    }
}

/// The round trip: the records that a complete report is written as fold,
/// from the start, into a parser that holds the report and no open block.
pub proof fn law_round_trip(report: &Report)
    requires
        report.inv(),
        report_complete(report),
    ensures
        match run_model(initial(), report_records(report)) {
            Some(p) => p.files == report.model() && p.tests == Map::<Seq<char>, TestModel>::empty(),
            None => false,
        },
{
    let files = report.files.entries();
    assert(files.take(files.len() as int) =~= files);
    assert forall|i: int| 0 <= i < files.len() implies (#[trigger] files[i]).1.inv()
        && file_complete(&files[i].1) by {}
    lemma_files_fold(files, files.len() as int);
}

/// Appends the `FN` and `FNDA` records of the functions.
fn push_function_records(out: &mut Vec<Record>, functions: &Functions)
    ensures
        final(out)@ == old(out)@ + function_records(functions.entries()),
{
    let n = functions.len();
    let ghost s = functions.entries();
    let mut i: usize = 0;
    proof {
        assert(s.take(0) =~= Seq::<(String, Function)>::empty());
        assert(out@ =~= old(out)@ + function_records(s.take(0)));
    }
    while i < n
        invariant
            i <= n,
            n == s.len(),
            s == functions.entries(),
            out@ == old(out)@ + function_records(s.take(i as int)),
        decreases n - i,
    {
        let name = functions.key_at(i);
        let function = functions.value_at(i);
        out.push(
            Record::FunctionName(
                crate::record::FunctionName { name: name.clone(), line: function.line_number },
            ),
        );
        out.push(
            Record::FunctionData(
                crate::record::FunctionData { name: name.clone(), count: function.execution_count },
            ),
        );
        proof {
            assert(s.take(i + 1).drop_last() =~= s.take(i as int));
            assert(s.take(i + 1).last() == s[i as int]);
            assert(out@ =~= old(out)@ + function_records(s.take(i + 1)));
        }
        i += 1;
    }
    proof {
        assert(s.take(n as int) =~= s);
    }
}

/// Appends the `BRDA` records of the branches.
fn push_branch_records(out: &mut Vec<Record>, branches: &Branches)
    ensures
        final(out)@ == old(out)@ + branch_records(branches.entries()),
{
    let n = branches.len();
    let ghost s = branches.entries();
    let mut i: usize = 0;
    proof {
        assert(s.take(0) =~= Seq::<(LineNumber, BranchBlocks)>::empty());
        assert(out@ =~= old(out)@ + branch_records(s.take(0)));
    }
    while i < n
        invariant
            i <= n,
            n == s.len(),
            s == branches.entries(),
            out@ == old(out)@ + branch_records(s.take(i as int)),
        decreases n - i,
    {
        let line = *branches.key_at(i);
        let blocks = branches.value_at(i);
        let m = blocks.len();
        let ghost u = blocks.entries();
        let ghost before = out@;
        let mut j: usize = 0;
        proof {
            assert(u.take(0) =~= Seq::<(BranchUnit, ExecutionCount)>::empty());
            assert(out@ =~= before + unit_records(line, u.take(0)));
        }
        while j < m
            invariant
                j <= m,
                m == u.len(),
                u == blocks.entries(),
                out@ == before + unit_records(line, u.take(j as int)),
            decreases m - j,
        {
            let unit = blocks.key_at(j);
            out.push(
                Record::BranchData(
                    crate::record::BranchData {
                        line,
                        block: unit.block(),
                        branch: unit.branch(),
                        taken: *blocks.value_at(j),
                    },
                ),
            );
            proof {
                assert(u.take(j + 1).drop_last() =~= u.take(j as int));
                assert(u.take(j + 1).last() == u[j as int]);
                assert(out@ =~= before + unit_records(line, u.take(j + 1)));
            }
            j += 1;
        }
        proof {
            assert(u.take(m as int) =~= u);
            assert(s.take(i + 1).drop_last() =~= s.take(i as int));
            assert(s.take(i + 1).last() == s[i as int]);
            assert(out@ =~= old(out)@ + branch_records(s.take(i + 1)));
        }
        i += 1;
    }
    proof {
        assert(s.take(n as int) =~= s);
    }
}

/// Appends the `DA` records of the lines.
fn push_line_records(out: &mut Vec<Record>, lines: &Lines)
    ensures
        final(out)@ == old(out)@ + line_records(lines.entries()),
{
    let n = lines.len();
    let ghost s = lines.entries();
    let mut i: usize = 0;
    proof {
        assert(s.take(0) =~= Seq::<(LineNumber, Line)>::empty());
        assert(out@ =~= old(out)@ + line_records(s.take(0)));
    }
    while i < n
        invariant
            i <= n,
            n == s.len(),
            s == lines.entries(),
            out@ == old(out)@ + line_records(s.take(i as int)),
        decreases n - i,
    {
        let line = lines.value_at(i);
        out.push(
            Record::Data(
                crate::record::LineData {
                    line: *lines.key_at(i),
                    count: line.execution_count,
                    checksum: crate::record::copy_text(&line.checksum),
                },
            ),
        );
        proof {
            assert(s.take(i + 1).drop_last() =~= s.take(i as int));
            assert(s.take(i + 1).last() == s[i as int]);
            assert(out@ =~= old(out)@ + line_records(s.take(i + 1)));
        }
        i += 1;
    }
    proof {
        assert(s.take(n as int) =~= s);
    }
}

impl Report {
    /// The records that the report is written as, without the summaries.
    pub fn to_records(&self) -> (records: Vec<Record>)
        ensures
            records@ == report_records(self),
    {
        let mut out: Vec<Record> = Vec::new();
        let n = self.files.len();
        let ghost s = self.files.entries();
        let mut i: usize = 0;
        proof {
            assert(s.take(0) =~= Seq::<(String, File)>::empty());
            assert(out@ =~= files_records(s.take(0)));
        }
        while i < n
            invariant
                i <= n,
                n == s.len(),
                s == self.files.entries(),
                out@ == files_records(s.take(i as int)),
            decreases n - i,
        {
            let path = self.files.key_at(i);
            let tests = &self.files.value_at(i).tests;
            let m = tests.len();
            let ghost t = tests.entries();
            let ghost before = out@;
            let mut j: usize = 0;
            proof {
                assert(t.take(0) =~= Seq::<(String, Test)>::empty());
                assert(out@ =~= before + file_records(*path, t.take(0)));
            }
            while j < m
                invariant
                    j <= m,
                    m == t.len(),
                    t == tests.entries(),
                    out@ == before + file_records(*path, t.take(j as int)),
                decreases m - j,
            {
                let name = tests.key_at(j);
                let test = tests.value_at(j);
                let ghost start = out@;
                out.push(Record::TestName(Some(name.clone())));
                out.push(Record::SourceFile(path.clone()));
                push_function_records(&mut out, &test.functions);
                push_branch_records(&mut out, &test.branches);
                push_line_records(&mut out, &test.lines);
                out.push(Record::EndOfRecord);
                proof {
                    assert(t.take(j + 1).drop_last() =~= t.take(j as int));
                    assert(t.take(j + 1).last() == t[j as int]);
                    assert(out@ =~= start + test_records(*path, *name, test));
                    assert(out@ =~= before + file_records(*path, t.take(j + 1)));
                }
                j += 1;
            }
            proof {
                assert(t.take(m as int) =~= t);
                assert(s.take(i + 1).drop_last() =~= s.take(i as int));
                assert(s.take(i + 1).last() == s[i as int]);
                assert(out@ =~= files_records(s.take(i + 1)));
            }
            i += 1;
        }
        proof {
            assert(s.take(n as int) =~= s);
        }
        out
    }
}

} // verus!
