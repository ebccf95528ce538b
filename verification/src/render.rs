//! The serializer: a report as the text of a trace, every map in ascending
//! key order, the summary lines computed from the tree.

use crate::attribute::ExecutionCount;
use crate::attribute::LineNumber;
use crate::branch::found_units;
use crate::branch::hit_units;
use crate::branch::BranchBlocks;
use crate::branch::BranchUnit;
use crate::branch::Branches;
use crate::counter::FoundCounter;
use crate::counter::HitCounter;
use crate::counter::HitFoundCounter;
use crate::file::File;
use crate::function::Function;
use crate::function::Functions;
use crate::line::Line;
use crate::line::Lines;
use crate::record::BranchData;
use crate::record::FunctionData;
use crate::record::FunctionName;
use crate::record::LineData;
use crate::record::Record;
use crate::record::RecordWrite;
use crate::report::Report;
use crate::test::Test;
use crate::text::lemma_records_text_add;
use crate::text::push_decimal;
use crate::text::push_summary;
use crate::text::push_text;
use crate::text::record_text;
use crate::text::records_text;
use crate::text::summary_text;
use vstd::prelude::*;

verus! {

/// The `DA` record of one line.
pub open spec fn line_record_of(entry: (LineNumber, Line)) -> Record {
    Record::Data(
        LineData { line: entry.0, count: entry.1.execution_count, checksum: entry.1.checksum },
    )
}

/// The `DA` records of the lines, in their order.
pub open spec fn line_records(s: Seq<(LineNumber, Line)>) -> Seq<Record>
    decreases s.len(),
{
    if s.len() == 0 {
        Seq::empty()
    } else {
        line_records(s.drop_last()).push(line_record_of(s.last()))
    }
}

/// The `FN` record of one function.
pub open spec fn declaration_of(entry: (String, Function)) -> Record {
    Record::FunctionName(FunctionName { name: entry.0, line: entry.1.line_number })
}

/// The `FNDA` record of one function.
pub open spec fn count_of(entry: (String, Function)) -> Record {
    Record::FunctionData(FunctionData { name: entry.0, count: entry.1.execution_count })
}

/// The `FN` and `FNDA` records of the functions, in their order: for each
/// function its declaration, then its count.
pub open spec fn function_records(s: Seq<(String, Function)>) -> Seq<Record>
    decreases s.len(),
{
    if s.len() == 0 {
        Seq::empty()
    } else {
        function_records(s.drop_last()).push(declaration_of(s.last())).push(count_of(s.last()))
    }
}

/// The `BRDA` record of one unit of a line.
pub open spec fn unit_record_of(line: LineNumber, entry: (BranchUnit, ExecutionCount)) -> Record {
    Record::BranchData(
        BranchData { line, block: entry.0.0, branch: entry.0.1, taken: entry.1 },
    )
}

/// The `BRDA` records of the units of one line, in their order.
pub open spec fn unit_records(line: LineNumber, s: Seq<(BranchUnit, ExecutionCount)>) -> Seq<
    Record,
>
    decreases s.len(),
{
    if s.len() == 0 {
        Seq::empty()
    } else {
        unit_records(line, s.drop_last()).push(unit_record_of(line, s.last()))
    }
}

/// The `BRDA` records of the lines, in their order.
pub open spec fn branch_records(s: Seq<(LineNumber, BranchBlocks)>) -> Seq<Record>
    decreases s.len(),
{
    if s.len() == 0 {
        Seq::empty()
    } else {
        branch_records(s.drop_last()) + unit_records(s.last().0, s.last().1.entries())
    }
}

/// The functions of a test as text: their records, then how many were
/// found and how many hit; nothing where there are none.
pub open spec fn functions_text(functions: &Functions) -> Seq<char> {
    if functions.entries().len() == 0 {
        Seq::empty()
    } else {
        records_text(function_records(functions.entries())) + summary_text(
            "FNF:"@,
            functions.founds(),
        ) + summary_text("FNH:"@, functions.hits())
    }
}

/// The branches of a test as text.
pub open spec fn branches_text(branches: &Branches) -> Seq<char> {
    if branches.entries().len() == 0 {
        Seq::empty()
    } else {
        records_text(branch_records(branches.entries())) + summary_text(
            "BRF:"@,
            branches.founds(),
        ) + summary_text("BRH:"@, branches.hits())
    }
}

/// The lines of a test as text.
pub open spec fn lines_text(lines: &Lines) -> Seq<char> {
    if lines.entries().len() == 0 {
        Seq::empty()
    } else {
        records_text(line_records(lines.entries())) + summary_text("LF:"@, lines.founds())
            + summary_text("LH:"@, lines.hits())
    }
}

/// The block of one test and one source file as text.
pub open spec fn test_text(path: String, name: String, test: &Test) -> Seq<char> {
    record_text(Record::TestName(Some(name))) + record_text(Record::SourceFile(path))
        + functions_text(&test.functions) + branches_text(&test.branches) + lines_text(
        &test.lines,
    ) + record_text(Record::EndOfRecord)
}

/// The blocks of one source file as text, test by test.
pub open spec fn file_text(path: String, tests: Seq<(String, Test)>) -> Seq<char>
    decreases tests.len(),
{
    if tests.len() == 0 {
        Seq::empty()
    } else {
        file_text(path, tests.drop_last()) + test_text(path, tests.last().0, &tests.last().1)
    }
}

/// The blocks of the source files as text, file by file.
pub open spec fn files_text(files: Seq<(String, File)>) -> Seq<char>
    decreases files.len(),
{
    if files.len() == 0 {
        Seq::empty()
    } else {
        files_text(files.drop_last()) + file_text(files.last().0, files.last().1.tests.entries())
    }
}

impl RecordWrite for Lines {
    open spec fn written(&self) -> Seq<char> {
        lines_text(self)
    }

    fn write_records(&self, output: &mut String) {
        let n = self.len();
        if n == 0 {
            assert(output@ =~= old(output)@ + lines_text(self));
            return ;
        }
        let ghost s = self.entries();
        let mut i: usize = 0;
        proof {
            assert(s.take(0) =~= Seq::<(LineNumber, Line)>::empty());
            assert(output@ =~= old(output)@ + records_text(line_records(s.take(0))));
        }
        while i < n
            invariant
                i <= n,
                n == s.len(),
                s == self.entries(),
                output@ == old(output)@ + records_text(line_records(s.take(i as int))),
            decreases n - i,
        {
            let ghost before = output@;
            let line = self.value_at(i);
            push_text(output, "DA:");
            push_decimal(output, *self.key_at(i) as u128);
            push_text(output, ",");
            push_decimal(output, line.execution_count as u128);
            match &line.checksum {
                Some(checksum) => {
                    push_text(output, ",");
                    push_text(output, checksum.as_str());
                },
                None => {},
            }
            push_text(output, "\n");
            proof {
                assert(s.take(i + 1).drop_last() =~= s.take(i as int));
                assert(s.take(i + 1).last() == s[i as int]);
                assert(output@ =~= before + record_text(line_record_of(s[i as int])));
                assert(line_records(s.take(i + 1)).drop_last() =~= line_records(s.take(i as int)));
                assert(output@ =~= old(output)@ + records_text(line_records(s.take(i + 1))));
            }
            i += 1;
        }
        proof {
            assert(s.take(n as int) =~= s);
        }
        let ghost before = output@;
        push_summary(output, "LF:", self.found_count() as u128);
        push_summary(output, "LH:", self.hit_count() as u128);
        proof {
            assert(output@ =~= old(output)@ + lines_text(self));
        }
    }
}

impl RecordWrite for Functions {
    open spec fn written(&self) -> Seq<char> {
        functions_text(self)
    }

    fn write_records(&self, output: &mut String) {
        let n = self.len();
        if n == 0 {
            assert(output@ =~= old(output)@ + functions_text(self));
            return ;
        }
        let ghost s = self.entries();
        let mut i: usize = 0;
        proof {
            assert(s.take(0) =~= Seq::<(String, Function)>::empty());
            assert(output@ =~= old(output)@ + records_text(function_records(s.take(0))));
        }
        while i < n
            invariant
                i <= n,
                n == s.len(),
                s == self.entries(),
                output@ == old(output)@ + records_text(function_records(s.take(i as int))),
            decreases n - i,
        {
            let ghost before = output@;
            let name = self.key_at(i);
            let function = self.value_at(i);
            push_text(output, "FN:");
            push_decimal(output, function.line_number as u128);
            push_text(output, ",");
            push_text(output, name.as_str());
            push_text(output, "\n");
            push_text(output, "FNDA:");
            push_decimal(output, function.execution_count as u128);
            push_text(output, ",");
            push_text(output, name.as_str());
            push_text(output, "\n");
            proof {
                assert(s.take(i + 1).drop_last() =~= s.take(i as int));
                assert(s.take(i + 1).last() == s[i as int]);
                assert(output@ =~= before + record_text(declaration_of(s[i as int])) + record_text(
                    count_of(s[i as int]),
                ));
                let r0 = function_records(s.take(i as int));
                let r1 = r0.push(declaration_of(s[i as int]));
                let r2 = r1.push(count_of(s[i as int]));
                assert(function_records(s.take(i + 1)) == r2);
                assert(r2.drop_last() =~= r1);
                assert(r1.drop_last() =~= r0);
                assert(r1.last() == declaration_of(s[i as int]));
                assert(r2.last() == count_of(s[i as int]));
                assert(records_text(r1) == records_text(r0) + record_text(
                    declaration_of(s[i as int]),
                ));
                assert(records_text(r2) == records_text(r1) + record_text(count_of(s[i as int])));
                assert(output@ =~= old(output)@ + records_text(r2));
            }
            i += 1;
        }
        proof {
            assert(s.take(n as int) =~= s);
        }
        push_summary(output, "FNF:", self.found_count() as u128);
        push_summary(output, "FNH:", self.hit_count() as u128);
        proof {
            assert(output@ =~= old(output)@ + functions_text(self));
        }
    }
}

/// Appends the `BRDA` records of the units of one line.
fn write_units(output: &mut String, line: LineNumber, blocks: &BranchBlocks)
    ensures
        final(output)@ == old(output)@ + records_text(unit_records(line, blocks.entries())),
{
    let n = blocks.len();
    let ghost s = blocks.entries();
    let mut i: usize = 0;
    proof {
        assert(s.take(0) =~= Seq::<(BranchUnit, ExecutionCount)>::empty());
        assert(output@ =~= old(output)@ + records_text(unit_records(line, s.take(0))));
    }
    while i < n
        invariant
            i <= n,
            n == s.len(),
            s == blocks.entries(),
            output@ == old(output)@ + records_text(unit_records(line, s.take(i as int))),
        decreases n - i,
    {
        let ghost before = output@;
        let unit = blocks.key_at(i);
        push_text(output, "BRDA:");
        push_decimal(output, line as u128);
        push_text(output, ",");
        push_decimal(output, unit.block() as u128);
        push_text(output, ",");
        push_decimal(output, unit.branch() as u128);
        push_text(output, ",");
        push_decimal(output, *blocks.value_at(i) as u128);
        push_text(output, "\n");
        proof {
            assert(s.take(i + 1).drop_last() =~= s.take(i as int));
            assert(s.take(i + 1).last() == s[i as int]);
            assert(output@ =~= before + record_text(unit_record_of(line, s[i as int])));
            assert(unit_records(line, s.take(i + 1)).drop_last() =~= unit_records(
                line,
                s.take(i as int),
            ));
            assert(output@ =~= old(output)@ + records_text(unit_records(line, s.take(i + 1))));
        }
        i += 1;
    }
    proof {
        assert(s.take(n as int) =~= s);
    }
}

impl RecordWrite for Branches {
    open spec fn written(&self) -> Seq<char> {
        branches_text(self)
    }

    fn write_records(&self, output: &mut String) {
        let n = self.len();
        if n == 0 {
            assert(output@ =~= old(output)@ + branches_text(self));
            return ;
        }
        let ghost s = self.entries();
        let mut i: usize = 0;
        let mut found: u128 = 0;
        let mut hit: u128 = 0;
        proof {
            assert(s.take(0) =~= Seq::<(LineNumber, BranchBlocks)>::empty());
            assert(output@ =~= old(output)@ + records_text(branch_records(s.take(0))));
        }
        while i < n
            invariant
                i <= n,
                n == s.len(),
                s == self.entries(),
                output@ == old(output)@ + records_text(branch_records(s.take(i as int))),
                found == found_units(s.take(i as int)),
                hit == hit_units(s.take(i as int)),
                hit <= found <= i * 0xFFFF_FFFF_FFFF_FFFF,
            decreases n - i,
        {
            let ghost before = output@;
            let blocks = self.value_at(i);
            write_units(output, *self.key_at(i), blocks);
            proof {
                assert(s.take(i + 1).drop_last() =~= s.take(i as int));
                assert(s.take(i + 1).last() == s[i as int]);
                lemma_records_text_add(
                    branch_records(s.take(i as int)),
                    unit_records(s[i as int].0, s[i as int].1.entries()),
                );
                assert(output@ =~= old(output)@ + records_text(branch_records(s.take(i + 1))));
                blocks.lemma_hits_within_founds();
            }
            found = found + blocks.found_count() as u128;
            hit = hit + blocks.hit_count() as u128;
            i += 1;
        }
        proof {
            assert(s.take(n as int) =~= s);
        }
        push_summary(output, "BRF:", found);
        push_summary(output, "BRH:", hit);
        proof {
            assert(output@ =~= old(output)@ + branches_text(self));
        }
    }
}

/// Appends the block of one test and one source file.
pub fn write_test(output: &mut String, path: &String, name: &String, test: &Test)
    ensures
        final(output)@ == old(output)@ + test_text(*path, *name, test),
{
    push_text(output, "TN:");
    push_text(output, name.as_str());
    push_text(output, "\n");
    push_text(output, "SF:");
    push_text(output, path.as_str());
    push_text(output, "\n");
    test.functions.write_records(output);
    test.branches.write_records(output);
    test.lines.write_records(output);
    push_text(output, "end_of_record\n");
    proof {
        assert(output@ =~= old(output)@ + test_text(*path, *name, test));
    }
}

impl RecordWrite for Report {
    open spec fn written(&self) -> Seq<char> {
        files_text(self.files.entries())
    }

    fn write_records(&self, output: &mut String) {
        let n = self.files.len();
        let ghost s = self.files.entries();
        let mut i: usize = 0;
        proof {
            assert(s.take(0) =~= Seq::<(String, File)>::empty());
            assert(output@ =~= old(output)@ + files_text(s.take(0)));
        }
        while i < n
            invariant
                i <= n,
                n == s.len(),
                s == self.files.entries(),
                output@ == old(output)@ + files_text(s.take(i as int)),
            decreases n - i,
        {
            let path = self.files.key_at(i);
            let tests = &self.files.value_at(i).tests;
            let m = tests.len();
            let ghost t = tests.entries();
            let ghost before = output@;
            let mut j: usize = 0;
            proof {
                assert(t.take(0) =~= Seq::<(String, Test)>::empty());
                assert(output@ =~= before + file_text(*path, t.take(0)));
            }
            while j < m
                invariant
                    j <= m,
                    m == t.len(),
                    t == tests.entries(),
                    output@ == before + file_text(*path, t.take(j as int)),
                decreases m - j,
            {
                write_test(output, path, tests.key_at(j), tests.value_at(j));
                proof {
                    assert(t.take(j + 1).drop_last() =~= t.take(j as int));
                    assert(t.take(j + 1).last() == t[j as int]);
                    assert(output@ =~= before + file_text(*path, t.take(j + 1)));
                }
                j += 1;
            }
            proof {
                assert(t.take(m as int) =~= t);
                assert(s.take(i + 1).drop_last() =~= s.take(i as int));
                assert(s.take(i + 1).last() == s[i as int]);
                assert(output@ =~= old(output)@ + files_text(s.take(i + 1)));
            }
            i += 1;
        }
        proof {
            assert(s.take(n as int) =~= s);
        }
    }
}

impl Report {
    /// The report as the text of a trace.
    pub fn to_string(&self) -> (text: String)
        ensures
            text@ == self.written(),
    {
        let mut text = String::new();
        self.write_records(&mut text);
        assert(text@ =~= self.written());
        text
    }
}

} // verus!
