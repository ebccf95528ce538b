//! The text of a trace: the lines that records are written as.

use crate::parser::named;
use crate::record::Record;
use vstd::prelude::*;
use vstd::string::StringExecFns;

verus! {

/// The text of one decimal digit.
pub open spec fn digit_text(d: nat) -> Seq<char> {
    if d == 0 {
        "0"@
    } else if d == 1 {
        "1"@
    } else if d == 2 {
        "2"@
    } else if d == 3 {
        "3"@
    } else if d == 4 {
        "4"@
    } else if d == 5 {
        "5"@
    } else if d == 6 {
        "6"@
    } else if d == 7 {
        "7"@
    } else if d == 8 {
        "8"@
    } else {
        "9"@
    }
}

/// A number in decimal, without leading zeros.
pub open spec fn decimal(n: nat) -> Seq<char>
    decreases n,
{
    if n < 10 {
        digit_text(n)
    } else {
        decimal(n / 10) + digit_text(n % 10)
    }
}

/// A summary line: its tag, the number, and the line end.
pub open spec fn summary_text(tag: Seq<char>, n: nat) -> Seq<char> {
    tag + decimal(n) + "\n"@
}

/// The line that a record is written as, with its line end.
pub open spec fn record_text(record: Record) -> Seq<char> {
    match record {
        Record::TestName(name) => "TN:"@ + named(name) + "\n"@,
        Record::SourceFile(path) => "SF:"@ + path@ + "\n"@,
        Record::Data(data) => "DA:"@ + decimal(data.line as nat) + ","@ + decimal(
            data.count as nat,
        ) + (match data.checksum {
            Some(checksum) => ","@ + checksum@,
            None => Seq::empty(),
        }) + "\n"@,
        Record::FunctionName(f) => "FN:"@ + decimal(f.line as nat) + ","@ + f.name@ + "\n"@,
        Record::FunctionData(f) => "FNDA:"@ + decimal(f.count as nat) + ","@ + f.name@ + "\n"@,
        Record::FunctionsFound(n) => summary_text("FNF:"@, n as nat),
        Record::FunctionsHit(n) => summary_text("FNH:"@, n as nat),
        Record::LinesHit(n) => summary_text("LH:"@, n as nat),
        Record::LinesFound(n) => summary_text("LF:"@, n as nat),
        Record::BranchData(b) => "BRDA:"@ + decimal(b.line as nat) + ","@ + decimal(
            b.block as nat,
        ) + ","@ + decimal(b.branch as nat) + ","@ + decimal(b.taken as nat) + "\n"@,
        Record::BranchesFound(n) => summary_text("BRF:"@, n as nat),
        Record::BranchesHit(n) => summary_text("BRH:"@, n as nat),
        Record::EndOfRecord => "end_of_record\n"@,
    }
}

/// The lines that records are written as, one after the other.
pub open spec fn records_text(records: Seq<Record>) -> Seq<char>
    decreases records.len(),
{
    if records.len() == 0 {
        Seq::empty()
    } else {
        records_text(records.drop_last()) + record_text(records.last())
    }
}

/// The text of two runs of records is the text of the first, then that of the second.
pub proof fn lemma_records_text_add(a: Seq<Record>, b: Seq<Record>)
    ensures
        records_text(a + b) == records_text(a) + records_text(b),
    decreases b.len(),
{
    if b.len() == 0 {
        assert(a + b =~= a);
        assert(records_text(a) + records_text(b) =~= records_text(a));
    } else {
        lemma_records_text_add(a, b.drop_last());
        assert((a + b).drop_last() =~= a + b.drop_last());
        assert((a + b).last() == b.last());
        assert(records_text(a + b) =~= records_text(a) + records_text(b));
    }
}

/// Appends a text.
pub fn push_text(out: &mut String, text: &str)
    ensures
        final(out)@ == old(out)@ + text@,
{
    out.append(text);
}

/// Appends one decimal digit.
pub fn push_digit(out: &mut String, d: u8)
    requires
        d < 10,
    ensures
        final(out)@ == old(out)@ + digit_text(d as nat),
{
    if d == 0 {
        out.append("0");
    } else if d == 1 {
        out.append("1");
    } else if d == 2 {
        out.append("2");
    } else if d == 3 {
        out.append("3");
    } else if d == 4 {
        out.append("4");
    } else if d == 5 {
        out.append("5");
    } else if d == 6 {
        out.append("6");
    } else if d == 7 {
        out.append("7");
    } else if d == 8 {
        out.append("8");
    } else {
        out.append("9");
    }
}

/// Appends a number in decimal.
pub fn push_decimal(out: &mut String, n: u128)
    ensures
        final(out)@ == old(out)@ + decimal(n as nat),
    decreases n,
{
    if n >= 10 {
        push_decimal(out, n / 10);
        push_digit(out, (n % 10) as u8);
        assert(out@ =~= old(out)@ + (decimal((n / 10) as nat) + digit_text((n % 10) as nat)));
    } else {
        push_digit(out, n as u8);
    }
}

/// Appends a summary line.
pub fn push_summary(out: &mut String, tag: &str, n: u128)
    ensures
        final(out)@ == old(out)@ + summary_text(tag@, n as nat),
{
    out.append(tag);
    push_decimal(out, n);
    out.append("\n");
    assert(out@ =~= old(out)@ + summary_text(tag@, n as nat));
}

} // verus!
