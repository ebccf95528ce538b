//! The text of a report is a function of its content: two reports that hold
//! the same are written the same.

use crate::aggregate::Aggregate;
use crate::attribute::ExecutionCount;
use crate::attribute::LineNumber;
use crate::branch::found_units;
use crate::branch::hit_units;
use crate::branch::BranchBlocks;
use crate::branch::BranchUnit;
use crate::counter::hit_entries;
use crate::counter::FoundCounter;
use crate::counter::Hit;
use crate::counter::HitCounter;
use crate::file::File;
use crate::function::Function;
use crate::key::SortKey;
use crate::line::Line;
use crate::record::RecordWrite;
use crate::render::branch_records;
use crate::render::branches_text;
use crate::render::count_of;
use crate::render::declaration_of;
use crate::render::file_text;
use crate::render::files_text;
use crate::render::function_records;
use crate::render::functions_text;
use crate::render::line_record_of;
use crate::render::line_records;
use crate::render::lines_text;
use crate::render::test_text;
use crate::render::unit_records;
use crate::report::Report;
use crate::report::ReportModel;
use crate::summary::ascending;
use crate::summary::has_key;
use crate::summary::lemma_entry_at;
use crate::summary::position;
use crate::summary::AggregateResult;
use crate::test::Test;
use crate::text::lemma_records_text_add;
use crate::text::record_text;
use crate::text::records_text;
use vstd::prelude::*;

verus! {

/// The entries but the last ascend, and hold every key but the last.
pub proof fn lemma_drop_last<K: SortKey, V>(s: Seq<(K, V)>)
    requires
        ascending(s),
        s.len() > 0,
    ensures
        ascending(s.drop_last()),
        forall|k: K::V| has_key(s.drop_last(), k) <==> has_key(s, k) && k != s.last().0@,
{
    K::order_laws();
    let t = s.drop_last();
    assert forall|i: int, j: int| 0 <= i < j < t.len() implies K::before(
        (#[trigger] t[i]).0@,
        (#[trigger] t[j]).0@,
    ) by {
        assert(t[i] == s[i] && t[j] == s[j]);
    }
    assert forall|k: K::V| has_key(t, k) <==> has_key(s, k) && k != s.last().0@ by {
        if has_key(t, k) {
            let i = position(t, k);
            assert(s[i].0@ == k);
            assert(K::before(s[i].0@, s[s.len() - 1].0@));
        }
        if has_key(s, k) && k != s.last().0@ {
            let i = position(s, k);
            assert(i < s.len() - 1);
            assert(t[i].0@ == k);
        }
    }
}

/// Ascending entries with the same keys have them at the same places.
pub proof fn lemma_same_keys<K: SortKey, V>(a: Seq<(K, V)>, b: Seq<(K, V)>)
    requires
        ascending(a),
        ascending(b),
        forall|k: K::V| has_key(a, k) <==> has_key(b, k),
    ensures
        a.len() == b.len(),
        forall|i: int| 0 <= i < a.len() ==> (#[trigger] a[i]).0@ == b[i].0@,
    decreases a.len(),
{
    K::order_laws();
    if a.len() == 0 {
        if b.len() > 0 {
            assert(b[0].0@ == b[0].0@);
            assert(has_key(b, b[0].0@));
            let i = position(a, b[0].0@);
        }
    } else {
        let la = a.last().0@;
        assert(a[a.len() - 1].0@ == la);
        assert(has_key(a, la));
        let j = position(b, la);
        assert(b.len() > 0);
        let lb = b.last().0@;
        assert(b[b.len() - 1].0@ == lb);
        assert(has_key(b, lb));
        let i = position(a, lb);
        if j < b.len() - 1 {
            assert(K::before(b[j].0@, b[b.len() - 1].0@));
            if i < a.len() - 1 {
                assert(K::before(a[i].0@, a[a.len() - 1].0@));
            }
        }
        assert(la == lb);
        lemma_drop_last(a);
        lemma_drop_last(b);
        assert forall|k: K::V| has_key(a.drop_last(), k) <==> has_key(b.drop_last(), k) by {
            assert(has_key(a.drop_last(), k) <==> has_key(a, k) && k != la);
            assert(has_key(b.drop_last(), k) <==> has_key(b, k) && k != lb);
            assert(has_key(a, k) <==> has_key(b, k));
        }
        lemma_same_keys(a.drop_last(), b.drop_last());
        assert forall|i: int| 0 <= i < a.len() implies (#[trigger] a[i]).0@ == b[i].0@ by {
            if i < a.len() - 1 {
                assert(a.drop_last()[i] == a[i]);
                assert(b.drop_last()[i] == b[i]);
            }
        }
    }
}

/// Two well-formed maps that hold the same hold it at the same places.
pub proof fn lemma_same_entries<K: SortKey, V: Aggregate>(
    x: &AggregateResult<K, V>,
    y: &AggregateResult<K, V>,
)
    requires
        x.wf(),
        y.wf(),
        x.model() == y.model(),
    ensures
        x.entries().len() == y.entries().len(),
        forall|i: int|
            0 <= i < x.entries().len() ==> (#[trigger] x.entries()[i]).0@ == y.entries()[i].0@
                && x.entries()[i].1.model() == y.entries()[i].1.model(),
{
    let a = x.entries();
    let b = y.entries();
    assert forall|k: K::V| has_key(a, k) <==> has_key(b, k) by {
        assert(x.model().contains_key(k) == x@.contains_key(k));
        assert(y.model().contains_key(k) == y@.contains_key(k));
    }
    lemma_same_keys(a, b);
    assert forall|i: int| 0 <= i < a.len() implies (#[trigger] a[i]).0@ == b[i].0@
        && a[i].1.model() == b[i].1.model() by {
        lemma_entry_at(a, i);
        lemma_entry_at(b, i);
        assert(x.model()[a[i].0@] == a[i].1.model());
        assert(y.model()[b[i].0@] == b[i].1.model());
    }
}

/// Entries that agree on what is hit have as many hits.
pub proof fn lemma_same_hits<K, V: Hit>(a: Seq<(K, V)>, b: Seq<(K, V)>)
    requires
        a.len() == b.len(),
        forall|i: int| 0 <= i < a.len() ==> (#[trigger] a[i]).1.hit() == b[i].1.hit(),
    ensures
        hit_entries(a).len() == hit_entries(b).len(),
    decreases a.len(),
{
    reveal(Seq::filter);
    if a.len() > 0 {
        assert(a.last() == a[a.len() - 1]);
        assert(b.last() == b[b.len() - 1]);
        assert forall|i: int| 0 <= i < a.drop_last().len() implies (#[trigger] a.drop_last()[i]).1.hit()
            == b.drop_last()[i].1.hit() by {
            assert(a.drop_last()[i] == a[i]);
            assert(b.drop_last()[i] == b[i]);
        }
        lemma_same_hits(a.drop_last(), b.drop_last());
    }
}

/// Lines that hold the same are written the same.
pub proof fn lemma_lines_text(a: Seq<(LineNumber, Line)>, b: Seq<(LineNumber, Line)>)
    requires
        a.len() == b.len(),
        forall|i: int|
            0 <= i < a.len() ==> (#[trigger] a[i]).0 == b[i].0 && a[i].1.model() == b[i].1.model(),
    ensures
        records_text(line_records(a)) == records_text(line_records(b)),
    decreases a.len(),
{
    if a.len() > 0 {
        assert(a.last() == a[a.len() - 1]);
        assert(b.last() == b[b.len() - 1]);
        assert forall|i: int| 0 <= i < a.drop_last().len() implies (#[trigger] a.drop_last()[i]).0
            == b.drop_last()[i].0 && a.drop_last()[i].1.model() == b.drop_last()[i].1.model() by {
            assert(a.drop_last()[i] == a[i]);
            assert(b.drop_last()[i] == b[i]);
        }
        lemma_lines_text(a.drop_last(), b.drop_last());
        assert(line_records(a).drop_last() =~= line_records(a.drop_last()));
        assert(line_records(b).drop_last() =~= line_records(b.drop_last()));
        assert(record_text(line_record_of(a.last())) == record_text(line_record_of(b.last())));
    }
}

/// Functions that hold the same are written the same.
pub proof fn lemma_functions_text(a: Seq<(String, Function)>, b: Seq<(String, Function)>)
    requires
        a.len() == b.len(),
        forall|i: int|
            0 <= i < a.len() ==> (#[trigger] a[i]).0@ == b[i].0@ && a[i].1.model()
                == b[i].1.model(),
    ensures
        records_text(function_records(a)) == records_text(function_records(b)),
    decreases a.len(),
{
    if a.len() > 0 {
        assert(a.last() == a[a.len() - 1]);
        assert(b.last() == b[b.len() - 1]);
        assert forall|i: int| 0 <= i < a.drop_last().len() implies (#[trigger] a.drop_last()[i]).0@
            == b.drop_last()[i].0@ && a.drop_last()[i].1.model() == b.drop_last()[i].1.model() by {
            assert(a.drop_last()[i] == a[i]);
            assert(b.drop_last()[i] == b[i]);
        }
        lemma_functions_text(a.drop_last(), b.drop_last());
        let ra = function_records(a.drop_last());
        let rb = function_records(b.drop_last());
        assert(function_records(a).drop_last() =~= ra.push(declaration_of(a.last())));
        assert(function_records(b).drop_last() =~= rb.push(declaration_of(b.last())));
        assert(ra.push(declaration_of(a.last())).drop_last() =~= ra);
        assert(rb.push(declaration_of(b.last())).drop_last() =~= rb);
        assert(record_text(declaration_of(a.last())) == record_text(declaration_of(b.last())));
        assert(record_text(count_of(a.last())) == record_text(count_of(b.last())));
        assert(records_text(ra.push(declaration_of(a.last()))) == records_text(
            rb.push(declaration_of(b.last())),
        ));
    }
}

/// Units of a line that hold the same are written the same.
pub proof fn lemma_units_text(
    line: LineNumber,
    a: Seq<(BranchUnit, ExecutionCount)>,
    b: Seq<(BranchUnit, ExecutionCount)>,
)
    requires
        a.len() == b.len(),
        forall|i: int| 0 <= i < a.len() ==> (#[trigger] a[i]).0 == b[i].0 && a[i].1 == b[i].1,
    ensures
        records_text(unit_records(line, a)) == records_text(unit_records(line, b)),
{
    assert(a =~= b);
}

/// Branches that hold the same are written the same, and count the same.
pub proof fn lemma_branches_text(
    a: Seq<(LineNumber, BranchBlocks)>,
    b: Seq<(LineNumber, BranchBlocks)>,
)
    requires
        a.len() == b.len(),
        forall|i: int|
            0 <= i < a.len() ==> (#[trigger] a[i]).0 == b[i].0 && a[i].1.wf() && b[i].1.wf()
                && a[i].1.model() == b[i].1.model(),
    ensures
        records_text(branch_records(a)) == records_text(branch_records(b)),
        found_units(a) == found_units(b),
        hit_units(a) == hit_units(b),
    decreases a.len(),
{
    if a.len() > 0 {
        assert(a.last() == a[a.len() - 1]);
        assert(b.last() == b[b.len() - 1]);
        assert forall|i: int| 0 <= i < a.drop_last().len() implies (#[trigger] a.drop_last()[i]).0
            == b.drop_last()[i].0 && a.drop_last()[i].1.wf() && b.drop_last()[i].1.wf()
            && a.drop_last()[i].1.model() == b.drop_last()[i].1.model() by {
            assert(a.drop_last()[i] == a[i]);
            assert(b.drop_last()[i] == b[i]);
        }
        lemma_branches_text(a.drop_last(), b.drop_last());
        let x = a.last().1;
        let y = b.last().1;
        lemma_same_entries(&x, &y);
        assert(x.entries() =~= y.entries()) by {
            assert forall|i: int| 0 <= i < x.entries().len() implies x.entries()[i]
                == y.entries()[i] by {
                assert(x.entries()[i].0@ == y.entries()[i].0@);
                assert(x.entries()[i].1.model() == y.entries()[i].1.model());
            }
        }
        lemma_records_text_add(
            branch_records(a.drop_last()),
            unit_records(a.last().0, x.entries()),
        );
        lemma_records_text_add(
            branch_records(b.drop_last()),
            unit_records(b.last().0, y.entries()),
        );
    }
}

/// Tests that hold the same are written the same.
pub proof fn lemma_test_text(path: String, name: String, x: &Test, other: String, called: String, y: &Test)
    requires
        x.inv(),
        y.inv(),
        x.model() == y.model(),
        path@ == other@,
        name@ == called@,
    ensures
        test_text(path, name, x) == test_text(other, called, y),
{
    lemma_same_entries(&x.functions, &y.functions);
    lemma_functions_text(x.functions.entries(), y.functions.entries());
    lemma_same_hits(x.functions.entries(), y.functions.entries());
    lemma_same_entries(&x.lines, &y.lines);
    lemma_lines_text(x.lines.entries(), y.lines.entries());
    lemma_same_hits(x.lines.entries(), y.lines.entries());
    lemma_same_entries(&x.branches, &y.branches);
    lemma_branches_text(x.branches.entries(), y.branches.entries());
    assert(functions_text(&x.functions) == functions_text(&y.functions));
    assert(lines_text(&x.lines) == lines_text(&y.lines));
    assert(branches_text(&x.branches) == branches_text(&y.branches));
}

/// The blocks of files that hold the same are written the same.
pub proof fn lemma_file_text(
    path: String,
    a: Seq<(String, Test)>,
    other: String,
    b: Seq<(String, Test)>,
)
    requires
        path@ == other@,
        a.len() == b.len(),
        forall|i: int|
            0 <= i < a.len() ==> (#[trigger] a[i]).0@ == b[i].0@ && a[i].1.inv() && b[i].1.inv()
                && a[i].1.model() == b[i].1.model(),
    ensures
        file_text(path, a) == file_text(other, b),
    decreases a.len(),
{
    if a.len() > 0 {
        assert(a.last() == a[a.len() - 1]);
        assert(b.last() == b[b.len() - 1]);
        assert forall|i: int| 0 <= i < a.drop_last().len() implies (#[trigger] a.drop_last()[i]).0@
            == b.drop_last()[i].0@ && a.drop_last()[i].1.inv() && b.drop_last()[i].1.inv()
            && a.drop_last()[i].1.model() == b.drop_last()[i].1.model() by {
            assert(a.drop_last()[i] == a[i]);
            assert(b.drop_last()[i] == b[i]);
        }
        lemma_file_text(path, a.drop_last(), other, b.drop_last());
        lemma_test_text(path, a.last().0, &a.last().1, other, b.last().0, &b.last().1);
    }
}

/// Files that hold the same are written the same.
pub proof fn lemma_files_text(a: Seq<(String, File)>, b: Seq<(String, File)>)
    requires
        a.len() == b.len(),
        forall|i: int|
            0 <= i < a.len() ==> (#[trigger] a[i]).0@ == b[i].0@ && a[i].1.inv() && b[i].1.inv()
                && a[i].1.model() == b[i].1.model(),
    ensures
        files_text(a) == files_text(b),
    decreases a.len(),
{
    if a.len() > 0 {
        assert(a.last() == a[a.len() - 1]);
        assert(b.last() == b[b.len() - 1]);
        assert forall|i: int| 0 <= i < a.drop_last().len() implies (#[trigger] a.drop_last()[i]).0@
            == b.drop_last()[i].0@ && a.drop_last()[i].1.inv() && b.drop_last()[i].1.inv()
            && a.drop_last()[i].1.model() == b.drop_last()[i].1.model() by {
            assert(a.drop_last()[i] == a[i]);
            assert(b.drop_last()[i] == b[i]);
        }
        lemma_files_text(a.drop_last(), b.drop_last());
        let x = a.last().1.tests;
        let y = b.last().1.tests;
        lemma_same_entries(&x, &y);
        lemma_file_text(a.last().0, x.entries(), b.last().0, y.entries());
    }
}

/// The text of a report is a function of its content: two reports that
/// hold the same are written the same.
pub proof fn law_text_of_content(x: &Report, y: &Report)
    requires
        x.inv(),
        y.inv(),
        x.model() == y.model(),
    ensures
        x.written() == y.written(),
{
    lemma_same_entries(&x.files, &y.files);
    lemma_files_text(x.files.entries(), y.files.entries());
}

/// Merging is commutative on the text: a report that holds `b` merged into
/// `a` and one that holds `a` merged into `b` are written the same.
pub proof fn law_commutative_text(ab: &Report, ba: &Report, a: ReportModel, b: ReportModel)
    requires
        ab.inv(),
        ba.inv(),
        Report::compatible(a, b),
        ab.model() == Report::merged(a, b),
        ba.model() == Report::merged(b, a),
    ensures
        ab.written() == ba.written(),
{
    Report::law_commutative(a, b);
    law_text_of_content(ab, ba);
}

/// Merging is associative on the text: a report that holds `c` merged into
/// the merge of `a` and `b`, and one that holds the merge of `b` and `c`
/// merged into `a`, are written the same.
pub proof fn law_associative_text(
    left: &Report,
    right: &Report,
    a: ReportModel,
    b: ReportModel,
    c: ReportModel,
)
    requires
        left.inv(),
        right.inv(),
        Report::compatible(a, b),
        Report::compatible(Report::merged(a, b), c),
        left.model() == Report::merged(Report::merged(a, b), c),
        right.model() == Report::merged(a, Report::merged(b, c)),
    ensures
        left.written() == right.written(),
{
    Report::law_associative(a, b, c);
    law_text_of_content(left, right);
}

} // verus!
