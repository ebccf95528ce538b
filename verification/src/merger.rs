//! The merge driver: it parses one trace after the other and merges each
//! report into the first.

use crate::aggregate::refusal;
use crate::aggregate::Aggregate;
use crate::aggregate::Refusal;
use crate::merge::MergeError;
use crate::merge::TestError;
use crate::parser::initial;
use crate::parser::run_lines;
use crate::parser::stop_of_tests;
use crate::parser::ReportParser;
use crate::parser::Stop;
use crate::report::Report;
use crate::report::ReportModel;
use vstd::prelude::*;

verus! {

/// The report of one trace; nothing where its parser stops.
pub open spec fn trace_model(lines: Seq<String>) -> Option<ReportModel> {
    match run_lines(initial(), 0, lines) {
        Some(p) => Some(p.files),
        None => None,
    }
}

/// What was merged so far, with one more report merged into it; nothing
/// where the two disagree or a count would leave `u32`.
pub open spec fn add_model(merged: Option<ReportModel>, report: ReportModel) -> Option<
    ReportModel,
> {
    match merged {
        None => Some(report),
        Some(m) => if Report::compatible(m, report) && Report::fits(Report::merged(m, report)) {
            Some(Report::merged(m, report))
        } else {
            None
        },
    }
}

/// What was merged so far, with the report of one more trace merged into it.
pub open spec fn add_trace(merged: Option<ReportModel>, lines: Seq<String>) -> Option<
    ReportModel,
> {
    match trace_model(lines) {
        Some(report) => add_model(merged, report),
        None => None,
    }
}

/// The merge of the reports of some traces, the first trace first; nothing
/// where a parser stops or a merge is refused.
pub open spec fn merged_traces(traces: Seq<Vec<String>>) -> Option<ReportModel>
    decreases traces.len(),
{
    if traces.len() == 0 {
        None
    } else if traces.len() == 1 {
        trace_model(traces[0]@)
    } else {
        match merged_traces(traces.drop_last()) {
            Some(m) => add_trace(Some(m), traces.last()@),
            None => None,
        }
    }
}

/// Where the merge of a prefix of the traces fails, the merge of all fails.
pub proof fn lemma_merge_fails(traces: Seq<Vec<String>>, n: int)
    requires
        1 <= n <= traces.len(),
        merged_traces(traces.take(n)) is None,
    ensures
        merged_traces(traces) is None,
    decreases traces.len() - n,
{
    if n < traces.len() {
        assert(traces.take(n + 1).drop_last() =~= traces.take(n));
        lemma_merge_fails(traces, n + 1);
    } else {
        assert(traces.take(n) =~= traces);
    }
}

/// Merges reports, one after the other.
#[derive(Debug)]
pub struct ReportMerger {
    pub merged: Option<Report>,
}

impl ReportMerger {
    /// What was merged so far is well formed.
    pub open spec fn inv(&self) -> bool {
        match self.merged {
            Some(report) => report.inv(),
            None => true,
        }
    }

    /// The content of what was merged so far, if anything was.
    pub open spec fn model(&self) -> Option<ReportModel> {
        match self.merged {
            Some(report) => Some(report.model()),
            None => None,
        }
    }

    /// Why the report cannot be merged into what was merged so far, if it cannot.
    pub open spec fn add_refusal(&self, report: &Report) -> Option<Refusal<TestError>> {
        match self.merged {
            Some(merged) => refusal(&merged, report),
            None => None,
        }
    }

    /// Why the trace cannot be merged into what was merged so far, if it
    /// cannot: what stopped its parser, or why its report is refused.
    pub open spec fn trace_refused(&self, lines: Seq<String>, stop: Stop) -> bool {
        ||| exists|parser: ReportParser, i: int|
            0 <= i < lines.len() && parser.inv() && run_lines(
                initial(),
                0,
                #[trigger] lines.take(i),
            ) == Some(parser.model()) && parser.line == i && #[trigger] parser.line_stop(lines[i]@)
                == Some(stop)
        ||| exists|report: Report|
            report.inv() && trace_model(lines) == Some(report.model()) && stop_of_tests(
                #[trigger] self.add_refusal(&report),
            ) == Some(stop)
    }

    pub fn new() -> (merger: Self)
        ensures
            merger.inv(),
            merger.model() is None,
    {
        ReportMerger { merged: None }
    }

    /// Merges one more report into what was merged so far; the first report
    /// is taken as it is. On a refusal nothing changes.
    pub fn add(&mut self, report: Report) -> (r: Result<(), Refusal<TestError>>)
        requires
            old(self).inv(),
            report.inv(),
        ensures
            final(self).inv(),
            match r {
                Ok(()) => old(self).add_refusal(&report) is None && final(self).model()
                    == add_model(old(self).model(), report.model()) && final(self).model() is Some,
                Err(x) => old(self).add_refusal(&report) == Some(x) && add_model(
                    old(self).model(),
                    report.model(),
                ) is None && *final(self) == *old(self),
            },
    {
        match &mut self.merged {
            Some(merged) => {
                proof {
                    merged.lemma_conflict(&report);
                }
                match merged.check(&report) {
                    Some(x) => Err(x),
                    None => {
                        merged.absorb(&report);
                        Ok(())
                    },
                }
            },
            None => {
                self.merged = Some(report);
                Ok(())
            },
        }
    }

    /// Parses one more trace and merges its report into what was merged so
    /// far. Where the trace is refused nothing changes.
    pub fn merge_trace(&mut self, lines: &Vec<String>) -> (r: Result<(), Stop>)
        requires
            old(self).inv(),
        ensures
            final(self).inv(),
            match r {
                Ok(()) => add_trace(old(self).model(), lines@) == final(self).model()
                    && final(self).model() is Some,
                Err(stop) => add_trace(old(self).model(), lines@) is None && old(
                    self,
                ).trace_refused(lines@, stop) && *final(self) == *old(self),
            },
    {
        let mut parser = ReportParser::new();
        let report = match parser.parse(lines) {
            Ok(report) => report,
            Err(stop) => {
                proof {
                    let i = choose|i: int|
                        0 <= i < lines.len() && run_lines(
                            initial(),
                            0,
                            #[trigger] lines@.take(i),
                        ) == Some(parser.model()) && parser.line == i && parser.line_stop(
                            lines[i]@,
                        ) == Some(stop);
                    assert(parser.line_stop(lines@[i]@) == Some(stop));
                }
                return Err(stop);
            },
        };
        let ghost held = report;
        let r = self.add(report);
        proof {
            if r is Err {
                assert(held.inv() && trace_model(lines@) == Some(held.model()));
                assert(stop_of_tests(old(self).add_refusal(&held)) is Some);
            }
        }
        match r {
            Ok(()) => Ok(()),
            Err(Refusal::Conflict(e)) => Err(Stop::Failed(MergeError::Process(e))),
            Err(Refusal::Overflow) => Err(Stop::Overflow),
        }
    }

    /// What was merged, if anything was.
    pub fn finish(self) -> (r: Option<Report>)
        ensures
            r == self.merged,
    {
        self.merged
    }
}

/// Merges the reports of the traces, each given as its lines of text, into
/// the report of the first. It fails at the first trace that is refused,
/// with what refused it.
pub fn merge_traces(traces: &Vec<Vec<String>>) -> (r: Result<Report, Stop>)
    requires
        traces.len() > 0,
    ensures
        match r {
            Ok(report) => report.inv() && merged_traces(traces@) == Some(report.model()),
            Err(stop) => {
                &&& merged_traces(traces@) is None
                &&& exists|merger: ReportMerger, i: int|
                    0 <= i < traces.len() && merger.inv() && merger.model() == (if i == 0 {
                        None
                    } else {
                        merged_traces(#[trigger] traces@.take(i))
                    }) && #[trigger] merger.trace_refused(traces[i]@, stop)
            },
        },
{
    let mut merger = ReportMerger::new();
    let n = traces.len();
    let mut i: usize = 0;
    while i < n
        invariant
            i <= n,
            n == traces.len(),
            n > 0,
            merger.inv(),
            i == 0 ==> merger.model() is None,
            i > 0 ==> merger.model() is Some && merged_traces(traces@.take(i as int))
                == merger.model(),
        decreases n - i,
    {
        proof {
            assert(traces@.take(i + 1).drop_last() =~= traces@.take(i as int));
            assert(traces@.take(i + 1).last() == traces@[i as int]);
            if i == 0 {
                assert(traces@.take(1)[0] == traces@[0]);
            }
        }
        match merger.merge_trace(&traces[i]) {
            Ok(()) => {},
            Err(stop) => {
                proof {
                    lemma_merge_fails(traces@, i + 1);
                    assert(merger.trace_refused(traces@[i as int]@, stop));
                }
                return Err(stop);
            },
        }
        i += 1;
    }
    proof {
        assert(traces@.take(n as int) =~= traces@);
    }
    match merger.finish() {
        Some(report) => Ok(report),
        None => Err(Stop::MissingSource),
    }
}

} // verus!
