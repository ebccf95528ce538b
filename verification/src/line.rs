//! Line coverage: how often each line of a source file was executed.

use crate::aggregate::entry_merged;
use crate::aggregate::entry_refusal;
use crate::aggregate::Aggregate;
use crate::aggregate::Refusal;
use crate::attribute::CheckSum;
use crate::attribute::ExecutionCount;
use crate::attribute::LineNumber;
use crate::counter::Hit;
use crate::key::Label;
use crate::merge::ChecksumError;
use crate::merge::MergeLine;
use crate::merge::MergeResult;
use crate::merge::TryMerge;
use crate::record::copy_text;
use crate::record::same_text;
use crate::record::LineData;
use crate::summary::AggregateResult;
use vstd::prelude::*;

verus! {

/// The coverage of one line.
#[derive(Debug, Eq)]
pub struct Line {
    pub line_number: LineNumber,
    pub execution_count: ExecutionCount,
    pub checksum: Option<CheckSum>,
}

/// What a line holds, apart from its number: how often it ran, and its
/// checksum where one is known.
pub struct LineModel {
    pub count: nat,
    pub checksum: Option<Seq<char>>,
}

/// The view of an optional text.
pub open spec fn text_view(text: Option<String>) -> Option<Seq<char>> {
    match text {
        Some(s) => Some(s@),
        None => None,
    }
}

/// The line that a `DA` record describes.
pub open spec fn line_of(data: LineData) -> Line {
    Line { line_number: data.line, execution_count: data.count, checksum: data.checksum }
}

impl Line {
    pub fn new(line_number: u32, execution_count: ExecutionCount, checksum: Option<CheckSum>) -> (line:
        Self)
        ensures
            line == (Line { line_number, execution_count, checksum }),
    {
        Line { line_number, execution_count, checksum }
    }

    /// The line that a `DA` record describes.
    pub fn from_data(data: &LineData) -> (line: Self)
        ensures
            line == line_of(*data),
    {
        Line {
            line_number: data.line,
            execution_count: data.count,
            checksum: copy_text(&data.checksum),
        }
    }

    pub fn line_number(&self) -> (n: &u32)
        ensures
            *n == self.line_number,
    {
        &self.line_number
    }

    pub fn execution_count(&self) -> (n: &ExecutionCount)
        ensures
            *n == self.execution_count,
    {
        &self.execution_count
    }

    pub fn checksum(&self) -> (c: Option<&CheckSum>)
        ensures
            match c {
                Some(s) => self.checksum == Some(*s),
                None => self.checksum is None,
            },
    {
        match &self.checksum {
            Some(v) => Some(v),
            None => None,
        }
    }

    pub fn has_checkshum(&self) -> (b: bool)
        ensures
            b == self.checksum is Some,
    {
        self.checksum.is_some()
    }

}

impl<'a> From<&'a LineData> for Line {
    fn from(line_data: &'a LineData) -> (r: Self) {
        Line::from_data(line_data)
    }
}

impl<'a> vstd::std_specs::convert::FromSpecImpl<&'a LineData> for Line {
    open spec fn obeys_from_spec() -> bool {
        true
    }

    open spec fn from_spec(line_data: &'a LineData) -> Self {
        line_of(*line_data)
    }
}

impl Hit for Line {
    open spec fn hit(&self) -> bool {
        self.execution_count > 0
    }

    fn is_hit(&self) -> (hit: bool) {
        self.execution_count > 0
    }
}

/// Two lines are compared by their checksums where both have one, and by
/// their numbers otherwise.
impl PartialEq for Line {
    fn eq(&self, other: &Self) -> (r: bool) {
        match (&self.checksum, &other.checksum) {
            (Some(a), Some(b)) => same_text(a, b),
            _ => self.line_number == other.line_number,
        }
    }
}

impl vstd::std_specs::cmp::PartialEqSpecImpl for Line {
    open spec fn obeys_eq_spec() -> bool {
        true
    }

    open spec fn eq_spec(&self, other: &Self) -> bool {
        match (self.checksum, other.checksum) {
            (Some(a), Some(b)) => a@ == b@,
            _ => self.line_number == other.line_number,
        }
    }
}

impl Aggregate for Line {
    type Model = LineModel;

    type Error = ChecksumError;

    open spec fn inv(&self) -> bool {
        true
    }

    /// A line is kept under its number.
    open spec fn labelled(&self, label: Label) -> bool {
        label == Label::Line(self.line_number)
    }

    open spec fn model(&self) -> LineModel {
        LineModel { count: self.execution_count as nat, checksum: text_view(self.checksum) }
    }

    /// Two lines disagree only where both carry a checksum and the two differ.
    open spec fn compatible(a: LineModel, b: LineModel) -> bool {
        a.checksum is Some && b.checksum is Some ==> a.checksum == b.checksum
    }

    /// The counts add up; a checksum that either side has is kept.
    open spec fn merged(a: LineModel, b: LineModel) -> LineModel {
        LineModel {
            count: a.count + b.count,
            checksum: if a.checksum is Some {
                a.checksum
            } else {
                b.checksum
            },
        }
    }

    open spec fn fits(m: LineModel) -> bool {
        m.count <= u32::MAX
    }

    open spec fn conflict(&self, other: &Self) -> Option<ChecksumError> {
        if self.checksum is Some && other.checksum is Some && self.checksum->0@
            != other.checksum->0@ {
            Some(
                ChecksumError::Mismatch(
                    MergeLine { line: self.line_number, checksum: self.checksum },
                    MergeLine { line: other.line_number, checksum: other.checksum },
                ),
            )
        } else {
            None
        }
    }

    proof fn lemma_conflict(&self, other: &Self) {
    }

    proof fn lemma_fits(&self) {
    }

    proof fn law_commutative(a: LineModel, b: LineModel) {
    }

    proof fn law_associative(a: LineModel, b: LineModel, c: LineModel) {
    }

    fn check(&self, other: &Self) -> (r: Option<Refusal<ChecksumError>>) {
        let differ = match (&self.checksum, &other.checksum) {
            (Some(a), Some(b)) => !same_text(a, b),
            _ => false,
        };
        if differ {
            Some(
                Refusal::Conflict(
                    ChecksumError::Mismatch(MergeLine { line: self.line_number, checksum: copy_text(&self.checksum) }, MergeLine { line: other.line_number, checksum: copy_text(&other.checksum) }),
                ),
            )
        } else if other.execution_count > u32::MAX - self.execution_count {
            Some(Refusal::Overflow)
        } else {
            None
        }
    }

    fn absorb(&mut self, other: &Self) {
        self.execution_count = self.execution_count + other.execution_count;
        if self.checksum.is_none() {
            self.checksum = copy_text(&other.checksum);
        }
    }

    proof fn lemma_cloned(&self, copy: &Self) {
    }
}

impl Clone for Line {
    fn clone(&self) -> (r: Self)
        ensures
            r == *self,
    {
        Line {
            line_number: self.line_number,
            execution_count: self.execution_count,
            checksum: copy_text(&self.checksum),
        }
    }
}

/// The lines of a source file, by number.
pub type Lines = AggregateResult<LineNumber, Line>;

impl<'a> TryMerge<&'a LineData> for Lines {
    type Err = ChecksumError;

    open spec fn try_merge_accepts(rhs: &'a LineData) -> bool {
        true
    }

    /// A `DA` record is refused where the line is held already and the two
    /// checksums differ, or where the summed count would leave `u32`.
    open spec fn merge_refusal(&self, rhs: &'a LineData) -> Option<Refusal<ChecksumError>> {
        entry_refusal(self@, rhs.line, &line_of(*rhs))
    }

    open spec fn try_merged_with(&self, rhs: &'a LineData) -> Map<LineNumber, LineModel> {
        entry_merged::<LineNumber, Line>(self.model(), rhs.line, line_of(*rhs).model())
    }

    fn try_merge_checked(&mut self, rhs: &'a LineData) -> (r: Result<(), Refusal<ChecksumError>>) {
        self.merge_entry(&rhs.line, Line::from_data(rhs))
    }

    fn try_merge(&mut self, rhs: &'a LineData) -> (r: MergeResult<ChecksumError>) {
        match self.merge_entry(&rhs.line, Line::from_data(rhs)) {
            Err(Refusal::Conflict(e)) => Err(e),
            _ => Ok(()),
        }
    }
}

} // verus!
