//! The two ways of merging, and what a failed merge is reported as.

use crate::aggregate::Aggregate;
use crate::aggregate::Refusal;
use crate::attribute::CheckSum;
use crate::attribute::LineNumber;
use crate::line::Line;
use crate::record::copy_text;
use crate::record::FunctionName;
use crate::record::RecordParseError;
use vstd::prelude::*;

verus! {

/// `std::io::Error`, the error of reading or writing a file. The library
/// carries it in `MergeError::IO` and never looks inside.
#[verifier::external_type_specification]
#[verifier::external_body]
pub struct ExIoError(std::io::Error);

/// What a merge that can fail gives back.
pub type MergeResult<E> = Result<(), E>;

/// A line as a checksum error names it.
#[derive(Debug, PartialEq)]
pub struct MergeLine {
    pub line: LineNumber,
    pub checksum: Option<CheckSum>,
}

/// Two occurrences of a line disagree.
#[derive(Debug, PartialEq)]
pub enum ChecksumError {
    /// Kept for a strict reading in which a line with a checksum may not
    /// meet one without; the merge in this library never gives it.
    Empty(MergeLine),
    /// Both occurrences carry a checksum, and the two differ: first the line
    /// already held, then the one that came.
    Mismatch(MergeLine, MergeLine),
}

/// Two declarations of a function disagree.
#[derive(Debug, PartialEq)]
pub enum FunctionError {
    /// The function was declared at two different lines: first the
    /// declaration already held, then the one that came.
    Mismatch(FunctionName, FunctionName),
}

/// Why the coverage of two tests cannot be merged.
#[derive(Debug, PartialEq)]
pub enum TestError {
    Checksum(ChecksumError),
    Function(FunctionError),
}

/// Why traces could not be merged.
#[derive(Debug)]
pub enum MergeError {
    /// An input could not be read, or the output not written.
    IO(std::io::Error),
    /// A line of an input is no record.
    RecordParse(RecordParseError),
    /// The inputs disagree.
    Process(TestError),
}

impl<'a> From<&'a Line> for MergeLine {
    fn from(line: &'a Line) -> (r: Self) {
        MergeLine { line: line.line_number, checksum: copy_text(&line.checksum) }
    }
}

impl<'a> vstd::std_specs::convert::FromSpecImpl<&'a Line> for MergeLine {
    open spec fn obeys_from_spec() -> bool {
        true
    }

    open spec fn from_spec(line: &'a Line) -> Self {
        MergeLine { line: line.line_number, checksum: line.checksum }
    }
}

impl From<ChecksumError> for TestError {
    fn from(error: ChecksumError) -> (r: Self) {
        TestError::Checksum(error)
    }
}

impl vstd::std_specs::convert::FromSpecImpl<ChecksumError> for TestError {
    open spec fn obeys_from_spec() -> bool {
        true
    }

    open spec fn from_spec(error: ChecksumError) -> Self {
        TestError::Checksum(error)
    }
}

impl From<FunctionError> for TestError {
    fn from(error: FunctionError) -> (r: Self) {
        TestError::Function(error)
    }
}

impl vstd::std_specs::convert::FromSpecImpl<FunctionError> for TestError {
    open spec fn obeys_from_spec() -> bool {
        true
    }

    open spec fn from_spec(error: FunctionError) -> Self {
        TestError::Function(error)
    }
}

impl From<std::io::Error> for MergeError {
    fn from(error: std::io::Error) -> (r: Self) {
        MergeError::IO(error)
    }
}

impl vstd::std_specs::convert::FromSpecImpl<std::io::Error> for MergeError {
    open spec fn obeys_from_spec() -> bool {
        true
    }

    open spec fn from_spec(error: std::io::Error) -> Self {
        MergeError::IO(error)
    }
}

impl From<RecordParseError> for MergeError {
    fn from(error: RecordParseError) -> (r: Self) {
        MergeError::RecordParse(error)
    }
}

impl vstd::std_specs::convert::FromSpecImpl<RecordParseError> for MergeError {
    open spec fn obeys_from_spec() -> bool {
        true
    }

    open spec fn from_spec(error: RecordParseError) -> Self {
        MergeError::RecordParse(error)
    }
}

impl From<TestError> for MergeError {
    fn from(error: TestError) -> (r: Self) {
        MergeError::Process(error)
    }
}

impl vstd::std_specs::convert::FromSpecImpl<TestError> for MergeError {
    open spec fn obeys_from_spec() -> bool {
        true
    }

    open spec fn from_spec(error: TestError) -> Self {
        MergeError::Process(error)
    }
}

impl From<ChecksumError> for MergeError {
    fn from(error: ChecksumError) -> (r: Self) {
        MergeError::Process(TestError::Checksum(error))
    }
}

impl vstd::std_specs::convert::FromSpecImpl<ChecksumError> for MergeError {
    open spec fn obeys_from_spec() -> bool {
        true
    }

    open spec fn from_spec(error: ChecksumError) -> Self {
        MergeError::Process(TestError::Checksum(error))
    }
}

impl From<FunctionError> for MergeError {
    fn from(error: FunctionError) -> (r: Self) {
        MergeError::Process(TestError::Function(error))
    }
}

impl vstd::std_specs::convert::FromSpecImpl<FunctionError> for MergeError {
    open spec fn obeys_from_spec() -> bool {
        true
    }

    open spec fn from_spec(error: FunctionError) -> Self {
        MergeError::Process(TestError::Function(error))
    }
}

/// A merge that cannot disagree: counts add up.
pub trait Merge<Rhs>: Aggregate {
    /// What is asked of the right-hand side.
    spec fn merge_accepts(rhs: Rhs) -> bool;

    /// Every count stays within `u32` when `rhs` is merged into `self`.
    spec fn merge_fits(&self, rhs: Rhs) -> bool;

    /// The content of `self` with `rhs` merged into it.
    spec fn merged_with(&self, rhs: Rhs) -> Self::Model;

    /// Merges `rhs` into `self` if every count stays within `u32`, and says
    /// whether it did.
    fn merge_checked(&mut self, rhs: Rhs) -> (done: bool)
        requires
            old(self).inv(),
            Self::merge_accepts(rhs),
        ensures
            final(self).inv(),
            done == old(self).merge_fits(rhs),
            done ==> final(self).model() == old(self).merged_with(rhs),
            !done ==> *final(self) == *old(self),
    ;

    /// Merges `rhs` into `self`.
    fn merge(&mut self, rhs: Rhs)
        requires
            old(self).inv(),
            Self::merge_accepts(rhs),
            old(self).merge_fits(rhs),
        ensures
            final(self).inv(),
            final(self).model() == old(self).merged_with(rhs),
    ;
}

/// A merge that fails where the two sides disagree.
pub trait TryMerge<Rhs>: Aggregate {
    type Err;

    /// What is asked of the right-hand side.
    spec fn try_merge_accepts(rhs: Rhs) -> bool;

    /// Why `rhs` cannot be merged into `self`, if it cannot.
    spec fn merge_refusal(&self, rhs: Rhs) -> Option<Refusal<Self::Err>>;

    /// The content of `self` with `rhs` merged into it.
    spec fn try_merged_with(&self, rhs: Rhs) -> Self::Model;

    /// Merges `rhs` into `self` unless something stands against it; then
    /// `self` is left as it was.
    fn try_merge_checked(&mut self, rhs: Rhs) -> (r: Result<(), Refusal<Self::Err>>)
        requires
            old(self).inv(),
            Self::try_merge_accepts(rhs),
        ensures
            final(self).inv(),
            match r {
                Ok(()) => old(self).merge_refusal(rhs) is None && final(self).model() == old(
                    self,
                ).try_merged_with(rhs),
                Err(x) => old(self).merge_refusal(rhs) == Some(x) && *final(self) == *old(self),
            },
    ;

    /// Merges `rhs` into `self`, or fails with the disagreement and leaves
    /// `self` as it was.
    fn try_merge(&mut self, rhs: Rhs) -> (r: MergeResult<Self::Err>)
        requires
            old(self).inv(),
            Self::try_merge_accepts(rhs),
            !(old(self).merge_refusal(rhs) matches Some(Refusal::Overflow)),
        ensures
            final(self).inv(),
            match r {
                Ok(()) => old(self).merge_refusal(rhs) is None && final(self).model() == old(
                    self,
                ).try_merged_with(rhs),
                Err(e) => old(self).merge_refusal(rhs) == Some(Refusal::Conflict(e)) && *final(self)
                    == *old(self),
            },
    ;
}

/// Any node merges with another of its kind.
impl<'a, T: Aggregate> TryMerge<&'a T> for T {
    type Err = T::Error;

    open spec fn try_merge_accepts(rhs: &'a T) -> bool {
        rhs.inv()
    }

    open spec fn merge_refusal(&self, rhs: &'a T) -> Option<Refusal<T::Error>> {
        crate::aggregate::refusal(self, rhs)
    }

    open spec fn try_merged_with(&self, rhs: &'a T) -> T::Model {
        T::merged(self.model(), rhs.model())
    }

    fn try_merge_checked(&mut self, rhs: &'a T) -> (r: Result<(), Refusal<T::Error>>) {
        match self.check(rhs) {
            Some(x) => Err(x),
            None => {
                self.absorb(rhs);
                Ok(())
            },
        }
    }

    fn try_merge(&mut self, rhs: &'a T) -> (r: MergeResult<T::Error>) {
        match self.check(rhs) {
            Some(Refusal::Conflict(e)) => Err(e),
            _ => {
                self.absorb(rhs);
                Ok(())
            },
        }
    }
}

} // verus!
