//! Function coverage: where each function is declared and how often it ran.

use crate::aggregate::entry_merged;
use crate::aggregate::entry_refusal;
use crate::aggregate::Aggregate;
use crate::aggregate::Refusal;
use crate::attribute::ExecutionCount;
use crate::attribute::LineNumber;
use crate::counter::Hit;
use crate::key::Label;
use crate::merge::FunctionError;
use crate::merge::MergeResult;
use crate::merge::TryMerge;
use crate::record::same_text;
use crate::record::FunctionData;
use crate::record::FunctionName;
use crate::summary::AggregateResult;
use vstd::prelude::*;

verus! {

/// The coverage of one function. A line number of zero says that no
/// declaration was seen yet.
#[derive(Debug)]
pub struct Function {
    pub name: String,
    pub line_number: LineNumber,
    pub execution_count: ExecutionCount,
}

/// What a function holds, apart from its name.
pub struct FunctionModel {
    /// The line of the declaration; zero while none was seen.
    pub line: LineNumber,
    pub count: nat,
}

/// The function that an `FN` record declares: not executed yet.
pub open spec fn declared(record: FunctionName) -> Function {
    Function { name: record.name, line_number: record.line, execution_count: 0 }
}

/// The function that an `FNDA` record counts: not declared yet.
pub open spec fn counted(record: FunctionData) -> Function {
    Function { name: record.name, line_number: 0, execution_count: record.count }
}

impl Function {
    pub fn new(name: String, line_number: LineNumber, execution_count: ExecutionCount) -> (function:
        Self)
        ensures
            function == (Function { name, line_number, execution_count }),
    {
        Function { name, line_number, execution_count }
    }

    /// The function that an `FN` record declares.
    pub fn from_name(record: &FunctionName) -> (function: Self)
        ensures
            function == declared(*record),
    {
        Function { name: record.name.clone(), line_number: record.line, execution_count: 0 }
    }

    /// The function that an `FNDA` record counts.
    pub fn from_data(record: &FunctionData) -> (function: Self)
        ensures
            function == counted(*record),
    {
        Function { name: record.name.clone(), line_number: 0, execution_count: record.count }
    }

    pub fn name(&self) -> (name: &String)
        ensures
            *name == self.name,
    {
        &self.name
    }

    pub fn line_number(&self) -> (n: &LineNumber)
        ensures
            *n == self.line_number,
    {
        &self.line_number
    }

    pub fn execution_count(&self) -> (n: &ExecutionCount)
        ensures
            *n == self.execution_count,
    {
        &self.execution_count
    }

    /// The declaration as a function error names it.
    pub fn to_declaration(&self) -> (d: FunctionName)
        ensures
            d == (FunctionName { name: self.name, line: self.line_number }),
    {
        FunctionName { name: self.name.clone(), line: self.line_number }
    }
}

impl<'a> From<&'a FunctionName> for Function {
    fn from(function_name: &'a FunctionName) -> (r: Self) {
        Function::from_name(function_name)
    }
}

impl<'a> vstd::std_specs::convert::FromSpecImpl<&'a FunctionName> for Function {
    open spec fn obeys_from_spec() -> bool {
        true
    }

    open spec fn from_spec(function_name: &'a FunctionName) -> Self {
        declared(*function_name)
    }
}

impl<'a> From<&'a FunctionData> for Function {
    fn from(function_data: &'a FunctionData) -> (r: Self) {
        Function::from_data(function_data)
    }
}

impl<'a> vstd::std_specs::convert::FromSpecImpl<&'a FunctionData> for Function {
    open spec fn obeys_from_spec() -> bool {
        true
    }

    open spec fn from_spec(function_data: &'a FunctionData) -> Self {
        counted(*function_data)
    }
}

impl Hit for Function {
    open spec fn hit(&self) -> bool {
        self.execution_count > 0
    }

    fn is_hit(&self) -> (hit: bool) {
        self.execution_count > 0
    }
}

/// Two functions are the same where name and line of declaration are.
impl PartialEq for Function {
    fn eq(&self, other: &Self) -> (r: bool) {
        same_text(&self.name, &other.name) && self.line_number == other.line_number
    }
}

impl vstd::std_specs::cmp::PartialEqSpecImpl for Function {
    open spec fn obeys_eq_spec() -> bool {
        true
    }

    open spec fn eq_spec(&self, other: &Self) -> bool {
        self.name@ == other.name@ && self.line_number == other.line_number
    }
}

impl Aggregate for Function {
    type Model = FunctionModel;

    type Error = FunctionError;

    open spec fn inv(&self) -> bool {
        true
    }

    /// A function is kept under its name.
    open spec fn labelled(&self, label: Label) -> bool {
        label == Label::Name(self.name@)
    }

    open spec fn model(&self) -> FunctionModel {
        FunctionModel { line: self.line_number, count: self.execution_count as nat }
    }

    /// Two functions disagree only where both were declared, at different lines.
    open spec fn compatible(a: FunctionModel, b: FunctionModel) -> bool {
        a.line != 0 && b.line != 0 ==> a.line == b.line
    }

    /// The counts add up; a declaration that either side has is kept.
    open spec fn merged(a: FunctionModel, b: FunctionModel) -> FunctionModel {
        FunctionModel {
            line: if a.line != 0 {
                a.line
            } else {
                b.line
            },
            count: a.count + b.count,
        }
    }

    open spec fn fits(m: FunctionModel) -> bool {
        m.count <= u32::MAX
    }

    open spec fn conflict(&self, other: &Self) -> Option<FunctionError> {
        if self.line_number != 0 && other.line_number != 0 && self.line_number
            != other.line_number {
            Some(
                FunctionError::Mismatch(
                    FunctionName { name: self.name, line: self.line_number },
                    FunctionName { name: other.name, line: other.line_number },
                ),
            )
        } else {
            None
        }
    }

    proof fn lemma_conflict(&self, other: &Self) {
    }

    proof fn lemma_fits(&self) {
    }

    proof fn law_commutative(a: FunctionModel, b: FunctionModel) {
    }

    proof fn law_associative(a: FunctionModel, b: FunctionModel, c: FunctionModel) {
    }

    fn check(&self, other: &Self) -> (r: Option<Refusal<FunctionError>>) {
        if self.line_number != 0 && other.line_number != 0 && self.line_number
            != other.line_number {
            Some(
                Refusal::Conflict(
                    FunctionError::Mismatch(self.to_declaration(), other.to_declaration()),
                ),
            )
        } else if other.execution_count > u32::MAX - self.execution_count {
            Some(Refusal::Overflow)
        } else {
            None
        }
    }

    fn absorb(&mut self, other: &Self) {
        self.execution_count = self.execution_count + other.execution_count;
        if self.line_number == 0 {
            self.line_number = other.line_number;
        }
    }

    proof fn lemma_cloned(&self, copy: &Self) {
    }
}

impl Clone for Function {
    fn clone(&self) -> (r: Self)
        ensures
            r == *self,
    {
        Function {
            name: self.name.clone(),
            line_number: self.line_number,
            execution_count: self.execution_count,
        }
    }
}

/// The functions of a source file, by name.
pub type Functions = AggregateResult<String, Function>;

impl<'a> TryMerge<&'a FunctionName> for Functions {
    type Err = FunctionError;

    open spec fn try_merge_accepts(rhs: &'a FunctionName) -> bool {
        true
    }

    /// An `FN` record is refused where the function is held already with a
    /// declaration at another line.
    open spec fn merge_refusal(&self, rhs: &'a FunctionName) -> Option<Refusal<FunctionError>> {
        entry_refusal(self@, rhs.name@, &declared(*rhs))
    }

    open spec fn try_merged_with(&self, rhs: &'a FunctionName) -> Map<Seq<char>, FunctionModel> {
        entry_merged::<Seq<char>, Function>(self.model(), rhs.name@, declared(*rhs).model())
    }

    fn try_merge_checked(&mut self, rhs: &'a FunctionName) -> (r: Result<
        (),
        Refusal<FunctionError>,
    >) {
        self.merge_entry(&rhs.name, Function::from_name(rhs))
    }

    fn try_merge(&mut self, rhs: &'a FunctionName) -> (r: MergeResult<FunctionError>) {
        match self.merge_entry(&rhs.name, Function::from_name(rhs)) {
            Err(Refusal::Conflict(e)) => Err(e),
            _ => Ok(()),
        }
    }
}

impl<'a> TryMerge<&'a FunctionData> for Functions {
    type Err = FunctionError;

    open spec fn try_merge_accepts(rhs: &'a FunctionData) -> bool {
        true
    }

    /// An `FNDA` record is refused only where the summed count would leave `u32`.
    open spec fn merge_refusal(&self, rhs: &'a FunctionData) -> Option<Refusal<FunctionError>> {
        entry_refusal(self@, rhs.name@, &counted(*rhs))
    }

    open spec fn try_merged_with(&self, rhs: &'a FunctionData) -> Map<Seq<char>, FunctionModel> {
        entry_merged::<Seq<char>, Function>(self.model(), rhs.name@, counted(*rhs).model())
    }

    fn try_merge_checked(&mut self, rhs: &'a FunctionData) -> (r: Result<
        (),
        Refusal<FunctionError>,
    >) {
        self.merge_entry(&rhs.name, Function::from_data(rhs))
    }

    fn try_merge(&mut self, rhs: &'a FunctionData) -> (r: MergeResult<FunctionError>) {
        match self.merge_entry(&rhs.name, Function::from_data(rhs)) {
            Err(Refusal::Conflict(e)) => Err(e),
            _ => Ok(()),
        }
    }
}

} // verus!
