//! The coverage that one named test gave of one source file.

use crate::aggregate::entry_merged;
use crate::aggregate::lemma_empty;
use crate::aggregate::lemma_single;
use crate::aggregate::refusal;
use crate::aggregate::Aggregate;
use crate::aggregate::Refusal;
use crate::attribute::LineNumber;
use crate::attribute::TestName;
use crate::branch::lemma_branches_agree;
use crate::branch::single_unit;
use crate::branch::unit_of;
use crate::branch::BranchBlocks;
use crate::branch::BranchUnit;
use crate::branch::Branches;
use crate::function::counted;
use crate::function::declared;
use crate::function::Function;
use crate::function::FunctionModel;
use crate::function::Functions;
use crate::key::Label;
use crate::line::line_of;
use crate::line::Line;
use crate::line::LineModel;
use crate::line::Lines;
use crate::merge::ChecksumError;
use crate::merge::FunctionError;
use crate::merge::Merge;
use crate::merge::MergeResult;
use crate::merge::TestError;
use crate::merge::TryMerge;
use crate::record::BranchData;
use crate::record::FunctionData;
use crate::record::FunctionName;
use crate::record::LineData;
use crate::summary::lemma_entry_at;
use crate::summary::position;
use crate::summary::AggregateResult;
use vstd::prelude::*;

verus! {

/// The lines, functions and branches that one test covered in one source file.
#[derive(Debug)]
pub struct Test {
    pub lines: Lines,
    pub functions: Functions,
    pub branches: Branches,
}

/// The coverage of a source file summed over its tests has the shape of one test.
pub type TestSum = Test;

/// What a test holds.
pub struct TestModel {
    pub lines: Map<LineNumber, LineModel>,
    pub functions: Map<Seq<char>, FunctionModel>,
    pub branches: Map<LineNumber, Map<BranchUnit, nat>>,
}

/// The content of a test that covered nothing.
pub open spec fn empty_test() -> TestModel {
    TestModel { lines: Map::empty(), functions: Map::empty(), branches: Map::empty() }
}

/// A disagreement of lines as a disagreement of tests.
pub open spec fn in_lines(r: Option<Refusal<ChecksumError>>) -> Option<Refusal<TestError>> {
    match r {
        Some(Refusal::Conflict(e)) => Some(Refusal::Conflict(TestError::Checksum(e))),
        Some(Refusal::Overflow) => Some(Refusal::Overflow),
        None => None,
    }
}

/// A disagreement of functions as a disagreement of tests.
pub open spec fn in_functions(r: Option<Refusal<FunctionError>>) -> Option<Refusal<TestError>> {
    match r {
        Some(Refusal::Conflict(e)) => Some(Refusal::Conflict(TestError::Function(e))),
        Some(Refusal::Overflow) => Some(Refusal::Overflow),
        None => None,
    }
}

impl Test {
    pub fn new() -> (test: Self)
        ensures
            test.inv(),
            test.model() == empty_test(),
            test.lines.entries().len() == 0,
            test.functions.entries().len() == 0,
            test.branches.entries().len() == 0,
    {
        let test = Test { lines: Lines::new(), functions: Functions::new(), branches: Branches::new() };
        proof {
            assert(test.lines.model() =~= Map::empty());
            assert(test.functions.model() =~= Map::empty());
            assert(test.branches.model() =~= Map::empty());
        }
        test
    }

    pub fn lines(&self) -> (lines: &Lines)
        ensures
            *lines == self.lines,
    {
        &self.lines
    }

    pub fn functions(&self) -> (functions: &Functions)
        ensures
            *functions == self.functions,
    {
        &self.functions
    }

    pub fn branches(&self) -> (branches: &Branches)
        ensures
            *branches == self.branches,
    {
        &self.branches
    }

    /// The branches of a line, if the test covered any.
    pub fn get_branch_count(&self, line_number: &u32) -> (r: Option<&BranchBlocks>)
        requires
            self.inv(),
        ensures
            match r {
                Some(blocks) => self.branches@.contains_key(*line_number) && *blocks
                    == self.branches@[*line_number],
                None => !self.branches@.contains_key(*line_number),
            },
    {
        self.branches.get(line_number)
    }

    /// How often a line ran, if the test covered it.
    pub fn get_line_count(&self, line_number: &u32) -> (r: Option<&u32>)
        requires
            self.inv(),
        ensures
            match r {
                Some(count) => self.lines@.contains_key(*line_number) && *count
                    == self.lines@[*line_number].execution_count,
                None => !self.lines@.contains_key(*line_number),
            },
    {
        match self.lines.get(line_number) {
            Some(line) => Some(&line.execution_count),
            None => None,
        }
    }

    /// How often a function ran, if the test covered it.
    pub fn get_func_count(&self, func_name: &String) -> (r: Option<&u32>)
        requires
            self.inv(),
        ensures
            match r {
                Some(count) => self.functions@.contains_key(func_name@) && *count
                    == self.functions@[func_name@].execution_count,
                None => !self.functions@.contains_key(func_name@),
            },
    {
        match self.functions.get(func_name) {
            Some(function) => Some(&function.execution_count),
            None => None,
        }
    }

    /// The test that covered the one line of a `DA` record.
    pub fn of_line(data: &LineData) -> (test: Self)
        ensures
            test.inv(),
            test.lines.wf(),
            test.lines.entries() == seq![(data.line, line_of(*data))],
            test.functions.entries().len() == 0,
            test.branches.entries().len() == 0,
    {
        let mut test = Test::new();
        test.lines = Lines::single(data.line, Line::from_data(data));
        test
    }

    /// The test that saw the one declaration of an `FN` record.
    pub fn of_function_name(record: &FunctionName) -> (test: Self)
        ensures
            test.inv(),
            test.functions.wf(),
            test.functions.entries() == seq![(record.name, declared(*record))],
            test.lines.entries().len() == 0,
            test.branches.entries().len() == 0,
    {
        let mut test = Test::new();
        test.functions = Functions::single(record.name.clone(), Function::from_name(record));
        test
    }

    /// The test that saw the one count of an `FNDA` record.
    pub fn of_function_data(record: &FunctionData) -> (test: Self)
        ensures
            test.inv(),
            test.functions.wf(),
            test.functions.entries() == seq![(record.name, counted(*record))],
            test.lines.entries().len() == 0,
            test.branches.entries().len() == 0,
    {
        let mut test = Test::new();
        test.functions = Functions::single(record.name.clone(), Function::from_data(record));
        test
    }

    /// The test that took the one branch of a `BRDA` record.
    pub fn of_branch(data: &BranchData) -> (test: Self)
        ensures
            test.inv(),
            test.branches.wf(),
            test.branches.entries().len() == 1,
            test.branches.entries()[0].0 == data.line,
            test.branches.entries()[0].1.wf(),
            test.branches.entries()[0].1.entries() == seq![(unit_of(*data), data.taken)],
            test.lines.entries().len() == 0,
            test.functions.entries().len() == 0,
    {
        let mut test = Test::new();
        let unit = BranchUnit::new(data.block, data.branch);
        test.branches = Branches::single(data.line, BranchBlocks::single(unit, data.taken));
        test
    }
}

/// A clone holds clones of the lines, the functions and the branches.
impl Clone for Test {
    fn clone(&self) -> (r: Self)
        ensures
            cloned::<Lines>(self.lines, r.lines),
            cloned::<Functions>(self.functions, r.functions),
            cloned::<Branches>(self.branches, r.branches),
    {
        Test {
            lines: self.lines.clone(),
            functions: self.functions.clone(),
            branches: self.branches.clone(),
        }
    }
}

impl Default for Test {
    fn default() -> (test: Self)
        ensures
            test.inv(),
            test.model() == empty_test(),
    {
        Test::new()
    }
}

impl Aggregate for Test {
    type Model = TestModel;

    type Error = TestError;

    open spec fn inv(&self) -> bool {
        self.lines.inv() && self.functions.inv() && self.branches.inv()
    }

    open spec fn labelled(&self, label: Label) -> bool {
        true
    }

    open spec fn model(&self) -> TestModel {
        TestModel {
            lines: self.lines.model(),
            functions: self.functions.model(),
            branches: self.branches.model(),
        }
    }

    open spec fn compatible(a: TestModel, b: TestModel) -> bool {
        &&& Lines::compatible(a.lines, b.lines)
        &&& Functions::compatible(a.functions, b.functions)
        &&& Branches::compatible(a.branches, b.branches)
    }

    open spec fn merged(a: TestModel, b: TestModel) -> TestModel {
        TestModel {
            lines: Lines::merged(a.lines, b.lines),
            functions: Functions::merged(a.functions, b.functions),
            branches: Branches::merged(a.branches, b.branches),
        }
    }

    open spec fn fits(m: TestModel) -> bool {
        Lines::fits(m.lines) && Functions::fits(m.functions) && Branches::fits(m.branches)
    }

    /// The lines are looked at first, then the functions; branches never disagree.
    open spec fn conflict(&self, other: &Self) -> Option<TestError> {
        match self.lines.conflict(&other.lines) {
            Some(e) => Some(TestError::Checksum(e)),
            None => match self.functions.conflict(&other.functions) {
                Some(e) => Some(TestError::Function(e)),
                None => None,
            },
        }
    }

    proof fn lemma_conflict(&self, other: &Self) {
        self.lines.lemma_conflict(&other.lines);
        self.functions.lemma_conflict(&other.functions);
        self.branches.lemma_conflict(&other.branches);
        lemma_branches_agree(&self.branches, &other.branches);
    }

    proof fn lemma_fits(&self) {
        self.lines.lemma_fits();
        self.functions.lemma_fits();
        self.branches.lemma_fits();
    }

    proof fn law_commutative(a: TestModel, b: TestModel) {
        Lines::law_commutative(a.lines, b.lines);
        Functions::law_commutative(a.functions, b.functions);
        Branches::law_commutative(a.branches, b.branches);
    }

    proof fn law_associative(a: TestModel, b: TestModel, c: TestModel) {
        Lines::law_associative(a.lines, b.lines, c.lines);
        Functions::law_associative(a.functions, b.functions, c.functions);
        Branches::law_associative(a.branches, b.branches, c.branches);
    }

    fn check(&self, other: &Self) -> (r: Option<Refusal<TestError>>) {
        let lines = self.lines.check(&other.lines);
        if let Some(Refusal::Conflict(e)) = lines {
            return Some(Refusal::Conflict(TestError::Checksum(e)));
        }
        let functions = self.functions.check(&other.functions);
        if let Some(Refusal::Conflict(e)) = functions {
            return Some(Refusal::Conflict(TestError::Function(e)));
        }
        let branches = self.branches.check(&other.branches);
        proof {
            lemma_branches_agree(&self.branches, &other.branches);
        }
        if lines.is_some() || functions.is_some() || branches.is_some() {
            Some(Refusal::Overflow)
        } else {
            None
        }
    }

    fn absorb(&mut self, other: &Self) {
        proof {
            lemma_branches_agree(&self.branches, &other.branches);
        }
        self.lines.absorb(&other.lines);
        self.functions.absorb(&other.functions);
        self.branches.absorb(&other.branches);
    }

    proof fn lemma_cloned(&self, copy: &Self) {
        self.lines.lemma_cloned(&copy.lines);
        self.functions.lemma_cloned(&copy.functions);
        self.branches.lemma_cloned(&copy.branches);
    }
}

impl<'a> TryMerge<&'a LineData> for Test {
    type Err = ChecksumError;

    open spec fn try_merge_accepts(rhs: &'a LineData) -> bool {
        true
    }

    open spec fn merge_refusal(&self, rhs: &'a LineData) -> Option<Refusal<ChecksumError>> {
        self.lines.merge_refusal(rhs)
    }

    /// The record goes to the lines; functions and branches stay.
    open spec fn try_merged_with(&self, rhs: &'a LineData) -> TestModel {
        TestModel { lines: self.lines.try_merged_with(rhs), ..self.model() }
    }

    fn try_merge_checked(&mut self, rhs: &'a LineData) -> (r: Result<(), Refusal<ChecksumError>>) {
        self.lines.try_merge_checked(rhs)
    }

    fn try_merge(&mut self, rhs: &'a LineData) -> (r: MergeResult<ChecksumError>) {
        self.lines.try_merge(rhs)
    }
}

impl<'a> TryMerge<&'a FunctionName> for Test {
    type Err = FunctionError;

    open spec fn try_merge_accepts(rhs: &'a FunctionName) -> bool {
        true
    }

    open spec fn merge_refusal(&self, rhs: &'a FunctionName) -> Option<Refusal<FunctionError>> {
        self.functions.merge_refusal(rhs)
    }

    /// The record goes to the functions; lines and branches stay.
    open spec fn try_merged_with(&self, rhs: &'a FunctionName) -> TestModel {
        TestModel { functions: self.functions.try_merged_with(rhs), ..self.model() }
    }

    fn try_merge_checked(&mut self, rhs: &'a FunctionName) -> (r: Result<
        (),
        Refusal<FunctionError>,
    >) {
        self.functions.try_merge_checked(rhs)
    }

    fn try_merge(&mut self, rhs: &'a FunctionName) -> (r: MergeResult<FunctionError>) {
        self.functions.try_merge(rhs)
    }
}

impl<'a> TryMerge<&'a FunctionData> for Test {
    type Err = FunctionError;

    open spec fn try_merge_accepts(rhs: &'a FunctionData) -> bool {
        true
    }

    open spec fn merge_refusal(&self, rhs: &'a FunctionData) -> Option<Refusal<FunctionError>> {
        self.functions.merge_refusal(rhs)
    }

    /// The record goes to the functions; lines and branches stay.
    open spec fn try_merged_with(&self, rhs: &'a FunctionData) -> TestModel {
        TestModel { functions: self.functions.try_merged_with(rhs), ..self.model() }
    }

    fn try_merge_checked(&mut self, rhs: &'a FunctionData) -> (r: Result<
        (),
        Refusal<FunctionError>,
    >) {
        self.functions.try_merge_checked(rhs)
    }

    fn try_merge(&mut self, rhs: &'a FunctionData) -> (r: MergeResult<FunctionError>) {
        self.functions.try_merge(rhs)
    }
}

impl<'a> Merge<&'a BranchData> for Test {
    open spec fn merge_accepts(rhs: &'a BranchData) -> bool {
        true
    }

    open spec fn merge_fits(&self, rhs: &'a BranchData) -> bool {
        self.branches.merge_fits(rhs)
    }

    /// The record goes to the branches; lines and functions stay.
    open spec fn merged_with(&self, rhs: &'a BranchData) -> TestModel {
        TestModel { branches: self.branches.merged_with(rhs), ..self.model() }
    }

    fn merge_checked(&mut self, rhs: &'a BranchData) -> (done: bool) {
        self.branches.merge_checked(rhs)
    }

    fn merge(&mut self, rhs: &'a BranchData) {
        self.branches.merge(rhs)
    }
}

/// The content of the test that covered the one line of a `DA` record.
pub open spec fn single_line(data: LineData) -> TestModel {
    TestModel {
        lines: Map::<LineNumber, LineModel>::empty().insert(data.line, line_of(data).model()),
        ..empty_test()
    }
}

/// The content of the test that saw the one declaration of an `FN` record.
pub open spec fn single_declaration(record: FunctionName) -> TestModel {
    TestModel {
        functions: Map::<Seq<char>, FunctionModel>::empty().insert(
            record.name@,
            declared(record).model(),
        ),
        ..empty_test()
    }
}

/// The content of the test that saw the one count of an `FNDA` record.
pub open spec fn single_count(record: FunctionData) -> TestModel {
    TestModel {
        functions: Map::<Seq<char>, FunctionModel>::empty().insert(
            record.name@,
            counted(record).model(),
        ),
        ..empty_test()
    }
}

/// The content of the test that took the one branch of a `BRDA` record.
pub open spec fn single_branch(data: BranchData) -> TestModel {
    TestModel {
        branches: Map::<LineNumber, Map<BranchUnit, nat>>::empty().insert(
            data.line,
            single_unit(data),
        ),
        ..empty_test()
    }
}

/// Merging the test of one `DA` record is merging the record.
pub proof fn lemma_of_line(t: &Test, s: &Test, data: LineData)
    requires
        t.inv(),
        s.lines.wf(),
        s.lines.entries() == seq![(data.line, line_of(data))],
        s.functions.entries().len() == 0,
        s.branches.entries().len() == 0,
    ensures
        s.inv(),
        s.model() == single_line(data),
        refusal(t, s) == in_lines(t.merge_refusal(&data)),
        Test::merged(t.model(), s.model()) == t.try_merged_with(&data),
{
    lemma_single(&t.lines, &s.lines, data.line, line_of(data));
    lemma_empty(&t.functions, &s.functions);
    lemma_empty(&t.branches, &s.branches);
}

/// Merging the test of one `FN` record is merging the record.
pub proof fn lemma_of_function_name(t: &Test, s: &Test, record: FunctionName)
    requires
        t.inv(),
        s.functions.wf(),
        s.functions.entries() == seq![(record.name, declared(record))],
        s.lines.entries().len() == 0,
        s.branches.entries().len() == 0,
    ensures
        s.inv(),
        s.model() == single_declaration(record),
        refusal(t, s) == in_functions(t.merge_refusal(&record)),
        Test::merged(t.model(), s.model()) == t.try_merged_with(&record),
{
    lemma_single(&t.functions, &s.functions, record.name, declared(record));
    lemma_empty(&t.lines, &s.lines);
    lemma_empty(&t.branches, &s.branches);
}

/// Merging the test of one `FNDA` record is merging the record.
pub proof fn lemma_of_function_data(t: &Test, s: &Test, record: FunctionData)
    requires
        t.inv(),
        s.functions.wf(),
        s.functions.entries() == seq![(record.name, counted(record))],
        s.lines.entries().len() == 0,
        s.branches.entries().len() == 0,
    ensures
        s.inv(),
        s.model() == single_count(record),
        refusal(t, s) == in_functions(t.merge_refusal(&record)),
        Test::merged(t.model(), s.model()) == t.try_merged_with(&record),
{
    lemma_single(&t.functions, &s.functions, record.name, counted(record));
    lemma_empty(&t.lines, &s.lines);
    lemma_empty(&t.branches, &s.branches);
}

/// Merging the test of one `BRDA` record is merging the record.
pub proof fn lemma_of_branch(t: &Test, s: &Test, data: BranchData)
    requires
        t.inv(),
        s.branches.wf(),
        s.branches.entries().len() == 1,
        s.branches.entries()[0].0 == data.line,
        s.branches.entries()[0].1.wf(),
        s.branches.entries()[0].1.entries() == seq![(unit_of(data), data.taken)],
        s.lines.entries().len() == 0,
        s.functions.entries().len() == 0,
    ensures
        s.inv(),
        s.model() == single_branch(data),
        refusal(t, s) is None <==> t.merge_fits(&data),
        !(refusal(t, s) matches Some(Refusal::Conflict(_))),
        Test::merged(t.model(), s.model()) == t.merged_with(&data),
{
    let blocks = s.branches.entries()[0].1;
    assert(s.branches.entries() =~= seq![(data.line, blocks)]);
    lemma_single(&blocks, &blocks, unit_of(data), data.taken);
    lemma_single(&t.branches, &s.branches, data.line, blocks);
    if t.branches@.contains_key(data.line) {
        let j = position(t.branches.entries(), data.line);
        lemma_entry_at(t.branches.entries(), j);
        lemma_single(&t.branches@[data.line], &blocks, unit_of(data), data.taken);
    }
    lemma_branches_agree(&t.branches, &s.branches);
    lemma_empty(&t.lines, &s.lines);
    lemma_empty(&t.functions, &s.functions);
}

/// The tests that covered a source file, by name.
pub type Tests = AggregateResult<TestName, Test>;

/// A test is opened under its name; one that is there already stays as it is.
impl<'a> Merge<&'a TestName> for Tests {
    open spec fn merge_accepts(rhs: &'a TestName) -> bool {
        true
    }

    open spec fn merge_fits(&self, rhs: &'a TestName) -> bool {
        true
    }

    open spec fn merged_with(&self, rhs: &'a TestName) -> Map<Seq<char>, TestModel> {
        if self.model().contains_key(rhs@) {
            self.model()
        } else {
            self.model().insert(rhs@, empty_test())
        }
    }

    fn merge_checked(&mut self, rhs: &'a TestName) -> (done: bool) {
        self.merge(rhs);
        true
    }

    fn merge(&mut self, rhs: &'a TestName) {
        let (found, at) = self.locate(rhs);
        if !found {
            let ghost before = self@;
            let ghost before_entries = self.entries();
            self.insert_at(at, rhs.clone(), Test::new());
            proof {
                assert(self.model() =~= crate::aggregate::map_model::<Seq<char>, Test>(
                    before,
                ).insert(rhs@, empty_test()));
                assert forall|j: int| 0 <= j < self.entries().len() implies (
                #[trigger] self.entries()[j]).1.inv() by {
                    if j < at {
                        assert(self.entries()[j] == before_entries[j]);
                    } else if j > at {
                        assert(self.entries()[j] == before_entries[j - 1]);
                    }
                }
            }
        }
    }
}

/// What the tests hold under `name`, in a state that is well formed.
pub proof fn lemma_test_at(tests: &Tests, name: Seq<char>)
    requires
        tests.inv(),
        tests@.contains_key(name),
    ensures
        tests@[name].inv(),
        tests.model().contains_key(name),
        tests.model()[name] == tests@[name].model(),
{
    let j = position(tests.entries(), name);
    lemma_entry_at(tests.entries(), j);
}

impl<'a> TryMerge<(&'a String, &'a LineData)> for Tests {
    type Err = ChecksumError;

    open spec fn try_merge_accepts(rhs: (&'a String, &'a LineData)) -> bool {
        true
    }

    /// A `DA` record is refused where the test is there and refuses it.
    open spec fn merge_refusal(&self, rhs: (&'a String, &'a LineData)) -> Option<
        Refusal<ChecksumError>,
    > {
        if self@.contains_key(rhs.0@) {
            self@[rhs.0@].merge_refusal(rhs.1)
        } else {
            None
        }
    }

    /// The test of the one record is merged into the test of that name; a new
    /// test starts as it.
    open spec fn try_merged_with(&self, rhs: (&'a String, &'a LineData)) -> Map<
        Seq<char>,
        TestModel,
    > {
        entry_merged::<Seq<char>, Test>(self.model(), rhs.0@, single_line(*rhs.1))
    }

    fn try_merge_checked(&mut self, rhs: (&'a String, &'a LineData)) -> (r: Result<
        (),
        Refusal<ChecksumError>,
    >) {
        let single = Test::of_line(rhs.1);
        proof {
            if self@.contains_key(rhs.0@) {
                lemma_test_at(self, rhs.0@);
                lemma_of_line(&self@[rhs.0@], &single, *rhs.1);
            } else {
                lemma_of_line(&single, &single, *rhs.1);
            }
        }
        match self.merge_entry(rhs.0, single) {
            Ok(()) => Ok(()),
            Err(Refusal::Conflict(TestError::Checksum(e))) => Err(Refusal::Conflict(e)),
            Err(_) => Err(Refusal::Overflow),
        }
    }

    fn try_merge(&mut self, rhs: (&'a String, &'a LineData)) -> (r: MergeResult<ChecksumError>) {
        let single = Test::of_line(rhs.1);
        proof {
            if self@.contains_key(rhs.0@) {
                lemma_test_at(self, rhs.0@);
                lemma_of_line(&self@[rhs.0@], &single, *rhs.1);
            } else {
                lemma_of_line(&single, &single, *rhs.1);
            }
        }
        match self.merge_entry(rhs.0, single) {
            Err(Refusal::Conflict(TestError::Checksum(e))) => Err(e),
            _ => Ok(()),
        }
    }
}

impl<'a> TryMerge<(&'a String, &'a FunctionName)> for Tests {
    type Err = FunctionError;

    open spec fn try_merge_accepts(rhs: (&'a String, &'a FunctionName)) -> bool {
        true
    }

    /// An `FN` record is refused where the test is there and refuses it.
    open spec fn merge_refusal(&self, rhs: (&'a String, &'a FunctionName)) -> Option<
        Refusal<FunctionError>,
    > {
        if self@.contains_key(rhs.0@) {
            self@[rhs.0@].merge_refusal(rhs.1)
        } else {
            None
        }
    }

    /// The test of the one record is merged into the test of that name; a new
    /// test starts as it.
    open spec fn try_merged_with(&self, rhs: (&'a String, &'a FunctionName)) -> Map<
        Seq<char>,
        TestModel,
    > {
        entry_merged::<Seq<char>, Test>(self.model(), rhs.0@, single_declaration(*rhs.1))
    }

    fn try_merge_checked(&mut self, rhs: (&'a String, &'a FunctionName)) -> (r: Result<
        (),
        Refusal<FunctionError>,
    >) {
        let single = Test::of_function_name(rhs.1);
        proof {
            if self@.contains_key(rhs.0@) {
                lemma_test_at(self, rhs.0@);
                lemma_of_function_name(&self@[rhs.0@], &single, *rhs.1);
            } else {
                lemma_of_function_name(&single, &single, *rhs.1);
            }
        }
        match self.merge_entry(rhs.0, single) {
            Ok(()) => Ok(()),
            Err(Refusal::Conflict(TestError::Function(e))) => Err(Refusal::Conflict(e)),
            Err(_) => Err(Refusal::Overflow),
        }
    }

    fn try_merge(&mut self, rhs: (&'a String, &'a FunctionName)) -> (r: MergeResult<
        FunctionError,
    >) {
        let single = Test::of_function_name(rhs.1);
        proof {
            if self@.contains_key(rhs.0@) {
                lemma_test_at(self, rhs.0@);
                lemma_of_function_name(&self@[rhs.0@], &single, *rhs.1);
            } else {
                lemma_of_function_name(&single, &single, *rhs.1);
            }
        }
        match self.merge_entry(rhs.0, single) {
            Err(Refusal::Conflict(TestError::Function(e))) => Err(e),
            _ => Ok(()),
        }
    }
}

impl<'a> TryMerge<(&'a String, &'a FunctionData)> for Tests {
    type Err = FunctionError;

    open spec fn try_merge_accepts(rhs: (&'a String, &'a FunctionData)) -> bool {
        true
    }

    /// An `FNDA` record is refused where the test is there and refuses it.
    open spec fn merge_refusal(&self, rhs: (&'a String, &'a FunctionData)) -> Option<
        Refusal<FunctionError>,
    > {
        if self@.contains_key(rhs.0@) {
            self@[rhs.0@].merge_refusal(rhs.1)
        } else {
            None
        }
    }

    /// The test of the one record is merged into the test of that name; a new
    /// test starts as it.
    open spec fn try_merged_with(&self, rhs: (&'a String, &'a FunctionData)) -> Map<
        Seq<char>,
        TestModel,
    > {
        entry_merged::<Seq<char>, Test>(self.model(), rhs.0@, single_count(*rhs.1))
    }

    fn try_merge_checked(&mut self, rhs: (&'a String, &'a FunctionData)) -> (r: Result<
        (),
        Refusal<FunctionError>,
    >) {
        let single = Test::of_function_data(rhs.1);
        proof {
            if self@.contains_key(rhs.0@) {
                lemma_test_at(self, rhs.0@);
                lemma_of_function_data(&self@[rhs.0@], &single, *rhs.1);
            } else {
                lemma_of_function_data(&single, &single, *rhs.1);
            }
        }
        match self.merge_entry(rhs.0, single) {
            Ok(()) => Ok(()),
            Err(Refusal::Conflict(TestError::Function(e))) => Err(Refusal::Conflict(e)),
            Err(_) => Err(Refusal::Overflow),
        }
    }

    fn try_merge(&mut self, rhs: (&'a String, &'a FunctionData)) -> (r: MergeResult<
        FunctionError,
    >) {
        let single = Test::of_function_data(rhs.1);
        proof {
            if self@.contains_key(rhs.0@) {
                lemma_test_at(self, rhs.0@);
                lemma_of_function_data(&self@[rhs.0@], &single, *rhs.1);
            } else {
                lemma_of_function_data(&single, &single, *rhs.1);
            }
        }
        match self.merge_entry(rhs.0, single) {
            Err(Refusal::Conflict(TestError::Function(e))) => Err(e),
            _ => Ok(()),
        }
    }
}

impl<'a> Merge<(&'a String, &'a BranchData)> for Tests {
    open spec fn merge_accepts(rhs: (&'a String, &'a BranchData)) -> bool {
        true
    }

    /// A `BRDA` record fits where the test is new or the record fits it.
    open spec fn merge_fits(&self, rhs: (&'a String, &'a BranchData)) -> bool {
        self@.contains_key(rhs.0@) ==> self@[rhs.0@].merge_fits(rhs.1)
    }

    /// The test of the one record is merged into the test of that name; a new
    /// test starts as it.
    open spec fn merged_with(&self, rhs: (&'a String, &'a BranchData)) -> Map<
        Seq<char>,
        TestModel,
    > {
        entry_merged::<Seq<char>, Test>(self.model(), rhs.0@, single_branch(*rhs.1))
    }

    fn merge_checked(&mut self, rhs: (&'a String, &'a BranchData)) -> (done: bool) {
        let single = Test::of_branch(rhs.1);
        proof {
            if self@.contains_key(rhs.0@) {
                lemma_test_at(self, rhs.0@);
                lemma_of_branch(&self@[rhs.0@], &single, *rhs.1);
            } else {
                lemma_of_branch(&single, &single, *rhs.1);
            }
        }
        self.merge_entry(rhs.0, single).is_ok()
    }

    fn merge(&mut self, rhs: (&'a String, &'a BranchData)) {
        let _ = self.merge_checked(rhs);
    }
}

} // verus!
