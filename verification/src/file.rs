//! The coverage of one source file, test by test.

use crate::aggregate::entry_merged;
use crate::aggregate::entry_refusal;
use crate::aggregate::Aggregate;
use crate::aggregate::Refusal;
use crate::attribute::SourceFile;
use crate::key::Label;
use crate::merge::MergeResult;
use crate::merge::TestError;
use crate::merge::TryMerge;
use crate::summary::AggregateResult;
use crate::test::Test;
use crate::test::TestModel;
use crate::test::Tests;
use vstd::prelude::*;

verus! {

/// The tests that covered one source file.
#[derive(Debug)]
pub struct File {
    pub tests: Tests,
}

impl File {
    pub fn new(tests: Tests) -> (file: Self)
        ensures
            file.tests == tests,
    {
        File { tests }
    }

    pub fn tests(&self) -> (tests: &Tests)
        ensures
            *tests == self.tests,
    {
        &self.tests
    }

    /// The test of that name, if it covered the file.
    pub fn get_test(&self, name: &String) -> (r: Option<&Test>)
        requires
            self.inv(),
        ensures
            match r {
                Some(test) => self.tests@.contains_key(name@) && *test == self.tests@[name@],
                None => !self.tests@.contains_key(name@),
            },
    {
        self.tests.get(name)
    }
}

/// A clone holds a clone of the tests.
impl Clone for File {
    fn clone(&self) -> (r: Self)
        ensures
            cloned::<Tests>(self.tests, r.tests),
    {
        File { tests: self.tests.clone() }
    }
}

/// A file merges as its tests do.
impl Aggregate for File {
    type Model = Map<Seq<char>, TestModel>;

    type Error = TestError;

    open spec fn inv(&self) -> bool {
        self.tests.inv()
    }

    open spec fn labelled(&self, label: Label) -> bool {
        true
    }

    open spec fn model(&self) -> Map<Seq<char>, TestModel> {
        self.tests.model()
    }

    open spec fn compatible(a: Map<Seq<char>, TestModel>, b: Map<Seq<char>, TestModel>) -> bool {
        Tests::compatible(a, b)
    }

    open spec fn merged(a: Map<Seq<char>, TestModel>, b: Map<Seq<char>, TestModel>) -> Map<
        Seq<char>,
        TestModel,
    > {
        Tests::merged(a, b)
    }

    open spec fn fits(m: Map<Seq<char>, TestModel>) -> bool {
        Tests::fits(m)
    }

    open spec fn conflict(&self, other: &Self) -> Option<TestError> {
        self.tests.conflict(&other.tests)
    }

    proof fn lemma_conflict(&self, other: &Self) {
        self.tests.lemma_conflict(&other.tests);
    }

    proof fn lemma_fits(&self) {
        self.tests.lemma_fits();
    }

    proof fn law_commutative(a: Map<Seq<char>, TestModel>, b: Map<Seq<char>, TestModel>) {
        Tests::law_commutative(a, b);
    }

    proof fn law_associative(
        a: Map<Seq<char>, TestModel>,
        b: Map<Seq<char>, TestModel>,
        c: Map<Seq<char>, TestModel>,
    ) {
        Tests::law_associative(a, b, c);
    }

    fn check(&self, other: &Self) -> (r: Option<Refusal<TestError>>) {
        self.tests.check(&other.tests)
    }

    fn absorb(&mut self, other: &Self) {
        self.tests.absorb(&other.tests);
    }

    proof fn lemma_cloned(&self, copy: &Self) {
        self.tests.lemma_cloned(&copy.tests);
    }
}

/// The source files of a report, by path.
pub type Files = AggregateResult<SourceFile, File>;

impl<'a> TryMerge<(&'a SourceFile, &'a File)> for Files {
    type Err = TestError;

    open spec fn try_merge_accepts(rhs: (&'a SourceFile, &'a File)) -> bool {
        rhs.1.inv()
    }

    /// A file is refused where its path is held already and the file there
    /// refuses it.
    open spec fn merge_refusal(&self, rhs: (&'a SourceFile, &'a File)) -> Option<
        Refusal<TestError>,
    > {
        entry_refusal(self@, rhs.0@, rhs.1)
    }

    /// The file is merged into the file of that path; a new path starts with
    /// a copy of it.
    open spec fn try_merged_with(&self, rhs: (&'a SourceFile, &'a File)) -> Map<
        Seq<char>,
        Map<Seq<char>, TestModel>,
    > {
        entry_merged::<Seq<char>, File>(self.model(), rhs.0@, rhs.1.model())
    }

    fn try_merge_checked(&mut self, rhs: (&'a SourceFile, &'a File)) -> (r: Result<
        (),
        Refusal<TestError>,
    >) {
        self.merge_entry_ref(rhs.0, rhs.1)
    }

    fn try_merge(&mut self, rhs: (&'a SourceFile, &'a File)) -> (r: MergeResult<TestError>) {
        match self.merge_entry_ref(rhs.0, rhs.1) {
            Err(Refusal::Conflict(e)) => Err(e),
            _ => Ok(()),
        }
    }
}

} // verus!
