//! A report: the coverage of every source file of a trace.

use crate::aggregate::Aggregate;
use crate::aggregate::Refusal;
use crate::file::File;
use crate::file::Files;
use crate::key::Label;
use crate::merge::TestError;
use crate::test::TestModel;
use vstd::prelude::*;

verus! {

/// The content of a report: for each source path, for each test name, what
/// the test covered there.
pub type ReportModel = Map<Seq<char>, Map<Seq<char>, TestModel>>;

/// The coverage of every source file of a trace.
#[derive(Debug)]
pub struct Report {
    pub files: Files,
}

impl Report {
    pub fn new(files: Files) -> (report: Self)
        ensures
            report.files == files,
    {
        Report { files }
    }

    /// The file of that path, if the report has it.
    pub fn get(&self, key: &str) -> (r: Option<&File>)
        requires
            self.inv(),
        ensures
            match r {
                Some(file) => self.files@.contains_key(key@) && *file == self.files@[key@],
                None => !self.files@.contains_key(key@),
            },
    {
        let path = key.to_owned();
        self.files.get(&path)
    }

    pub fn files(&self) -> (files: &Files)
        ensures
            *files == self.files,
    {
        &self.files
    }

    /// The number of source files.
    pub fn len(&self) -> (n: usize)
        ensures
            n == self.files.entries().len(),
    {
        self.files.len()
    }
}

/// A clone holds a clone of the files.
impl Clone for Report {
    fn clone(&self) -> (r: Self)
        ensures
            cloned::<Files>(self.files, r.files),
    {
        Report { files: self.files.clone() }
    }
}

/// A report merges as its files do.
impl Aggregate for Report {
    type Model = ReportModel;

    type Error = TestError;

    open spec fn inv(&self) -> bool {
        self.files.inv()
    }

    open spec fn labelled(&self, label: Label) -> bool {
        true
    }

    open spec fn model(&self) -> ReportModel {
        self.files.model()
    }

    open spec fn compatible(a: ReportModel, b: ReportModel) -> bool {
        Files::compatible(a, b)
    }

    open spec fn merged(a: ReportModel, b: ReportModel) -> ReportModel {
        Files::merged(a, b)
    }

    open spec fn fits(m: ReportModel) -> bool {
        Files::fits(m)
    }

    open spec fn conflict(&self, other: &Self) -> Option<TestError> {
        self.files.conflict(&other.files)
    }

    proof fn lemma_conflict(&self, other: &Self) {
        self.files.lemma_conflict(&other.files);
    }

    proof fn lemma_fits(&self) {
        self.files.lemma_fits();
    }

    proof fn law_commutative(a: ReportModel, b: ReportModel) {
        Files::law_commutative(a, b);
    }

    proof fn law_associative(a: ReportModel, b: ReportModel, c: ReportModel) {
        Files::law_associative(a, b, c);
    }

    fn check(&self, other: &Self) -> (r: Option<Refusal<TestError>>) {
        self.files.check(&other.files)
    }

    fn absorb(&mut self, other: &Self) {
        self.files.absorb(&other.files);
    }

    proof fn lemma_cloned(&self, copy: &Self) {
        self.files.lemma_cloned(&copy.files);
    }
}

} // verus!
