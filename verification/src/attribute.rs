//! The scalar attributes of a coverage trace.

use crate::counter::Hit;
use vstd::prelude::*;

verus! {

/// The name of a test; it may be empty.
pub type TestName = String;

/// The path of a source file.
pub type SourceFile = String;

/// A line of a source file, counted from 1.
pub type LineNumber = u32;

/// How often a line, a function or a branch was executed.
pub type ExecutionCount = u32;

/// A checksum of a source line; nothing is assumed of its form.
pub type CheckSum = String;

impl Hit for ExecutionCount {
    open spec fn hit(&self) -> bool {
        *self > 0
    }

    fn is_hit(&self) -> (hit: bool) {
        *self > 0
    }
}

} // verus!
