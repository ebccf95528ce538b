//! Merging of LCOV coverage traces: an ordered aggregate tree whose merge is
//! proved associative and commutative, a record-driven parser that fills it,
//! and a deterministic serializer.

pub mod aggregate;
pub mod attribute;
pub mod branch;
pub mod canon;
pub mod counter;
pub mod file;
pub mod function;
pub mod key;
pub mod laws;
pub mod line;
pub mod merge;
pub mod merger;
pub mod parser;
pub mod record;
pub mod render;
pub mod report;
pub mod roundtrip;
pub mod summary;
pub mod test;
pub mod text;

pub use self::aggregate::Aggregate;
pub use self::aggregate::Refusal;
pub use self::branch::BranchBlocks;
pub use self::branch::BranchUnit;
pub use self::branch::Branches;
pub use self::counter::FoundCounter;
pub use self::counter::Hit;
pub use self::counter::HitCounter;
pub use self::counter::HitFoundCounter;
pub use self::file::File;
pub use self::file::Files;
pub use self::function::Function;
pub use self::function::Functions;
pub use self::line::Line;
pub use self::line::Lines;
pub use self::merge::ChecksumError;
pub use self::merge::FunctionError;
pub use self::merge::Merge;
pub use self::merge::MergeError;
pub use self::merge::MergeLine;
pub use self::merge::MergeResult;
pub use self::merge::TestError;
pub use self::merge::TryMerge;
pub use self::merger::merge_traces;
pub use self::merger::ReportMerger;
pub use self::parser::ReportParser;
pub use self::parser::Stop;
pub use self::record::BranchData;
pub use self::record::FunctionData;
pub use self::record::LineData;
pub use self::record::Record;
pub use self::record::RecordParseError;
pub use self::record::RecordWrite;
pub use self::report::Report;
pub use self::summary::AggregateResult;
pub use self::test::Test;
pub use self::test::TestSum;
pub use self::test::Tests;
