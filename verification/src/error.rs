//! Why an analysis can fail.

use vstd::prelude::*;

verus! {

/// The failures of analysing one transcript. Either one leaves the
/// transcript without any report.
#[derive(Clone, Copy, Debug, PartialEq, Eq, Structural)]
pub enum ProcessError {
    /// The transcript holds no block that belongs to a `.tex` file.
    NoFileRegionFound,
    /// The expression engine refused to compile a recognition pattern.
    PatternRejected,
}

} // verus!
