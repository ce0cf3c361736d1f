//! Errors of the execution core.

use vstd::prelude::*;

verus! {

/// A malformed resource-accounting file.
///
/// Any of these means the measuring wrapper did not leave the two lines
/// it was asked for; the orchestrator reports such a request as an
/// internal error.
#[derive(Debug, Clone, Copy, PartialEq, Eq, Structural)]
pub enum Error {
    /// The accounting file has no first line.
    MissingMemoryLine,
    /// The first line is not a kilobyte count.
    InvalidMemoryLine,
    /// The accounting file has no second line.
    MissingTimeLine,
    /// The second line is not a `minutes:seconds.millis` time.
    InvalidTimeLine,
}

} // verus!
