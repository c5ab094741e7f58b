//! Progress reporting for long-running operations. The library itself
//! reports nothing; callers hand an implementation in where they want
//! feedback.
use vstd::prelude::*;

verus! {

/// Trait for reporting progress of long-running operations, for callers to
/// implement; the percentage runs from zero to one hundred.
pub trait ProgressReporter {
    /// Report progress with a message and a percentage.
    fn report(&self, message: &str, percentage: u32);

    /// Mark the operation as complete.
    fn complete(&self, message: Option<&str>);

    /// Report an error.
    fn error(&self, message: &str);
}

/// A reporter that swallows every report.
pub struct NoOpProgressReporter;

impl ProgressReporter for NoOpProgressReporter {
    fn report(&self, _message: &str, _percentage: u32) {
    }

    fn complete(&self, _message: Option<&str>) {
    }

    fn error(&self, _message: &str) {
    }
}

} // verus!
