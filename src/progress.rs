//! Progress reporting during a walk over history, handed in by the caller.
use vstd::prelude::*;

verus! {

/// Receives the progress of a walk: once at the start, once per commit
/// analysed, once at the end.
pub trait ProgressSink {
    fn start(&mut self);

    fn advance(&mut self);

    fn finish(&mut self);
}

/// Reports nothing.
pub struct NoProgress;

impl ProgressSink for NoProgress {
    fn start(&mut self) {
    }

    fn advance(&mut self) {
    }

    fn finish(&mut self) {
    }
}

} // verus!
