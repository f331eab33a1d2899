//! Requests to the recorder thread.
use vstd::prelude::*;

verus! {

/// What the recorder thread is asked to do.
#[derive(Debug, Clone, Copy, PartialEq, Eq)]
pub enum RecorderCommand {
    Capture,
    Stop,
}

} // verus!
