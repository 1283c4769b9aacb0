//! Progress reporting during GPU initialization.
use vstd::prelude::*;

verus! {

/// Receives progress of a long GPU operation; implemented by callers.
pub trait ProgressCallback: Send + Sync {
    fn on_progress(&self, current: usize, total: usize, message: &str);

    fn on_complete(&self, message: &str);

    fn on_error(&self, error: &str);
}

} // verus!
