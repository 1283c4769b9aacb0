//! The renderer entry type.
use vstd::prelude::*;

verus! {

/// The renderer; its state lives in the GPU state of the application.
pub struct Renderer {}

} // verus!
