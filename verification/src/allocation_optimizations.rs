//! Errors of the pooled allocation helpers.
use vstd::prelude::*;
use vstd::string::*;

verus! {

/// Error type for allocation optimization operations
#[derive(Debug, Clone)]
pub enum AllocationError {
    InvalidState(String),
    InitializationFailed(String),
}

impl AllocationError {
    /// The error's message.
    pub fn message(&self) -> (m: String)
        ensures
            m@ == match self {
                AllocationError::InvalidState(s) => "Pooled object is in invalid state: "@ + s@,
                AllocationError::InitializationFailed(s) => "Buffer initialization failed: "@ + s@,
            },
    {
        match self {
            AllocationError::InvalidState(s) => {
                let mut m = String::from_str("Pooled object is in invalid state: ");
                m.append(s.as_str());
                m
            },
            AllocationError::InitializationFailed(s) => {
                let mut m = String::from_str("Buffer initialization failed: ");
                m.append(s.as_str());
                m
            },
        }
    }
}

} // verus!
