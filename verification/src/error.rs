//! Engine errors and the renderer's helpers that build them.
use vstd::prelude::*;
use vstd::string::*;

verus! {

/// Errors reported by engine subsystems.
#[derive(Debug)]
pub enum EngineError {
    /// A lock guarding shared state was poisoned.
    LockPoisoned { resource: String },
    /// A subsystem failed.
    SystemError { component: String, error: String },
    /// A GPU operation failed.
    GpuOperationFailed { operation: String, error: String },
    /// An internal invariant was broken.
    Internal { message: String },
    /// An index was outside a buffer.
    BufferAccess { index: usize, size: usize },
}

pub type EngineResult<T> = Result<T, EngineError>;

/// Type alias for renderer operation results
pub type RendererResult<T> = EngineResult<T>;

/// Helper trait for renderer error contexts
pub trait RendererErrorContext<T> {
    fn renderer_context(self, context: &str) -> RendererResult<T>;
}

impl<T, E: std::fmt::Display> RendererErrorContext<T> for Result<T, E> {
    /// Keeps a success; turns a failure into a renderer `SystemError` whose
    /// text is `"<context>: <error>"`.
    fn renderer_context(self, context: &str) -> (r: RendererResult<T>)
        ensures
            match self {
                Ok(v) => r matches Ok(w) && w == v,
                Err(e) => r matches Err(EngineError::SystemError { component, error }) && component@
                    == "renderer"@ && exists|msg: String|
                    to_string_from_display_ensures::<E>(&e, msg) && error@ == context@ + ": "@ + msg@,
            },
    {
        match self {
            Ok(v) => Ok(v),
            Err(e) => {
                let msg = e.to_string();
                let mut error = String::from_str(context);
                error.append(": ");
                error.append(msg.as_str());
                Err(EngineError::SystemError { component: String::from_str("renderer"), error })
            },
        }
    }
}

/// Create a GPU operation error
pub fn gpu_operation_error<E: std::fmt::Display>(operation: &str, error: E) -> (r: EngineError)
    ensures
        r matches EngineError::GpuOperationFailed { operation: o, error: e } && o@ == operation@
            && to_string_from_display_ensures::<E>(&error, e),
{
    EngineError::GpuOperationFailed { operation: String::from_str(operation), error: error.to_string() }
}

/// Create a buffer mapping error
pub fn buffer_mapping_error(buffer: &str) -> (r: EngineError)
    ensures
        r matches EngineError::Internal { message } && message@ == "Failed to map GPU buffer: "@
            + buffer@,
{
    let mut message = String::from_str("Failed to map GPU buffer: ");
    message.append(buffer);
    EngineError::Internal { message }
}

/// Create a pipeline creation error
pub fn pipeline_creation_error<E: std::fmt::Display>(pipeline: &str, error: E) -> (r: EngineError)
    ensures
        r matches EngineError::Internal { message } && exists|msg: String|
            to_string_from_display_ensures::<E>(&error, msg) && message@ == "Failed to create pipeline '"@
                + pipeline@ + "': "@ + msg@,
{
    let msg = error.to_string();
    let mut message = String::from_str("Failed to create pipeline '");
    message.append(pipeline);
    message.append("': ");
    message.append(msg.as_str());
    EngineError::Internal { message }
}

} // verus!
