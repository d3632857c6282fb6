//! Error taxonomy of the pipeline.
//!
//! Every component operation returns a tagged result built from these
//! variants rather than relying on uncontrolled control flow. A transport
//! or schema failure carries full diagnostic detail (status and raw body);
//! the orchestration never retries beyond the poller's bounded loop.

use vstd::prelude::*;

verus! {

/// What was wrong with the caller-supplied input.
#[derive(Debug, Clone, Copy, PartialEq, Eq, Structural)]
pub enum InputFault {
    /// The source file does not exist.
    MissingFile,
    /// No credential is configured (empty after trimming).
    EmptyCredential,
}

/// The failure modes of the pipeline.
#[derive(Debug, Clone)]
pub enum PipelineError {
    /// The request was rejected before any remote call.
    InputError(InputFault),
    /// A remote call failed at HTTP level; carries status and raw body.
    TransportError { status: u16, body: String },
    /// A remote response did not match the expected shape.
    SchemaError { body: String },
    /// The remote file reached its failed state.
    ProcessingError,
    /// The poll budget was exhausted without a terminal observation.
    TimeoutError,
    /// The response held no usable text candidate.
    ContentError,
}

} // verus!
