//! Verified core of a subtitle-transcription pipeline.
//!
//! The library covers the logic of the pipeline: recovering a canonical
//! subtitle payload from generated text that may be wrapped in code fences,
//! deciding the outcome of a bounded status-polling loop, building and
//! reading generation requests and responses, and the pure parts of the
//! surrounding workflows (credential handling, file-name construction,
//! orchestration). All remote I/O is left to an unverified shell that calls
//! into these functions.

pub mod credential;
pub mod errors;
pub mod extract;
pub mod files;
pub mod generate;
pub mod orchestrate;
pub mod poll;
pub mod text;
pub mod wire;
