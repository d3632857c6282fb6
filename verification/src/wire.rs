//! The wire-level data model of the remote generation service.
//!
//! These types mirror the JSON bodies the service exchanges: the file
//! descriptor returned by upload and status reads, the generation request
//! with its ordered content blocks, and the generation response with its
//! candidates and optional grounding evidence. The unverified shell
//! serializes and deserializes them; the verified logic builds and reads
//! them as plain values.

use vstd::prelude::*;

verus! {

/// Server-side descriptor of an uploaded file.
#[derive(Debug, Clone)]
pub struct FileInfo {
    pub name: String,
    pub uri: String,
    pub mime_type: String,
    pub size_bytes: String,
    pub create_time: String,
    pub update_time: String,
    pub expiration_time: String,
    pub sha256_hash: String,
    /// The raw state string; `poll::parse_state` reads it.
    pub state: String,
    pub source: Option<String>,
}

/// Envelope of the upload endpoint's response.
#[derive(Debug, Clone)]
pub struct FileUploadResponse {
    pub file: FileInfo,
}

/// A part of a content block: literal text or a reference to an uploaded
/// file.
#[derive(Debug, Clone)]
pub enum Part {
    Text { text: String },
    FileData { file_data: FileData },
}

/// Reference to an uploaded file by MIME type and URI.
#[derive(Debug, Clone)]
pub struct FileData {
    pub mime_type: String,
    pub file_uri: String,
}

/// One ordered block of parts.
#[derive(Debug, Clone)]
pub struct Content {
    pub parts: Vec<Part>,
}

/// The capability marker requesting web-search augmentation. It is an
/// empty object on the wire; no further configuration surface exists.
#[derive(Debug, Clone)]
pub struct GoogleSearch {}

/// A tool attached to a generation request.
#[derive(Debug, Clone)]
pub struct Tool {
    pub google_search: GoogleSearch,
}

/// The body of a generation call.
#[derive(Debug, Clone)]
pub struct GenerateContentRequest {
    pub contents: Vec<Content>,
    /// Present exactly when search augmentation was requested.
    pub tools: Option<Vec<Tool>>,
}

/// A safety annotation on a candidate.
#[derive(Debug, Clone)]
pub struct SafetyRating {
    pub category: String,
    pub probability: String,
}

/// The rendered search-entry-point snippet of grounding evidence.
#[derive(Debug, Clone)]
pub struct SearchEntryPoint {
    pub rendered_content: Option<String>,
}

/// One cited web source of grounding evidence.
#[derive(Debug, Clone)]
pub struct WebChunk {
    pub uri: Option<String>,
    pub title: Option<String>,
}

/// A grounding chunk, possibly citing a web source.
#[derive(Debug, Clone)]
pub struct GroundingChunk {
    pub web: Option<WebChunk>,
}

/// Grounding evidence attached to a candidate when search augmentation
/// was requested.
#[derive(Debug, Clone)]
pub struct GroundingMetadata {
    pub search_entry_point: Option<SearchEntryPoint>,
    pub grounding_chunks: Option<Vec<GroundingChunk>>,
}

/// One generated response alternative.
#[derive(Debug, Clone)]
pub struct Candidate {
    pub content: Content,
    pub finish_reason: Option<String>,
    pub index: Option<i32>,
    pub safety_ratings: Option<Vec<SafetyRating>>,
    pub grounding_metadata: Option<GroundingMetadata>,
}

/// Token-usage counts of a generation call.
#[derive(Debug, Clone)]
pub struct UsageMetadata {
    pub prompt_token_count: Option<i32>,
    pub candidates_token_count: Option<i32>,
    pub total_token_count: Option<i32>,
}

/// The body of a generation response.
#[derive(Debug, Clone)]
pub struct GenerateContentResponse {
    pub candidates: Vec<Candidate>,
    pub usage_metadata: Option<UsageMetadata>,
}

} // verus!
