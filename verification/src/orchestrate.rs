//! Transcription orchestration: the pure decisions of the end-to-end
//! workflow.
//!
//! A transcription request validates its inputs, derives a MIME type from
//! the file path, uploads, polls until the file is active, generates, and
//! extracts. The remote calls themselves are unverified I/O performed by
//! the shell; everything the workflow decides — validation order, the
//! MIME and display-name derivation, prompt-tier selection, how each
//! collaborator outcome maps to an error, and the final extraction — is
//! verified here. `transcribe_with` replays the whole chain over given
//! collaborator outcomes and pins the result down for every case.

use vstd::prelude::*;

use crate::errors::InputFault;
use crate::errors::PipelineError;
use crate::extract::extract_srt_content;
use crate::extract::spec_extract;
use crate::generate::first_text_of_response;
use crate::generate::spec_first_text;
use crate::poll::await_active_replay;
use crate::poll::first_terminal_at;
use crate::poll::FileState;
use crate::poll::PollOutcome;
use crate::poll::PollRead;
use crate::poll::POLL_BUDGET;
use crate::text::is_blank;
use crate::wire::FileInfo;
use crate::wire::GenerateContentResponse;

verus! {

/// The MIME type `mime_for_path` derives from a path: a function of the
/// path's extension alone, with a generic binary type as fallback.
pub uninterp spec fn mime_of(path: Seq<char>) -> Seq<char>;

/// Relies on mime_guess::from_path and first_or_octet_stream: the guess
/// is looked up in a static table by the path's extension,
/// case-insensitively, and falls back to application/octet-stream, so it
/// depends on the path alone.
#[verifier::external_body]
fn guess_mime(path: &str) -> (r: String)
    ensures
        r@ == mime_of(path@),
{
    mime_guess::from_path(path).first_or_octet_stream().to_string()
}

/// Derives the MIME type to declare for a local media file.
pub fn mime_for_path(path: &str) -> (r: String)
    ensures
        r@ == mime_of(path@),
{
    guess_mime(path)
}

/// Whether `needle` occurs in `haystack` as a contiguous run.
pub open spec fn contains_seq(haystack: Seq<char>, needle: Seq<char>) -> bool {
    exists|i: int|
        0 <= i <= haystack.len() - needle.len() && #[trigger] haystack.subrange(
            i,
            i + needle.len(),
        ) == needle
}

/// Whether `haystack[at..at+len(needle)]` equals `needle`.
fn matches_at(haystack: &str, at: usize, needle: &str, m: usize) -> (r: bool)
    requires
        m == needle@.len(),
        at + m <= haystack@.len(),
        haystack@.len() <= usize::MAX,
    ensures
        r == (haystack@.subrange(at as int, at + needle@.len()) == needle@),
{
    let mut j: usize = 0;
    while j < m
        invariant
            m == needle@.len(),
            at + m <= haystack@.len(),
            haystack@.len() <= usize::MAX,
            j <= m,
            forall|k: int| 0 <= k < j ==> haystack@[at + k] == needle@[k],
        decreases m - j,
    {
        if haystack.get_char(at + j) != needle.get_char(j) {
            proof {
                assert(haystack@.subrange(at as int, at + m)[j as int] == haystack@[at + j]);
            }
            return false;
        }
        j += 1;
    }
    proof {
        assert(haystack@.subrange(at as int, at + m) =~= needle@);
    }
    true
}

/// Whether `needle` occurs anywhere in `haystack`.
pub fn contains_str(haystack: &str, needle: &str) -> (r: bool)
    ensures
        r == contains_seq(haystack@, needle@),
{
    let hn = haystack.unicode_len();
    let m = needle.unicode_len();
    if m > hn {
        proof {
            assert(!contains_seq(haystack@, needle@));
        }
        return false;
    }
    if m == 0 {
        proof {
            assert(haystack@.subrange(0, 0 + needle@.len() as int) =~= needle@);
            assert(contains_seq(haystack@, needle@));
        }
        return true;
    }
    let mut i: usize = 0;
    while i <= hn - m
        invariant
            hn == haystack@.len(),
            m == needle@.len(),
            1 <= m <= hn,
            i <= hn - m + 1,
            forall|k: int|
                0 <= k < i ==> #[trigger] haystack@.subrange(k, k + needle@.len()) != needle@,
        decreases hn + 1 - i,
    {
        if matches_at(haystack, i, needle, m) {
            proof {
                assert(contains_seq(haystack@, needle@)) by {
                    assert(0 <= i <= haystack@.len() - needle@.len());
                    assert(haystack@.subrange(i as int, i + needle@.len()) == needle@);
                }
            }
            return true;
        }
        i += 1;
    }
    proof {
        assert(!contains_seq(haystack@, needle@)) by {
            if contains_seq(haystack@, needle@) {
                let k = choose|k: int|
                    0 <= k <= haystack@.len() - needle@.len() && #[trigger] haystack@.subrange(
                        k,
                        k + needle@.len(),
                    ) == needle@;
                assert(haystack@.subrange(k, k + needle@.len()) != needle@);
            }
        }
    }
    false
}

/// The built-in instruction template a model is paired with, by
/// capability tier. The template text itself is business content and not
/// part of the verified logic; the selection rule is.
#[derive(Debug, Clone, Copy, PartialEq, Eq, Structural)]
pub enum PromptTier {
    /// Lighter models transcribe to plain text first.
    PlainTranscript,
    /// Higher-tier models produce the full subtitle format directly.
    SubtitleFormat,
}

/// The marker in a model identifier that selects the lighter tier.
pub open spec fn basic_model_marker() -> Seq<char> {
    "gemini-2.0-flash"@
}

/// Selects the instruction-template tier for a model identifier.
pub fn prompt_tier_for(model: &str) -> (r: PromptTier)
    ensures
        r == (if contains_seq(model@, basic_model_marker()) {
            PromptTier::PlainTranscript
        } else {
            PromptTier::SubtitleFormat
        }),
{
    if contains_str(model, "gemini-2.0-flash") {
        PromptTier::PlainTranscript
    } else {
        PromptTier::SubtitleFormat
    }
}

/// Index of the last path separator strictly before `i`, or `-1` if none.
pub open spec fn last_sep_before(path: Seq<char>, i: int) -> int
    decreases i,
{
    if i <= 0 {
        -1
    } else if path[i - 1] == '/' || path[i - 1] == '\\' {
        i - 1
    } else {
        last_sep_before(path, i - 1)
    }
}

/// The fallback display name for a path without a usable base name.
pub open spec fn default_display_name() -> Seq<char> {
    seq!['a', 'u', 'd', 'i', 'o', '_', 'f', 'i', 'l', 'e']
}

/// The display name the upload metadata carries: everything after the
/// last path separator, or the fallback when that is empty.
pub open spec fn spec_display_name(path: Seq<char>) -> Seq<char> {
    let base = path.skip(last_sep_before(path, path.len() as int) + 1);
    if base.len() == 0 {
        default_display_name()
    } else {
        base
    }
}

/// A position followed only by non-separators and holding a separator is
/// the one `last_sep_before` finds.
proof fn lemma_last_sep_unique(path: Seq<char>, i: int, k: int)
    requires
        0 <= i <= path.len(),
        -1 <= k < i,
        forall|j: int| k < j < i ==> #[trigger] path[j] != '/' && path[j] != '\\',
        k >= 0 ==> path[k] == '/' || path[k] == '\\',
    ensures
        last_sep_before(path, i) == k,
    decreases i,
{
    if i <= 0 {
    } else if path[i - 1] == '/' || path[i - 1] == '\\' {
        assert(k == i - 1);
    } else {
        lemma_last_sep_unique(path, i - 1, k);
    }
}

/// Derives the display name for the upload metadata from the source
/// path: the part after the last `'/'` or `'\'`, with a fixed fallback
/// when the path ends in a separator or is empty.
pub fn display_name_for(path: &str) -> (r: String)
    ensures
        r@ == spec_display_name(path@),
{
    let n = path.unicode_len();
    let mut i: usize = n;
    let mut found_sep: bool = false;
    while i > 0 && !found_sep
        invariant
            n == path@.len(),
            i <= n,
            found_sep ==> i > 0 && (path@[i - 1] == '/' || path@[i - 1] == '\\'),
            forall|j: int| i <= j < n ==> #[trigger] path@[j] != '/' && path@[j] != '\\',
        decreases 2 * i + (if found_sep {
            0int
        } else {
            1int
        }),
    {
        let c = path.get_char(i - 1);
        if c == '/' || c == '\\' {
            found_sep = true;
        } else {
            i -= 1;
        }
    }
    proof {
        lemma_last_sep_unique(path@, n as int, i - 1);
        assert(last_sep_before(path@, n as int) == i - 1);
    }
    if i == n {
        let r = String::from_str("audio_file");
        proof {
            reveal_strlit("audio_file");
            assert(path@.skip(i as int).len() == 0);
            assert(r@ =~= default_display_name());
        }
        r
    } else {
        let base = path.substring_char(i, n);
        proof {
            assert(base@ =~= path@.skip(i as int));
            assert(base@.len() > 0);
        }
        base.to_owned()
    }
}

/// What the whole transcription chain yields, given the outcome of each
/// collaborator call: validation first, then upload, then the polling
/// schedule, then generation, then extraction. An error at any stage is
/// final; nothing is retried beyond the poller's budget.
pub open spec fn spec_transcribe(
    api_key: Seq<char>,
    file_exists: bool,
    upload: Result<FileInfo, PipelineError>,
    reads: Seq<PollRead>,
    generation: Result<GenerateContentResponse, PipelineError>,
) -> Result<Seq<char>, PipelineError> {
    if is_blank(api_key) {
        Err(PipelineError::InputError(InputFault::EmptyCredential))
    } else if !file_exists {
        Err(PipelineError::InputError(InputFault::MissingFile))
    } else {
        match upload {
            Err(e) => Err(e),
            Ok(_info) => {
                let k = first_terminal_at(reads.take(POLL_BUDGET as int), 0);
                if k < POLL_BUDGET && reads[k] == PollRead::Observed(FileState::Active) {
                    match generation {
                        Err(e) => Err(e),
                        Ok(resp) => match spec_first_text(resp) {
                            None => Err(PipelineError::ContentError),
                            Some(t) => Ok(spec_extract(t)),
                        },
                    }
                } else if k < POLL_BUDGET {
                    Err(PipelineError::ProcessingError)
                } else {
                    Err(PipelineError::TimeoutError)
                }
            },
        }
    }
}

/// Replays the transcription chain over given collaborator outcomes:
/// credential and file checks, upload, the full polling schedule, the
/// generation response, and extraction of the result text.
pub fn transcribe_with(
    api_key: &str,
    file_exists: bool,
    upload: Result<FileInfo, PipelineError>,
    poll_reads: &Vec<PollRead>,
    generation: Result<GenerateContentResponse, PipelineError>,
) -> (r: Result<String, PipelineError>)
    requires
        poll_reads@.len() >= POLL_BUDGET,
    ensures
        ({
            let outcome = spec_transcribe(api_key@, file_exists, upload, poll_reads@, generation);
            &&& r is Ok <==> outcome is Ok
            &&& r is Ok ==> r->Ok_0@ == outcome->Ok_0
            &&& r is Err ==> r->Err_0 == outcome->Err_0
        }),
{
    if !crate::credential::validate_api_key(api_key) {
        return Err(PipelineError::InputError(InputFault::EmptyCredential));
    }
    if !file_exists {
        return Err(PipelineError::InputError(InputFault::MissingFile));
    }
    let _info = match upload {
        Ok(info) => info,
        Err(e) => {
            return Err(e);
        },
    };
    let (outcome, _attempts) = await_active_replay(poll_reads);
    proof {
        crate::poll::lemma_first_terminal(poll_reads@.take(POLL_BUDGET as int), 0);
        let k = first_terminal_at(poll_reads@.take(POLL_BUDGET as int), 0);
        if k < POLL_BUDGET {
            assert(poll_reads@.take(POLL_BUDGET as int)[k] == poll_reads@[k]);
        }
    }
    match outcome {
        PollOutcome::TimedOut => {
            return Err(PipelineError::TimeoutError);
        },
        PollOutcome::ProcessingFailed => {
            return Err(PipelineError::ProcessingError);
        },
        PollOutcome::Ready => {},
    }
    let resp = match generation {
        Ok(resp) => resp,
        Err(e) => {
            return Err(e);
        },
    };
    let text = match first_text_of_response(&resp) {
        Ok(t) => t,
        Err(e) => {
            return Err(e);
        },
    };
    Ok(extract_srt_content(text.as_str()))
}

} // verus!
