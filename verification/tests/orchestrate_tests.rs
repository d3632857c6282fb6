use gemini_srt::errors::InputFault;
use gemini_srt::errors::PipelineError;
use gemini_srt::orchestrate::contains_str;
use gemini_srt::orchestrate::display_name_for;
use gemini_srt::orchestrate::mime_for_path;
use gemini_srt::orchestrate::prompt_tier_for;
use gemini_srt::orchestrate::transcribe_with;
use gemini_srt::orchestrate::PromptTier;
use gemini_srt::poll::FileState;
use gemini_srt::poll::PollRead;
use gemini_srt::poll::POLL_BUDGET;
use gemini_srt::wire::Candidate;
use gemini_srt::wire::Content;
use gemini_srt::wire::FileInfo;
use gemini_srt::wire::GenerateContentResponse;
use gemini_srt::wire::Part;

fn schedule(prefix: &[PollRead]) -> Vec<PollRead> {
    let mut reads: Vec<PollRead> = prefix.to_vec();
    while reads.len() < POLL_BUDGET {
        reads.push(PollRead::Observed(FileState::Processing));
    }
    reads
}

fn active_file() -> FileInfo {
    FileInfo {
        name: "files/abc".to_string(),
        uri: "https://example.invalid/files/abc".to_string(),
        mime_type: "audio/mpeg".to_string(),
        size_bytes: "123".to_string(),
        create_time: "t0".to_string(),
        update_time: "t1".to_string(),
        expiration_time: "t2".to_string(),
        sha256_hash: "abcd".to_string(),
        state: "PROCESSING".to_string(),
        source: None,
    }
}

fn text_response(text: &str) -> GenerateContentResponse {
    GenerateContentResponse {
        candidates: vec![Candidate {
            content: Content {
                parts: vec![Part::Text {
                    text: text.to_string(),
                }],
            },
            finish_reason: None,
            index: None,
            safety_ratings: None,
            grounding_metadata: None,
        }],
        usage_metadata: None,
    }
}

#[test]
fn mime_is_derived_from_the_extension() {
    assert_eq!(mime_for_path("song.mp3"), "audio/mpeg");
    assert_eq!(mime_for_path("clip.wav"), "audio/wav");
    assert_eq!(mime_for_path("mystery.zzqq"), "application/octet-stream");
    assert_eq!(mime_for_path("noextension"), "application/octet-stream");
}

#[test]
fn contains_str_finds_contiguous_runs() {
    assert!(contains_str("models/gemini-2.0-flash-001", "gemini-2.0-flash"));
    assert!(!contains_str("gemini-2.5-pro", "gemini-2.0-flash"));
    assert!(contains_str("anything", ""));
    assert!(!contains_str("", "a"));
}

#[test]
fn prompt_tier_follows_model_marker() {
    assert_eq!(
        prompt_tier_for("gemini-2.0-flash"),
        PromptTier::PlainTranscript
    );
    assert_eq!(
        prompt_tier_for("models/gemini-2.0-flash-lite"),
        PromptTier::PlainTranscript
    );
    assert_eq!(
        prompt_tier_for("gemini-2.5-pro-preview-06-05"),
        PromptTier::SubtitleFormat
    );
}

#[test]
fn display_name_takes_the_base_name() {
    assert_eq!(display_name_for("/tmp/audio/session.mp3"), "session.mp3");
    assert_eq!(display_name_for("C:\\media\\take1.wav"), "take1.wav");
    assert_eq!(display_name_for("bare.mp3"), "bare.mp3");
    assert_eq!(display_name_for("/ends/with/slash/"), "audio_file");
    assert_eq!(display_name_for(""), "audio_file");
}

#[test]
fn transcribe_end_to_end_with_stubbed_service() {
    // the service reports the file active after two polls and returns a
    // fenced subtitle block
    let reads = schedule(&[
        PollRead::Observed(FileState::Processing),
        PollRead::Observed(FileState::Processing),
        PollRead::Observed(FileState::Active),
    ]);
    let fenced = "```srt\n1\n00:00:00,000 --> 00:00:05,000\nHello world\n```";
    let result = transcribe_with(
        "key-123",
        true,
        Ok(active_file()),
        &reads,
        Ok(text_response(fenced)),
    );
    assert_eq!(
        result.unwrap(),
        "1\n00:00:00,000 --> 00:00:05,000\nHello world"
    );
}

#[test]
fn transcribe_rejects_blank_credential_first() {
    let reads = schedule(&[PollRead::Observed(FileState::Active)]);
    let result = transcribe_with("  ", false, Ok(active_file()), &reads, Ok(text_response("x")));
    assert!(matches!(
        result,
        Err(PipelineError::InputError(InputFault::EmptyCredential))
    ));
}

#[test]
fn transcribe_rejects_missing_file() {
    let reads = schedule(&[PollRead::Observed(FileState::Active)]);
    let result = transcribe_with("key", false, Ok(active_file()), &reads, Ok(text_response("x")));
    assert!(matches!(
        result,
        Err(PipelineError::InputError(InputFault::MissingFile))
    ));
}

#[test]
fn transcribe_propagates_upload_failure() {
    let reads = schedule(&[PollRead::Observed(FileState::Active)]);
    let result = transcribe_with(
        "key",
        true,
        Err(PipelineError::TransportError {
            status: 500,
            body: "boom".to_string(),
        }),
        &reads,
        Ok(text_response("x")),
    );
    match result {
        Err(PipelineError::TransportError { status, body }) => {
            assert_eq!(status, 500);
            assert_eq!(body, "boom");
        }
        _ => panic!("upload failure must be propagated"),
    }
}

#[test]
fn transcribe_times_out_when_never_active() {
    let reads = schedule(&[]);
    let result = transcribe_with("key", true, Ok(active_file()), &reads, Ok(text_response("x")));
    assert!(matches!(result, Err(PipelineError::TimeoutError)));
}

#[test]
fn transcribe_fails_on_remote_processing_failure() {
    let reads = schedule(&[PollRead::Observed(FileState::Failed)]);
    let result = transcribe_with("key", true, Ok(active_file()), &reads, Ok(text_response("x")));
    assert!(matches!(result, Err(PipelineError::ProcessingError)));
}

#[test]
fn transcribe_fails_on_empty_response() {
    let reads = schedule(&[PollRead::Observed(FileState::Active)]);
    let empty = GenerateContentResponse {
        candidates: vec![],
        usage_metadata: None,
    };
    let result = transcribe_with("key", true, Ok(active_file()), &reads, Ok(empty));
    assert!(matches!(result, Err(PipelineError::ContentError)));
}
