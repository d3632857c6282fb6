use gemini_srt::errors::PipelineError;
use gemini_srt::generate::build_file_request;
use gemini_srt::generate::build_text_request;
use gemini_srt::generate::first_text_of_response;
use gemini_srt::generate::normalize_model_name;
use gemini_srt::generate::read_generation;
use gemini_srt::generate::search_info_of;
use gemini_srt::wire::Candidate;
use gemini_srt::wire::Content;
use gemini_srt::wire::GenerateContentResponse;
use gemini_srt::wire::GroundingMetadata;
use gemini_srt::wire::Part;
use gemini_srt::wire::SearchEntryPoint;

fn text_candidate(text: &str) -> Candidate {
    Candidate {
        content: Content {
            parts: vec![Part::Text {
                text: text.to_string(),
            }],
        },
        finish_reason: None,
        index: None,
        safety_ratings: None,
        grounding_metadata: None,
    }
}

#[test]
fn normalize_strips_namespace_prefix() {
    assert_eq!(normalize_model_name("models/gemini-2.0-flash"), "gemini-2.0-flash");
    assert_eq!(normalize_model_name("gemini-2.0-flash"), "gemini-2.0-flash");
    assert_eq!(normalize_model_name("models/"), "");
    assert_eq!(normalize_model_name("model"), "model");
}

#[test]
fn file_request_pairs_reference_and_prompt() {
    let r = build_file_request("files/abc", "audio/mpeg", "transcribe this");
    assert_eq!(r.contents.len(), 1);
    assert_eq!(r.contents[0].parts.len(), 2);
    match &r.contents[0].parts[0] {
        Part::FileData { file_data } => {
            assert_eq!(file_data.mime_type, "audio/mpeg");
            assert_eq!(file_data.file_uri, "files/abc");
        }
        _ => panic!("first part must be the file reference"),
    }
    match &r.contents[0].parts[1] {
        Part::Text { text } => assert_eq!(text, "transcribe this"),
        _ => panic!("second part must be the prompt"),
    }
    assert!(r.tools.is_none());
}

#[test]
fn search_marker_present_iff_enabled() {
    let with = build_text_request("hello", true);
    assert!(with.tools.is_some());
    assert_eq!(with.tools.as_ref().unwrap().len(), 1);
    let without = build_text_request("hello", false);
    assert!(without.tools.is_none());
}

#[test]
fn zero_candidates_is_a_content_error() {
    let resp = GenerateContentResponse {
        candidates: vec![],
        usage_metadata: None,
    };
    let r = first_text_of_response(&resp);
    assert!(matches!(r, Err(PipelineError::ContentError)));
}

#[test]
fn non_text_first_part_is_a_content_error() {
    let resp = GenerateContentResponse {
        candidates: vec![Candidate {
            content: Content {
                parts: vec![Part::FileData {
                    file_data: gemini_srt::wire::FileData {
                        mime_type: "audio/mpeg".to_string(),
                        file_uri: "files/abc".to_string(),
                    },
                }],
            },
            finish_reason: None,
            index: None,
            safety_ratings: None,
            grounding_metadata: None,
        }],
        usage_metadata: None,
    };
    assert!(matches!(
        first_text_of_response(&resp),
        Err(PipelineError::ContentError)
    ));
}

#[test]
fn empty_parts_is_a_content_error() {
    let resp = GenerateContentResponse {
        candidates: vec![Candidate {
            content: Content { parts: vec![] },
            finish_reason: None,
            index: None,
            safety_ratings: None,
            grounding_metadata: None,
        }],
        usage_metadata: None,
    };
    assert!(matches!(
        first_text_of_response(&resp),
        Err(PipelineError::ContentError)
    ));
}

#[test]
fn first_text_is_returned_verbatim() {
    let resp = GenerateContentResponse {
        candidates: vec![text_candidate("the result"), text_candidate("ignored")],
        usage_metadata: None,
    };
    assert_eq!(first_text_of_response(&resp).unwrap(), "the result");
}

#[test]
fn grounding_snippet_needs_every_optional_layer() {
    let mut c = text_candidate("t");
    assert!(search_info_of(&c).is_none());
    c.grounding_metadata = Some(GroundingMetadata {
        search_entry_point: None,
        grounding_chunks: None,
    });
    assert!(search_info_of(&c).is_none());
    c.grounding_metadata = Some(GroundingMetadata {
        search_entry_point: Some(SearchEntryPoint {
            rendered_content: Some("snippet".to_string()),
        }),
        grounding_chunks: None,
    });
    assert_eq!(search_info_of(&c).unwrap(), "snippet");
}

#[test]
fn read_generation_carries_search_info_only_when_enabled() {
    let mut c = text_candidate("body");
    c.grounding_metadata = Some(GroundingMetadata {
        search_entry_point: Some(SearchEntryPoint {
            rendered_content: Some("evidence".to_string()),
        }),
        grounding_chunks: None,
    });
    let resp = GenerateContentResponse {
        candidates: vec![c],
        usage_metadata: None,
    };
    let (text, info) = read_generation(&resp, true).unwrap();
    assert_eq!(text, "body");
    assert_eq!(info.unwrap(), "evidence");
    let (text2, info2) = read_generation(&resp, false).unwrap();
    assert_eq!(text2, "body");
    assert!(info2.is_none());
}
