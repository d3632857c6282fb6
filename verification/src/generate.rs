//! Building generation requests and reading generation responses.
//!
//! Two call shapes share one mechanism: a file-grounded request pairs a
//! file reference with a text prompt once the file is active, and a
//! pure-text request carries a single text part, optionally with the
//! search-augmentation capability marker. A response yields the first
//! candidate's first part if and only if that part is text; any other
//! shape is a content error, never an empty string.

use vstd::prelude::*;

use crate::errors::PipelineError;
use crate::wire::Candidate;
use crate::wire::Content;
use crate::wire::FileData;
use crate::wire::GenerateContentRequest;
use crate::wire::GenerateContentResponse;
use crate::wire::GoogleSearch;
use crate::wire::Part;
use crate::wire::Tool;

verus! {

/// The namespace prefix some callers put before a model identifier.
pub open spec fn models_prefix() -> Seq<char> {
    seq!['m', 'o', 'd', 'e', 'l', 's', '/']
}

/// A model identifier with any leading namespace prefix stripped, so the
/// per-model endpoint path is well formed however the caller wrote it.
pub open spec fn spec_normalize_model(m: Seq<char>) -> Seq<char> {
    if m.len() >= 7 && m.subrange(0, 7) == models_prefix() {
        m.skip(7)
    } else {
        m
    }
}

/// Strips the leading namespace prefix from a model identifier, if present.
pub fn normalize_model_name(model: &str) -> (r: String)
    ensures
        r@ == spec_normalize_model(model@),
{
    let n = model.unicode_len();
    if n >= 7 {
        let has_prefix = model.get_char(0) == 'm' && model.get_char(1) == 'o' && model.get_char(2)
            == 'd' && model.get_char(3) == 'e' && model.get_char(4) == 'l' && model.get_char(5)
            == 's' && model.get_char(6) == '/';
        proof {
            if has_prefix {
                assert(model@.subrange(0, 7) =~= models_prefix());
            } else {
                assert(model@.subrange(0, 7) != models_prefix()) by {
                    if model@.subrange(0, 7) == models_prefix() {
                        assert(model@.subrange(0, 7)[0] == 'm');
                        assert(model@.subrange(0, 7)[1] == 'o');
                        assert(model@.subrange(0, 7)[2] == 'd');
                        assert(model@.subrange(0, 7)[3] == 'e');
                        assert(model@.subrange(0, 7)[4] == 'l');
                        assert(model@.subrange(0, 7)[5] == 's');
                        assert(model@.subrange(0, 7)[6] == '/');
                    }
                }
            }
        }
        if has_prefix {
            let rest = model.substring_char(7, n);
            proof {
                assert(rest@ =~= model@.skip(7));
            }
            return rest.to_owned();
        }
    }
    model.to_owned()
}

/// Builds the file-grounded request: one content block holding a file
/// reference followed by the text prompt, with no tools attached.
pub fn build_file_request(file_uri: &str, mime_type: &str, prompt: &str) -> (r:
    GenerateContentRequest)
    ensures
        r.contents@.len() == 1,
        r.contents@[0].parts@.len() == 2,
        (r.contents@[0].parts@[0] matches Part::FileData { file_data } && file_data.mime_type@
            == mime_type@ && file_data.file_uri@ == file_uri@),
        (r.contents@[0].parts@[1] matches Part::Text { text } && text@ == prompt@),
        r.tools is None,
{
    let mut parts: Vec<Part> = Vec::new();
    parts.push(
        Part::FileData {
            file_data: FileData { mime_type: mime_type.to_owned(), file_uri: file_uri.to_owned() },
        },
    );
    parts.push(Part::Text { text: prompt.to_owned() });
    let mut contents: Vec<Content> = Vec::new();
    contents.push(Content { parts });
    GenerateContentRequest { contents, tools: None }
}

/// Builds the pure-text request: one content block holding the text, and
/// the search capability marker exactly when search augmentation is
/// requested.
pub fn build_text_request(text: &str, search_enabled: bool) -> (r: GenerateContentRequest)
    ensures
        r.contents@.len() == 1,
        r.contents@[0].parts@.len() == 1,
        (r.contents@[0].parts@[0] matches Part::Text { text: t } && t@ == text@),
        search_enabled <==> r.tools is Some,
        search_enabled ==> r.tools->0@.len() == 1,
{
    let mut parts: Vec<Part> = Vec::new();
    parts.push(Part::Text { text: text.to_owned() });
    let mut contents: Vec<Content> = Vec::new();
    contents.push(Content { parts });
    let tools: Option<Vec<Tool>> = if search_enabled {
        let mut ts: Vec<Tool> = Vec::new();
        ts.push(Tool { google_search: GoogleSearch {  } });
        Some(ts)
    } else {
        None
    };
    GenerateContentRequest { contents, tools }
}

/// The text a response yields: the first candidate's first part, if and
/// only if that part is a text part.
pub open spec fn spec_first_text(resp: GenerateContentResponse) -> Option<Seq<char>> {
    if resp.candidates@.len() > 0 {
        let parts = resp.candidates@[0].content.parts@;
        if parts.len() > 0 && parts[0] is Text {
            Some(parts[0]->text@)
        } else {
            None
        }
    } else {
        None
    }
}

/// Reads the result text out of a response: the first candidate's first
/// part when it is text, a content error otherwise — an empty response is
/// never passed off as valid text.
pub fn first_text_of_response(resp: &GenerateContentResponse) -> (r: Result<String, PipelineError>)
    ensures
        r is Ok <==> spec_first_text(*resp) is Some,
        r is Ok ==> r->Ok_0@ == spec_first_text(*resp)->0,
        r is Err ==> r->Err_0 is ContentError,
{
    if resp.candidates.len() > 0 {
        let c: &Candidate = &resp.candidates[0];
        if c.content.parts.len() > 0 {
            let p: &Part = &c.content.parts[0];
            match p {
                Part::Text { text } => {
                    return Ok(text.clone());
                },
                Part::FileData { .. } => {
                    return Err(PipelineError::ContentError);
                },
            }
        }
    }
    Err(PipelineError::ContentError)
}

/// The grounding snippet a candidate carries: the rendered search entry
/// point, when every optional layer is present.
pub open spec fn spec_search_info(c: Candidate) -> Option<Seq<char>> {
    match c.grounding_metadata {
        Some(gm) => match gm.search_entry_point {
            Some(sep) => match sep.rendered_content {
                Some(rc) => Some(rc@),
                None => None,
            },
            None => None,
        },
        None => None,
    }
}

/// Extracts the rendered search-entry-point snippet from a candidate's
/// grounding evidence, if it is present.
pub fn search_info_of(c: &Candidate) -> (r: Option<String>)
    ensures
        r is Some <==> spec_search_info(*c) is Some,
        r is Some ==> r->0@ == spec_search_info(*c)->0,
{
    match &c.grounding_metadata {
        Some(gm) => match &gm.search_entry_point {
            Some(sep) => match &sep.rendered_content {
                Some(rc) => Some(rc.clone()),
                None => None,
            },
            None => None,
        },
        None => None,
    }
}

/// Reads a whole generation response: the mandatory result text plus,
/// when search augmentation was requested, the optional grounding
/// snippet of the first candidate (a side channel callers may discard).
pub fn read_generation(resp: &GenerateContentResponse, search_enabled: bool) -> (r: Result<
    (String, Option<String>),
    PipelineError,
>)
    ensures
        r is Ok <==> spec_first_text(*resp) is Some,
        r is Ok ==> r->Ok_0.0@ == spec_first_text(*resp)->0,
        r is Ok && search_enabled ==> {
            let info = r->Ok_0.1;
            &&& info is Some <==> spec_search_info(resp.candidates@[0]) is Some
            &&& info is Some ==> info->0@ == spec_search_info(resp.candidates@[0])->0
        },
        r is Ok && !search_enabled ==> r->Ok_0.1 is None,
        r is Err ==> r->Err_0 is ContentError,
{
    let text = match first_text_of_response(resp) {
        Ok(t) => t,
        Err(e) => {
            return Err(e);
        },
    };
    let info: Option<String> = if search_enabled {
        search_info_of(&resp.candidates[0])
    } else {
        None
    };
    Ok((text, info))
}

} // verus!
