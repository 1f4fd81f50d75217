//! The remote summarizer's side of the conversation: the request that is sent for a document
//! and what is read out of the answer. Sending and receiving are the caller's business.

use vstd::prelude::*;
use vstd::string::StringExecFns;

verus! {

/// The body of a request.
pub struct GeminiRequest {
    pub contents: Vec<Content>,
}

/// One message of a request.
pub struct Content {
    pub parts: Vec<Part>,
}

/// One piece of a message.
pub struct Part {
    pub text: String,
}

/// The body of an answer.
pub struct GeminiResponse {
    pub candidates: Vec<Candidate>,
}

/// One proposed answer.
pub struct Candidate {
    pub content: ContentResponse,
}

/// The message of a proposed answer.
pub struct ContentResponse {
    pub parts: Vec<PartResponse>,
}

/// One piece of an answer's message.
pub struct PartResponse {
    pub text: String,
}

/// What the prompt says before the document's text.
pub const PROMPT_INTRODUCTION: &'static str =
    "Summarize the following PDF text in a natural, unstructured way. Provide key insights, deadlines, action items, and any relevant details for officials.\n\n        Text: ";

/// The address of the service, up to the key.
pub const ENDPOINT: &'static str =
    "https://generativelanguage.googleapis.com/v1beta/models/gemini-2.0-flash:generateContent?key=";

/// What `first_text` reports for an answer without candidates.
pub const NO_CANDIDATES: &'static str = "No candidates in response";

/// What `first_text` reports for an answer whose first candidate is empty.
pub const NO_TEXT: &'static str = "No text in response";

/// The prompt for a document: the introduction, then the document's text.
pub open spec fn prompt_text(text: Seq<char>) -> Seq<char> {
    PROMPT_INTRODUCTION@ + text
}

/// Writes the prompt for a document.
pub fn prompt_for(text: &str) -> (prompt: String)
    ensures
        prompt@ == prompt_text(text@),
{
    PROMPT_INTRODUCTION.to_owned().concat(text)
}

/// Builds the request for a document: one message of one piece, which holds the prompt.
pub fn request_for(text: &str) -> (request: GeminiRequest)
    ensures
        request.contents.len() == 1,
        request.contents[0].parts.len() == 1,
        request.contents[0].parts[0].text@ == prompt_text(text@),
{
    let mut parts: Vec<Part> = Vec::new();
    parts.push(Part { text: prompt_for(text) });
    let mut contents: Vec<Content> = Vec::new();
    contents.push(Content { parts });
    GeminiRequest { contents }
}

/// Writes the address to which a request goes with the given key.
pub fn endpoint_for(api_key: &str) -> (url: String)
    ensures
        url@ == ENDPOINT@ + api_key@,
{
    ENDPOINT.to_owned().concat(api_key)
}

/// Reads the summary out of an answer: the first piece of the first candidate. An answer
/// without candidates, and one whose first candidate has no piece, is an error.
pub fn first_text(response: &GeminiResponse) -> (text: Result<String, String>)
    ensures
        match text {
            Ok(found) => {
                &&& response.candidates.len() > 0
                &&& response.candidates[0].content.parts.len() > 0
                &&& found@ == response.candidates[0].content.parts[0].text@
            },
            Err(message) => if response.candidates.len() == 0 {
                message@ == NO_CANDIDATES@
            } else {
                response.candidates[0].content.parts.len() == 0 && message@ == NO_TEXT@
            },
        },
{
    if response.candidates.len() == 0 {
        return Err(NO_CANDIDATES.to_owned());
    }
    let candidate = &response.candidates[0];
    if candidate.content.parts.len() == 0 {
        return Err(NO_TEXT.to_owned());
    }
    Ok(candidate.content.parts[0].text.clone())
}

} // verus!
