use summarizer::ai_summarization::{
    endpoint_for, first_text, prompt_for, request_for, Candidate, ContentResponse, GeminiResponse,
    PartResponse,
};
use summarizer::{ai_summary, local_summary};

fn answer(candidates: &[&[&str]]) -> GeminiResponse {
    GeminiResponse {
        candidates: candidates
            .iter()
            .map(|parts| Candidate {
                content: ContentResponse {
                    parts: parts.iter().map(|text| PartResponse { text: text.to_string() }).collect(),
                },
            })
            .collect(),
    }
}

#[test]
fn the_prompt_introduces_the_text() {
    assert_eq!(
        prompt_for("abc"),
        "Summarize the following PDF text in a natural, unstructured way. Provide key insights, deadlines, action items, and any relevant details for officials.\n\n        Text: abc"
    );
    assert!(prompt_for("").ends_with("Text: "));
}

#[test]
fn a_request_holds_one_message_of_one_piece() {
    let request = request_for("the document");
    assert_eq!(request.contents.len(), 1);
    assert_eq!(request.contents[0].parts.len(), 1);
    assert_eq!(request.contents[0].parts[0].text, prompt_for("the document"));
}

#[test]
fn the_key_ends_the_address() {
    assert_eq!(
        endpoint_for("k-1"),
        "https://generativelanguage.googleapis.com/v1beta/models/gemini-2.0-flash:generateContent?key=k-1"
    );
}

#[test]
fn the_first_piece_of_the_first_candidate_is_the_summary() {
    assert_eq!(first_text(&answer(&[&["one", "two"], &["three"]])), Ok("one".to_string()));
    assert_eq!(first_text(&answer(&[&[""]])), Ok(String::new()));
}

#[test]
fn an_answer_without_candidates_is_an_error() {
    assert_eq!(first_text(&answer(&[])), Err("No candidates in response".to_string()));
}

#[test]
fn a_first_candidate_without_pieces_is_an_error() {
    assert_eq!(first_text(&answer(&[&[], &["later"]])), Err("No text in response".to_string()));
}

#[test]
fn a_local_summary_has_five_sentences_at_most() {
    let text = "A a a a a a. B b b b b. C c c c. D d d. E e. F. G g g g g g g.".to_string();
    let summary = local_summary(text.clone()).ok().expect("the text is not blank");
    assert_eq!(summary.short_summary, " G g g g g g g. A a a a a a.  B b b b b.  C c c c.  D d d.");
    assert_eq!(summary.relevance_to_officials, vec!["Deadline: 15 Sep".to_string(), "Tender value: ₹2 Cr".to_string()]);
    assert_eq!(summary.action_items, vec!["Prepare bid".to_string(), "Upload documents".to_string()]);
    assert_eq!(summary.confidence_estimate, "medium");
    assert_eq!(summary.raw_text, text);
}

#[test]
fn a_document_without_text_is_reported() {
    assert_eq!(local_summary(String::new()).err(), Some("No text extracted from PDF".to_string()));
    assert_eq!(ai_summary(String::new()).err(), Some("No text extracted from PDF".to_string()));
}

#[test]
fn a_blank_document_has_no_local_summary() {
    assert_eq!(local_summary("  \n ".to_string()).err(), Some("Failed to generate local summary".to_string()));
}

#[test]
fn the_remote_summary_is_a_notice() {
    let summary = ai_summary("  \n ".to_string()).ok().expect("the text is not empty");
    assert_eq!(summary.short_summary, "Coming soon: AI-powered summary.");
    assert_eq!(summary.relevance_to_officials, vec!["Deadline: 15 Sep".to_string(), "Tender value: ₹2 Cr".to_string()]);
    assert_eq!(summary.action_items, vec!["Prepare bid".to_string(), "Upload documents".to_string()]);
    assert_eq!(summary.confidence_estimate, "high");
    assert_eq!(summary.raw_text, "  \n ");
}
