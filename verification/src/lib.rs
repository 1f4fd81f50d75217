//! Extractive summarization of plain text: the sentences of a document are scored by how
//! frequent their words are in it, and the best of them make the summary.

pub mod ai_summarization;
pub mod assembly;
pub mod chars;
pub mod frequency;
pub mod local_summarizer;
pub mod ranking;
pub mod scoring;
pub mod sentences;
pub mod trusted;
pub mod words;

use crate::assembly::{placeholder_metadata, MetadataExtractor, PlaceholderMetadata};
use crate::chars::is_blank;
use crate::local_summarizer::{summarize_text_local, summary_of};
use vstd::prelude::*;

verus! {

/// What the application shows of a document: a summary and the text it was made from.
pub struct Summary {
    pub short_summary: String,
    pub relevance_to_officials: Vec<String>,
    pub action_items: Vec<String>,
    pub confidence_estimate: String,
    pub raw_text: String,
}

/// A `Summary` as sequences of characters.
pub ghost struct SummaryView {
    pub short_summary: Seq<char>,
    pub relevance_to_officials: Seq<Seq<char>>,
    pub action_items: Seq<Seq<char>>,
    pub confidence_estimate: Seq<char>,
    pub raw_text: Seq<char>,
}

impl View for Summary {
    type V = SummaryView;

    open spec fn view(&self) -> SummaryView {
        SummaryView {
            short_summary: self.short_summary@,
            relevance_to_officials: self.relevance_to_officials.deep_view(),
            action_items: self.action_items.deep_view(),
            confidence_estimate: self.confidence_estimate@,
            raw_text: self.raw_text@,
        }
    }
}

/// The number of sentences in a local summary.
pub const LOCAL_SUMMARY_SENTENCES: usize = 5;

/// What is reported for a document from which no text came.
pub const NO_TEXT_EXTRACTED: &'static str = "No text extracted from PDF";

/// What is reported for a document whose text has nothing to summarize.
pub const NO_LOCAL_SUMMARY: &'static str = "Failed to generate local summary";

/// The summary text that stands in for the remote summarizer's.
pub const AI_SUMMARY_NOTICE: &'static str = "Coming soon: AI-powered summary.";

/// The local summary of a document's text, as the application shows it.
pub open spec fn local_summary_of(text: Seq<char>) -> Result<SummaryView, Seq<char>> {
    if text.len() == 0 {
        Err(NO_TEXT_EXTRACTED@)
    } else {
        match summary_of(text, LOCAL_SUMMARY_SENTENCES as nat) {
            Some(summary) => Ok(
                SummaryView {
                    short_summary: summary.short_summary,
                    relevance_to_officials: summary.relevance_to_officials,
                    action_items: summary.action_items,
                    confidence_estimate: summary.confidence_estimate,
                    raw_text: text,
                },
            ),
            None => Err(NO_LOCAL_SUMMARY@),
        }
    }
}

/// What the application shows in place of the remote summarizer's summary.
pub open spec fn ai_summary_of(text: Seq<char>) -> Result<SummaryView, Seq<char>> {
    if text.len() == 0 {
        Err(NO_TEXT_EXTRACTED@)
    } else {
        Ok(
            SummaryView {
                short_summary: AI_SUMMARY_NOTICE@,
                relevance_to_officials: placeholder_metadata().relevance_to_officials,
                action_items: placeholder_metadata().action_items,
                confidence_estimate: "high"@,
                raw_text: text,
            },
        )
    }
}

/// Whether `outcome` holds what `wanted` says: the same summary, or the same message.
pub open spec fn shows(
    outcome: Result<Summary, String>,
    wanted: Result<SummaryView, Seq<char>>,
) -> bool {
    match outcome {
        Ok(summary) => wanted == Ok::<SummaryView, Seq<char>>(summary@),
        Err(message) => wanted == Err::<SummaryView, Seq<char>>(message@),
    }
}

/// Summarizes the text that was extracted from a document in five sentences at most. An empty
/// text and a blank one are reported, each with its own message.
pub fn local_summary(text: String) -> (outcome: Result<Summary, String>)
    ensures
        shows(outcome, local_summary_of(text@)),
{
    if text.as_str().is_empty() {
        return Err(NO_TEXT_EXTRACTED.to_owned());
    }
    match summarize_text_local(text.as_str(), LOCAL_SUMMARY_SENTENCES) {
        Some(summary) => Ok(
            Summary {
                short_summary: summary.short_summary,
                relevance_to_officials: summary.relevance_to_officials,
                action_items: summary.action_items,
                confidence_estimate: summary.confidence_estimate,
                raw_text: text,
            },
        ),
        None => Err(NO_LOCAL_SUMMARY.to_owned()),
    }
}

/// Makes the notice that stands in for the remote summarizer's summary of a document. An empty
/// text is reported.
pub fn ai_summary(text: String) -> (outcome: Result<Summary, String>)
    ensures
        shows(outcome, ai_summary_of(text@)),
{
    if text.as_str().is_empty() {
        return Err(NO_TEXT_EXTRACTED.to_owned());
    }
    let metadata = PlaceholderMetadata.extract(text.as_str());
    Ok(
        Summary {
            short_summary: AI_SUMMARY_NOTICE.to_owned(),
            relevance_to_officials: metadata.relevance_to_officials,
            action_items: metadata.action_items,
            confidence_estimate: "high".to_owned(),
            raw_text: text,
        },
    )
}

} // verus!
