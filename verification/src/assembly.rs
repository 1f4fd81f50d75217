//! Assembly: the selected sentences joined into one text that ends with a full stop, and the
//! metadata that goes with it.

use crate::trusted::ends_with_char;
use crate::local_summarizer::{LocalSummary, LocalSummaryView};
use vstd::prelude::*;
use vstd::string::StringExecFns;

verus! {

/// What stands between two sentences of a summary: a full stop and a space.
pub open spec fn separator() -> Seq<char> {
    seq!['.', ' ']
}

/// The sentences in their order with a separator between each two; the empty text where there
/// is no sentence.
pub open spec fn joined(parts: Seq<Seq<char>>) -> Seq<char>
    decreases parts.len(),
{
    if parts.len() == 0 {
        Seq::empty()
    } else if parts.len() == 1 {
        parts[0]
    } else {
        joined(parts.drop_last()) + separator() + parts.last()
    }
}

/// `text` if it ends with a full stop, else `text` with one added.
pub open spec fn terminated(text: Seq<char>) -> Seq<char> {
    if text.len() > 0 && text.last() == '.' {
        text
    } else {
        text.push('.')
    }
}

/// The summary text of a selection. No sentence gives the text of one full stop.
pub open spec fn summary_text(selected: Seq<Seq<char>>) -> Seq<char> {
    terminated(joined(selected))
}

/// Whether the last two characters of `text` are both full stops.
pub open spec fn ends_with_two_stops(text: Seq<char>) -> bool {
    text.len() >= 2 && text[text.len() - 1] == '.' && text[text.len() - 2] == '.'
}

/// A summary text ends with a full stop. It ends with exactly one unless the last selected
/// sentence itself ends with two.
pub proof fn lemma_summary_text_ends_with_one_stop(selected: Seq<Seq<char>>)
    requires
        selected.len() > 0 ==> !ends_with_two_stops(selected.last()),
    ensures
        summary_text(selected).len() >= 1,
        summary_text(selected).last() == '.',
        !ends_with_two_stops(summary_text(selected)),
{
    let text = joined(selected);
    if selected.len() > 1 {
        let head = joined(selected.drop_last()) + separator();
        let tail = selected.last();
        assert(text == head + tail);
        assert(head[head.len() - 1] == ' ');
        assert(head[head.len() - 2] == '.');
        if tail.len() >= 1 {
            assert(text[text.len() - 1] == tail[tail.len() - 1]);
        }
        if tail.len() >= 2 {
            assert(text[text.len() - 2] == tail[tail.len() - 2]);
        } else if tail.len() == 1 {
            assert(text[text.len() - 2] == head[head.len() - 1]);
        } else {
            assert(text[text.len() - 1] == head[head.len() - 1]);
        }
    }
}

/// The metadata that accompanies a summary text.
#[derive(Debug, Clone)]
pub struct Metadata {
    pub relevance_to_officials: Vec<String>,
    pub action_items: Vec<String>,
    pub confidence_estimate: String,
}

/// A `Metadata` as sequences of characters.
pub ghost struct MetadataView {
    pub relevance_to_officials: Seq<Seq<char>>,
    pub action_items: Seq<Seq<char>>,
    pub confidence_estimate: Seq<char>,
}

impl View for Metadata {
    type V = MetadataView;

    open spec fn view(&self) -> MetadataView {
        MetadataView {
            relevance_to_officials: self.relevance_to_officials.deep_view(),
            action_items: self.action_items.deep_view(),
            confidence_estimate: self.confidence_estimate@,
        }
    }
}

/// A way to find the metadata of a document. Nothing is asked of what an extractor finds.
pub trait MetadataExtractor {
    /// Finds the metadata of `text`.
    fn extract(&self, text: &str) -> Metadata;
}

/// The extractor in use until documents are analysed: it reads nothing and answers with the
/// same metadata for every text.
#[derive(Debug, Clone, Copy)]
pub struct PlaceholderMetadata;

/// The metadata that `PlaceholderMetadata` gives.
pub open spec fn placeholder_metadata() -> MetadataView {
    MetadataView {
        relevance_to_officials: seq!["Deadline: 15 Sep"@, "Tender value: ₹2 Cr"@],
        action_items: seq!["Prepare bid"@, "Upload documents"@],
        confidence_estimate: "medium"@,
    }
}

impl MetadataExtractor for PlaceholderMetadata {
    fn extract(&self, text: &str) -> (metadata: Metadata)
        ensures
            metadata@ == placeholder_metadata(),
    {
        let mut relevance_to_officials: Vec<String> = Vec::new();
        relevance_to_officials.push("Deadline: 15 Sep".to_owned());
        relevance_to_officials.push("Tender value: ₹2 Cr".to_owned());
        let mut action_items: Vec<String> = Vec::new();
        action_items.push("Prepare bid".to_owned());
        action_items.push("Upload documents".to_owned());
        let metadata = Metadata {
            relevance_to_officials,
            action_items,
            confidence_estimate: "medium".to_owned(),
        };
        assert(metadata@.relevance_to_officials =~= placeholder_metadata().relevance_to_officials);
        assert(metadata@.action_items =~= placeholder_metadata().action_items);
        metadata
    }
}

/// The summary of a selection with the given metadata.
pub open spec fn assembled_with(
    selected: Seq<Seq<char>>,
    metadata: MetadataView,
) -> LocalSummaryView {
    LocalSummaryView {
        short_summary: summary_text(selected),
        relevance_to_officials: metadata.relevance_to_officials,
        action_items: metadata.action_items,
        confidence_estimate: metadata.confidence_estimate,
    }
}

/// The summary of a selection with the placeholder metadata.
pub open spec fn assembled(selected: Seq<Seq<char>>) -> LocalSummaryView {
    assembled_with(selected, placeholder_metadata())
}

/// Joins the sentences with a full stop and a space between each two.
pub fn join_sentences(parts: &Vec<String>) -> (text: String)
    ensures
        text@ == joined(parts.deep_view()),
{
    let ghost all = parts.deep_view();
    let mut text = String::new();
    let mut i: usize = 0;
    assert(all.take(0) =~= Seq::empty());
    while i < parts.len()
        invariant
            i <= parts.len(),
            all == parts.deep_view(),
            text@ == joined(all.take(i as int)),
        decreases parts.len() - i,
    {
        let ghost so_far = text@;
        if i > 0 {
            text.push('.');
            text.push(' ');
            assert(text@ =~= so_far + separator());
        }
        text.append(parts[i].as_str());
        proof {
            let now = all.take(i + 1);
            assert(now.drop_last() =~= all.take(i as int));
            assert(now.last() == parts[i as int]@);
            if i == 0 {
                assert(text@ =~= now[0]);
            }
        }
        i += 1;
    }
    assert(all.take(parts.len() as int) =~= all);
    text
}

/// Puts a full stop at the end of `text` unless one is there.
pub fn terminate(text: String) -> (ended: String)
    ensures
        ended@ == terminated(text@),
{
    let mut ended = text;
    if !ends_with_char(ended.as_str(), '.') {
        ended.push('.');
    }
    ended
}

/// Assembles the summary of the selected sentences with the given metadata.
pub fn assemble_with(selected: &Vec<String>, metadata: Metadata) -> (summary: LocalSummary)
    ensures
        summary@ == assembled_with(selected.deep_view(), metadata@),
{
    LocalSummary {
        short_summary: terminate(join_sentences(selected)),
        relevance_to_officials: metadata.relevance_to_officials,
        action_items: metadata.action_items,
        confidence_estimate: metadata.confidence_estimate,
    }
}

/// Assembles the summary of the selected sentences with the placeholder metadata. An empty
/// selection gives a summary text of one full stop.
pub fn assemble(selected: &Vec<String>) -> (summary: LocalSummary)
    ensures
        summary@ == assembled(selected.deep_view()),
{
    let metadata = PlaceholderMetadata.extract("");
    assemble_with(selected, metadata)
}

} // verus!
