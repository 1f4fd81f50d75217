//! The local summarizer: from a text to the few sentences that say most of what it says.

use crate::assembly::{
    assemble, assemble_with, assembled, ends_with_two_stops, lemma_summary_text_ends_with_one_stop,
    summary_text, MetadataExtractor,
};
use crate::chars::is_blank;
use crate::frequency::{all_words, count_words, word_counts};
use crate::ranking::{
    lemma_highest_score_leads, lemma_ranking_of_first, outranks, positions, ranking, select_top,
    top_ranked,
};
use crate::scoring::{as_nats, saliences, score_sentences};
use crate::sentences::{
    free_of_terminators, lemma_sentences, sentences_of, split_sentences, total_chars,
};
pub use crate::sentences::SummarizeError;
use crate::words::{tokenize_each, tokens_of_each};
use vstd::prelude::*;
use vstd::string::StringSliceAdditionalSpecFns;
use vstd::utf8::{encode_scalar, encode_utf8};

verus! {

/// A summary of a document.
#[derive(Debug, Clone)]
pub struct LocalSummary {
    pub short_summary: String,
    pub relevance_to_officials: Vec<String>,
    pub action_items: Vec<String>,
    pub confidence_estimate: String,
}

/// A `LocalSummary` as sequences of characters.
pub ghost struct LocalSummaryView {
    pub short_summary: Seq<char>,
    pub relevance_to_officials: Seq<Seq<char>>,
    pub action_items: Seq<Seq<char>>,
    pub confidence_estimate: Seq<char>,
}

impl View for LocalSummary {
    type V = LocalSummaryView;

    open spec fn view(&self) -> LocalSummaryView {
        LocalSummaryView {
            short_summary: self.short_summary@,
            relevance_to_officials: self.relevance_to_officials.deep_view(),
            action_items: self.action_items.deep_view(),
            confidence_estimate: self.confidence_estimate@,
        }
    }
}

/// The scores of the sentences of a document, given the tokens of each.
pub open spec fn document_scores(tokens: Seq<Seq<Seq<char>>>) -> Seq<nat> {
    saliences(tokens, word_counts(all_words(tokens)))
}

/// The positions of the sentences that a summary of at most `limit` sentences takes, best first.
pub open spec fn selected_positions(tokens: Seq<Seq<Seq<char>>>, limit: nat) -> Seq<int> {
    top_ranked(document_scores(tokens), limit)
}

/// The sentences that a summary of at most `limit` sentences takes, best first.
pub open spec fn selected_sentences(
    sentences: Seq<Seq<char>>,
    tokens: Seq<Seq<Seq<char>>>,
    limit: nat,
) -> Seq<Seq<char>> {
    selected_positions(tokens, limit).map_values(|at: int| sentences[at])
}

/// The sentences of `text` that its summary of at most `limit` sentences takes, best first.
pub open spec fn selection_of(text: Seq<char>, limit: nat) -> Seq<Seq<char>> {
    selected_sentences(sentences_of(text), tokens_of_each(sentences_of(text)), limit)
}

/// The scores of the sentences of `text`, in the order of the text.
pub open spec fn scores_of(text: Seq<char>) -> Seq<nat> {
    document_scores(tokens_of_each(sentences_of(text)))
}

/// Where in `text` the sentences of its summary stand: for each sentence of the summary, best
/// first, its number among the sentences of the text.
pub open spec fn places_of(text: Seq<char>, limit: nat) -> Seq<int> {
    selected_positions(tokens_of_each(sentences_of(text)), limit)
}

/// The summary of `text` in at most `limit` sentences, with the placeholder metadata; none
/// where the text is blank.
pub open spec fn summary_of(text: Seq<char>, limit: nat) -> Option<LocalSummaryView> {
    if is_blank(text) {
        None
    } else {
        Some(assembled(selection_of(text, limit)))
    }
}

/// The number of sentences in a summary is the limit, or the number of sentences in the text
/// where that is smaller.
pub proof fn lemma_selection_length(text: Seq<char>, limit: nat)
    ensures
        selection_of(text, limit).len() == if limit <= sentences_of(text).len() {
            limit
        } else {
            sentences_of(text).len()
        },
        places_of(text, limit).len() == selection_of(text, limit).len(),
        scores_of(text).len() == sentences_of(text).len(),
{
    lemma_ranking_of_first(scores_of(text), sentences_of(text).len());
}

/// Each sentence of a summary is a sentence of the text, and none is taken twice.
pub proof fn lemma_selection_from_text(text: Seq<char>, limit: nat)
    ensures
        forall|k: int|
            0 <= k < selection_of(text, limit).len() ==> {
                &&& 0 <= #[trigger] places_of(text, limit)[k] < sentences_of(text).len()
                &&& selection_of(text, limit)[k] == sentences_of(text)[places_of(text, limit)[k]]
            },
        forall|a: int, b: int|
            0 <= a < b < selection_of(text, limit).len() ==> places_of(text, limit)[a]
                != places_of(text, limit)[b],
{
    let scores = scores_of(text);
    let places = places_of(text, limit);
    lemma_ranking_of_first(scores, sentences_of(text).len());
    assert forall|k: int| 0 <= k < places.len() implies 0 <= #[trigger] places[k] < sentences_of(
        text,
    ).len() by {
        assert(places[k] == ranking(scores)[k]);
    }
    assert forall|a: int, b: int| 0 <= a < b < places.len() implies places[a] != places[b] by {
        assert(places[a] == ranking(scores)[a]);
        assert(places[b] == ranking(scores)[b]);
    }
}

/// In a summary, a sentence with a higher score stands before one with a lower score, and of
/// two sentences with the same score the one that is earlier in the text stands first.
pub proof fn lemma_selection_order(text: Seq<char>, limit: nat, a: int, b: int)
    requires
        0 <= a < b < selection_of(text, limit).len(),
    ensures
        scores_of(text)[places_of(text, limit)[a]] >= scores_of(text)[places_of(text, limit)[b]],
        scores_of(text)[places_of(text, limit)[a]] == scores_of(text)[places_of(text, limit)[b]]
            ==> places_of(text, limit)[a] < places_of(text, limit)[b],
{
    let scores = scores_of(text);
    lemma_ranking_of_first(scores, sentences_of(text).len());
    assert(places_of(text, limit)[a] == ranking(scores)[a]);
    assert(places_of(text, limit)[b] == ranking(scores)[b]);
    assert(outranks(scores, ranking(scores)[a], ranking(scores)[b]));
}

/// Every sentence that a summary leaves out scores no more than each sentence that it takes,
/// and where it scores the same it is later in the text.
pub proof fn lemma_selection_is_best(text: Seq<char>, limit: nat, taken: int, left: int)
    requires
        0 <= taken < selection_of(text, limit).len(),
        0 <= left < sentences_of(text).len(),
        !places_of(text, limit).contains(left),
    ensures
        scores_of(text)[places_of(text, limit)[taken]] >= scores_of(text)[left],
        scores_of(text)[places_of(text, limit)[taken]] == scores_of(text)[left] ==> places_of(
            text,
            limit,
        )[taken] < left,
{
    let scores = scores_of(text);
    lemma_ranking_of_first(scores, sentences_of(text).len());
    let places = places_of(text, limit);
    let order = ranking(scores);
    assert(order.contains(left));
    let at = choose|at: int| 0 <= at < order.len() && order[at] == left;
    if at < places.len() {
        assert(places[at] == left);
    }
    assert(places[taken] == order[taken]);
    assert(outranks(scores, order[taken], order[at]));
}

/// Where one sentence of a text scores more than every other, as one does in which a frequent
/// word stands more densely than in the rest, a summary of one sentence or more begins with it.
pub proof fn lemma_most_salient_sentence_leads(text: Seq<char>, limit: nat, best: int)
    requires
        limit >= 1,
        0 <= best < sentences_of(text).len(),
        forall|other: int|
            0 <= other < sentences_of(text).len() && other != best ==> scores_of(text)[best]
                > scores_of(text)[other],
    ensures
        selection_of(text, limit).len() >= 1,
        selection_of(text, limit)[0] == sentences_of(text)[best],
{
    lemma_selection_length(text, limit);
    lemma_highest_score_leads(scores_of(text), best);
    lemma_ranking_of_first(scores_of(text), sentences_of(text).len());
    assert(places_of(text, limit)[0] == ranking(scores_of(text))[0]);
}

/// A blank text has no summary, whatever the limit, and the empty text is blank.
pub proof fn lemma_blank_text_has_no_summary(text: Seq<char>, limit: nat)
    ensures
        is_blank(text) <==> summary_of(text, limit) is None,
        is_blank(Seq::<char>::empty()),
{
}

/// With a limit of zero the summary of a text that is not blank is a single full stop.
pub proof fn lemma_zero_selection(text: Seq<char>)
    requires
        !is_blank(text),
    ensures
        summary_of(text, 0) is Some,
        summary_of(text, 0)->0.short_summary == seq!['.'],
{
    lemma_selection_length(text, 0);
    assert(selection_of(text, 0) =~= Seq::empty());
    assert(summary_text(Seq::empty()) =~= seq!['.']);
}

/// The summary text of any text ends with exactly one full stop.
pub proof fn lemma_summary_ends_with_one_stop(text: Seq<char>, limit: nat)
    requires
        !is_blank(text),
    ensures
        summary_of(text, limit) is Some,
        summary_of(text, limit)->0.short_summary.len() >= 1,
        summary_of(text, limit)->0.short_summary.last() == '.',
        !ends_with_two_stops(summary_of(text, limit)->0.short_summary),
{
    let selected = selection_of(text, limit);
    if selected.len() > 0 {
        lemma_selection_from_text(text, limit);
        lemma_sentences(text);
        let last = selected.len() - 1;
        let at = places_of(text, limit)[last];
        assert(selected[last] == sentences_of(text)[at]);
        assert(free_of_terminators(sentences_of(text)[at]));
        if selected.last().len() >= 1 {
            assert(selected.last()[selected.last().len() - 1] != '.');
        }
    }
    lemma_summary_text_ends_with_one_stop(selected);
}

/// Whether `outcome` is what summarizing `text` in at most `limit` sentences gives.
pub open spec fn is_outcome(
    text: Seq<char>,
    limit: nat,
    outcome: Result<LocalSummary, SummarizeError>,
) -> bool {
    match outcome {
        Ok(summary) => summary_of(text, limit) == Some(summary@),
        Err(error) => error == SummarizeError::EmptyInput && summary_of(text, limit) is None,
    }
}

/// Summarizing the same text with the same limit twice gives the same outcome: two errors, or
/// two summaries with the same content.
pub proof fn lemma_summarize_deterministic(
    text: Seq<char>,
    limit: nat,
    first: Result<LocalSummary, SummarizeError>,
    second: Result<LocalSummary, SummarizeError>,
)
    requires
        is_outcome(text, limit, first),
        is_outcome(text, limit, second),
    ensures
        first is Ok <==> second is Ok,
        first is Ok ==> first->Ok_0@ == second->Ok_0@,
        first is Err ==> first->Err_0 == second->Err_0,
{
}

proof fn lemma_encoding_length(chars: Seq<char>)
    ensures
        chars.len() <= encode_utf8(chars).len(),
    decreases chars.len(),
{
    if chars.len() > 0 {
        lemma_encoding_length(chars.drop_first());
        assert(encode_scalar(chars[0] as u32).len() >= 1);
    }
}

proof fn lemma_words_fit(sentences: Seq<Seq<char>>, tokens: Seq<Seq<Seq<char>>>)
    requires
        sentences.len() == tokens.len(),
        forall|k: int|
            0 <= k < tokens.len() ==> (#[trigger] tokens[k]).len() <= sentences[k].len(),
    ensures
        all_words(tokens).len() <= total_chars(sentences),
    decreases tokens.len(),
{
    if tokens.len() > 0 {
        let fewer = tokens.drop_last();
        assert forall|k: int| 0 <= k < fewer.len() implies (#[trigger] fewer[k]).len()
            <= sentences.drop_last()[k].len() by {
            assert(fewer[k] == tokens[k]);
        }
        lemma_words_fit(sentences.drop_last(), tokens.drop_last());
        assert(tokens.last() == tokens[tokens.len() - 1]);
    }
}

/// Picks the sentences for a summary of at most `limit` sentences, best first, from the
/// sentences of a document and the tokens of each.
pub fn select_sentences(
    sentences: &Vec<String>,
    tokens: &Vec<Vec<String>>,
    limit: usize,
) -> (selected: Vec<String>)
    requires
        sentences.len() == tokens.len(),
        all_words(tokens.deep_view()).len() <= usize::MAX,
    ensures
        selected.deep_view() == selected_sentences(
            sentences.deep_view(),
            tokens.deep_view(),
            limit as nat,
        ),
{
    let table = count_words(tokens);
    let scores = score_sentences(tokens, &table);
    let picked = select_top(&scores, limit);
    let ghost wanted = selected_sentences(sentences.deep_view(), tokens.deep_view(), limit as nat);
    let mut selected: Vec<String> = Vec::new();
    let mut k: usize = 0;
    while k < picked.len()
        invariant
            k <= picked.len(),
            selected.len() == k,
            sentences.len() == tokens.len(),
            as_nats(scores@).len() == tokens.len(),
            forall|i: int| 0 <= i < picked.len() ==> #[trigger] picked[i] < scores.len(),
            forall|i: int|
                0 <= i < k ==> (#[trigger] selected[i])@ == sentences[picked[i] as int]@,
        decreases picked.len() - k,
    {
        selected.push(sentences[picked[k]].clone());
        k += 1;
    }
    proof {
        assert(wanted.len() == picked.len()) by {
            assert(positions(picked@).len() == picked.len());
        }
        assert forall|i: int| 0 <= i < selected.len() implies selected.deep_view()[i]
            == wanted[i] by {
            assert(positions(picked@)[i] == picked[i]);
        }
        assert(selected.deep_view() =~= wanted);
    }
    selected
}

/// Picks the sentences for a summary of `text` in at most `limit` sentences, best first. A
/// blank text is refused.
pub fn select_from_text(text: &str, limit: usize) -> (outcome: Result<
    Vec<String>,
    SummarizeError,
>)
    ensures
        match outcome {
            Ok(selected) => {
                &&& !is_blank(text@)
                &&& selected.deep_view() == selection_of(text@, limit as nat)
                &&& selected.len() == if limit <= sentences_of(text@).len() {
                    limit as nat
                } else {
                    sentences_of(text@).len()
                }
            },
            Err(error) => error == SummarizeError::EmptyInput && is_blank(text@),
        },
{
    let sentences = match split_sentences(text) {
        Ok(sentences) => sentences,
        Err(error) => {
            return Err(error);
        },
    };
    let tokens = tokenize_each(&sentences);
    let bytes = text.as_bytes();
    proof {
        // the words of the document are no more than its characters, its characters no more
        // than its bytes, and those are counted by a `usize`
        lemma_encoding_length(text@);
        lemma_sentences(text@);
        lemma_words_fit(sentences.deep_view(), tokens.deep_view());
        assert(bytes@.len() == bytes.len());
        lemma_selection_length(text@, limit as nat);
    }
    Ok(select_sentences(&sentences, &tokens, limit))
}

/// Summarizes `text` in at most `num_sentences` sentences. A blank text is refused.
pub fn summarize(text: &str, num_sentences: usize) -> (outcome: Result<
    LocalSummary,
    SummarizeError,
>)
    ensures
        is_outcome(text@, num_sentences as nat, outcome),
{
    match select_from_text(text, num_sentences) {
        Ok(selected) => Ok(assemble(&selected)),
        Err(error) => Err(error),
    }
}

/// Summarizes `text` in at most `num_sentences` sentences, with the metadata that `extractor`
/// finds in the text. The summary text is that of `summarize`; the metadata is whatever the
/// extractor gave. A blank text is refused, and the extractor is not asked.
pub fn summarize_with<E: MetadataExtractor>(
    text: &str,
    num_sentences: usize,
    extractor: &E,
) -> (outcome: Result<LocalSummary, SummarizeError>)
    ensures
        match outcome {
            Ok(summary) => !is_blank(text@) && summary.short_summary@ == summary_text(
                selection_of(text@, num_sentences as nat),
            ),
            Err(error) => error == SummarizeError::EmptyInput && is_blank(text@),
        },
{
    match select_from_text(text, num_sentences) {
        Ok(selected) => Ok(assemble_with(&selected, extractor.extract(text))),
        Err(error) => Err(error),
    }
}

/// Summarizes `text` in at most `num_sentences` sentences; `None` for a blank text.
pub fn summarize_text_local(text: &str, num_sentences: usize) -> (summary: Option<LocalSummary>)
    ensures
        match summary {
            Some(summary) => summary_of(text@, num_sentences as nat) == Some(summary@),
            None => summary_of(text@, num_sentences as nat) is None,
        },
{
    match summarize(text, num_sentences) {
        Ok(summary) => Some(summary),
        Err(_) => None,
    }
}

} // verus!
