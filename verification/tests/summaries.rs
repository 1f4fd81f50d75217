use regex::Regex;
use std::cmp::Reverse;
use std::collections::BTreeMap;
use summarizer::assembly::{Metadata, MetadataExtractor, PlaceholderMetadata};
use unicode_segmentation::UnicodeSegmentation;
use summarizer::local_summarizer::{
    select_from_text, select_sentences, summarize, summarize_text_local, summarize_with,
    SummarizeError,
};

fn text_of(text: &str, limit: usize) -> String {
    summarize(text, limit).expect("the text is not blank").short_summary
}

#[test]
fn empty_text_is_refused_for_every_limit() {
    for limit in [0usize, 1, 5, usize::MAX] {
        assert!(matches!(summarize("", limit), Err(SummarizeError::EmptyInput)));
        assert!(summarize_text_local("", limit).is_none());
    }
}

#[test]
fn white_space_alone_is_refused_for_every_limit() {
    for text in ["   ", " ", "\n", "\t \r\n", "\u{a0}\u{2003}\u{3000}"] {
        for limit in [0usize, 1, 5] {
            assert!(matches!(summarize(text, limit), Err(SummarizeError::EmptyInput)));
            assert!(summarize_text_local(text, limit).is_none());
        }
    }
}

#[test]
fn terminators_alone_are_not_blank() {
    assert_eq!(text_of("...", 3), ".");
    assert_eq!(text_of(" . ! ? ", 3), ".");
}

#[test]
fn zero_selection_gives_a_single_full_stop() {
    let summary = summarize("A. B. C.", 0).expect("the text is not blank");
    assert_eq!(summary.short_summary, ".");
    assert_eq!(text_of("Anything at all", 0), ".");
}

#[test]
fn duplicate_sentences_tie_and_the_first_one_wins() {
    let text = "The bid deadline is near. The bid deadline is near. Submit documents now.";
    let summary = text_of(text, 1);
    assert_eq!(summary, "The bid deadline is near.");
    assert!(summary.ends_with('.'));
    assert!(!summary.ends_with(".."));
}

#[test]
fn sentences_keep_their_surface_form() {
    let text = "The bid deadline is near. The bid deadline is near. Submit documents now.";
    assert_eq!(text_of(text, 2), "The bid deadline is near.  The bid deadline is near.");
    assert_eq!(
        text_of(text, 3),
        "The bid deadline is near.  The bid deadline is near.  Submit documents now."
    );
}

#[test]
fn the_sentence_dense_in_a_frequent_term_is_selected() {
    assert_eq!(text_of("Bid bid bid bid bid. A note on something else.", 1), "Bid bid bid bid bid.");
    assert_eq!(text_of("A note on something else. Bid bid bid bid bid bid.", 1), " Bid bid bid bid bid bid.");
}

#[test]
fn longer_sentences_are_favoured() {
    // every word occurs once: the score is the number of words
    assert_eq!(text_of("One two. Three four five. Six.", 1), " Three four five.");
    assert_eq!(text_of("One two. Three four five. Six.", 2), " Three four five. One two.");
}

#[test]
fn equal_scores_keep_the_order_of_the_text() {
    assert_eq!(text_of("One two. Three four. Five six.", 2), "One two.  Three four.");
    assert_eq!(text_of("One two. Three four. Five six.", 3), "One two.  Three four.  Five six.");
    assert_eq!(text_of("Low. Tie one. High high high. Tie two.", 3), " High high high.  Tie one.  Tie two.");
}

#[test]
fn a_limit_beyond_the_sentence_count_takes_every_sentence() {
    assert_eq!(text_of("A. B.", 10), "A.  B.");
    assert_eq!(text_of("A. B.", usize::MAX), "A.  B.");
    assert_eq!(text_of("Only one", 5), "Only one.");
}

#[test]
fn the_number_of_sentences_is_the_smaller_of_limit_and_count() {
    let text = "Alpha one. Beta two. Gamma three. Delta four.";
    for limit in 0usize..7 {
        let selected = select_from_text(text, limit).expect("the text is not blank");
        assert_eq!(selected.len(), limit.min(4));
    }
    assert_eq!(select_from_text("...", 3), Ok(Vec::new()));
    assert_eq!(select_from_text(" \n", 3), Err(SummarizeError::EmptyInput));
}

#[test]
fn the_selection_is_what_the_summary_joins() {
    let text = "Low. Tie one. High high high. Tie two.";
    assert_eq!(
        select_from_text(text, 3),
        Ok(vec![" High high high".to_string(), " Tie one".to_string(), " Tie two".to_string()])
    );
    assert_eq!(select_from_text(text, 0), Ok(Vec::new()));
}

#[test]
fn summaries_are_the_same_on_every_call() {
    let text = "Tenders close on Friday! Are the documents ready? Upload the documents. Friday is near.";
    for limit in 0usize..6 {
        let first = summarize(text, limit).expect("the text is not blank");
        let second = summarize(text, limit).expect("the text is not blank");
        assert_eq!(first.short_summary, second.short_summary);
        assert_eq!(first.relevance_to_officials, second.relevance_to_officials);
        assert_eq!(first.action_items, second.action_items);
        assert_eq!(first.confidence_estimate, second.confidence_estimate);
    }
}

#[test]
fn case_is_folded_for_counting_only() {
    // "bid" occurs three times in three spellings
    assert_eq!(text_of("Other words. BID Bid bid.", 1), " BID Bid bid.");
}

#[test]
fn words_follow_unicode_boundaries() {
    // "can't" is one word, so the first sentence has three words of frequency one and the
    // second has two of frequency two
    assert_eq!(text_of("We can't wait! Rain rain", 1), " Rain rain.");
    assert_eq!(text_of("Ärger über Öl. Öl öl öl", 1), " Öl öl öl.");
}

#[test]
fn every_summary_ends_with_exactly_one_full_stop() {
    for text in ["A. B. C.", "No terminator", "What?! Really... Yes!", "x", "a.b.c", "...", "end. "] {
        for limit in 0usize..4 {
            let summary = text_of(text, limit);
            assert!(summary.ends_with('.'));
            assert!(!summary.ends_with(".."));
        }
    }
}

#[test]
fn the_metadata_is_the_placeholder() {
    let summary = summarize("Some text.", 1).expect("the text is not blank");
    assert_eq!(summary.relevance_to_officials, vec!["Deadline: 15 Sep".to_string(), "Tender value: ₹2 Cr".to_string()]);
    assert_eq!(summary.action_items, vec!["Prepare bid".to_string(), "Upload documents".to_string()]);
    assert_eq!(summary.confidence_estimate, "medium");
    let local = summarize_text_local("Some text.", 1).expect("the text is not blank");
    assert_eq!(local.short_summary, "Some text.");
    assert_eq!(local.relevance_to_officials, summary.relevance_to_officials);
    assert_eq!(local.action_items, summary.action_items);
    assert_eq!(local.confidence_estimate, "medium");
}

#[derive(Debug, Clone, Copy)]
struct Lengths;

impl MetadataExtractor for Lengths {
    fn extract(&self, text: &str) -> Metadata {
        Metadata {
            relevance_to_officials: vec![text.len().to_string()],
            action_items: Vec::new(),
            confidence_estimate: "exact".to_string(),
        }
    }
}

#[test]
fn another_extractor_replaces_the_metadata_only() {
    let summary = summarize_with("One two. Three.", 1, &Lengths).expect("the text is not blank");
    assert_eq!(summary.short_summary, "One two.");
    assert_eq!(summary.relevance_to_officials, vec!["15".to_string()]);
    assert!(summary.action_items.is_empty());
    assert_eq!(summary.confidence_estimate, "exact");
    assert!(matches!(summarize_with("  ", 1, &Lengths), Err(SummarizeError::EmptyInput)));
    let placeholder = PlaceholderMetadata.extract("whatever");
    assert_eq!(placeholder.confidence_estimate, "medium");
}

fn strings(items: &[&str]) -> Vec<String> {
    items.iter().map(|item| item.to_string()).collect()
}

#[test]
fn selection_works_on_given_sentences_and_tokens() {
    let sentences = strings(&["first", "second", "third"]);
    let tokens = vec![strings(&["a"]), strings(&["b", "b", "a"]), strings(&["c", "b"])];
    // a: 2, b: 3, c: 1; scores 2, 8, 4
    assert_eq!(select_sentences(&sentences, &tokens, 0), Vec::<String>::new());
    assert_eq!(select_sentences(&sentences, &tokens, 1), strings(&["second"]));
    assert_eq!(select_sentences(&sentences, &tokens, 2), strings(&["second", "third"]));
    assert_eq!(select_sentences(&sentences, &tokens, 9), strings(&["second", "third", "first"]));
    // a sentence without tokens scores nothing
    let silent = vec![Vec::new(), strings(&["x"])];
    assert_eq!(select_sentences(&strings(&["--", "x"]), &silent, 2), strings(&["x", "--"]));
}

fn lower_words(sentence: &str) -> Vec<String> {
    sentence.unicode_words().map(str::to_lowercase).collect()
}

/// The summary text by the rules as they read, with the pattern library, a map and a stable
/// sort doing the work.
fn plain_summary(text: &str, limit: usize) -> Option<String> {
    if text.chars().all(char::is_whitespace) {
        return None;
    }
    let boundary = Regex::new("[.!?]+").expect("the pattern is valid");
    let sentences: Vec<&str> =
        boundary.split(text).filter(|piece| !piece.trim().is_empty()).collect();
    let mut counts: BTreeMap<String, u128> = BTreeMap::new();
    for sentence in &sentences {
        for word in lower_words(sentence) {
            *counts.entry(word).or_default() += 1;
        }
    }
    let mut ranked: Vec<(u128, &str)> = sentences
        .iter()
        .map(|sentence| (lower_words(sentence).iter().map(|word| counts[word]).sum(), *sentence))
        .collect();
    ranked.sort_by_key(|(score, _)| Reverse(*score));
    let chosen: Vec<&str> = ranked.iter().take(limit).map(|(_, sentence)| *sentence).collect();
    let mut joined = chosen.join(". ");
    if !joined.ends_with('.') {
        joined.push('.');
    }
    Some(joined)
}

#[test]
fn summaries_agree_with_a_plain_reading_of_the_rules() {
    let texts = [
        "",
        "  \n\t",
        "...",
        "A. B. C.",
        "The bid deadline is near. The bid deadline is near. Submit documents now.",
        "Tenders close on Friday! Are the documents ready? Upload the documents. Friday is near.",
        "Pi is 3.14 and e is 2.71. Numbers, numbers: 1,000 and 2,000! What's next?",
        "Ärger über Öl. ÖL wird teurer! Was kostet Öl?\nNiemand weiß es...",
        "日本語の文。 Mixed 日本語 text. 東京 Tokyo 東京. tokyo!",
        "e.g. the U.S.A. is abbreviated. So is i.e. here.",
        "No terminator at all but many many many words words",
        "One.Two.Three.Four.Five.Six.Seven",
        "  leading space. trailing space  .  ",
        "Same same. Same same. Same same. Other.",
        "can't won't don't. Can't stop! WON'T stop? don't",
        "a b c d e f g h i j k l m n o p q r s t u v w x y z. a. b b. c c c. z z z z",
    ];
    for text in texts {
        for limit in 0usize..7 {
            let expected = plain_summary(text, limit);
            let found = summarize(text, limit).ok().map(|summary| summary.short_summary);
            assert_eq!(found, expected);
            let local = summarize_text_local(text, limit).map(|summary| summary.short_summary);
            assert_eq!(local, expected);
        }
    }
}
