use regex::Regex;
use summarizer::assembly::{assemble, assemble_with, join_sentences, terminate, Metadata};
use summarizer::chars::blank;
use summarizer::frequency::{count_words, FrequencyTable};
use summarizer::ranking::{rank, select_top};
use summarizer::scoring::{score_sentence, score_sentences};
use summarizer::sentences::{cut_sentences, split_sentences, SummarizeError};
use summarizer::words::{tokenize, tokenize_each};

fn owned(items: &[&str]) -> Vec<String> {
    items.iter().map(|item| item.to_string()).collect()
}

#[test]
fn blank_means_white_space_only() {
    assert!(blank(""));
    assert!(blank(" \t\n\r\u{b}\u{c}"));
    assert!(blank("\u{85}\u{a0}\u{1680}\u{2000}\u{200a}\u{2028}\u{2029}\u{202f}\u{205f}\u{3000}"));
    assert!(!blank("a"));
    assert!(!blank("  .  "));
    assert!(!blank("\u{200b}"));
    assert!(!blank("   x"));
}

#[test]
fn a_run_of_terminators_is_one_boundary() {
    assert_eq!(cut_sentences("A. B!? C"), owned(&["A", " B", " C"]));
    assert_eq!(cut_sentences("Wait... what?! Yes."), owned(&["Wait", " what", " Yes"]));
    assert_eq!(split_sentences("A. B!? C"), Ok(owned(&["A", " B", " C"])));
}

#[test]
fn blank_segments_are_dropped() {
    assert_eq!(cut_sentences(""), Vec::<String>::new());
    assert_eq!(cut_sentences("   "), Vec::<String>::new());
    assert_eq!(cut_sentences("..."), Vec::<String>::new());
    assert_eq!(cut_sentences(". . a .\n. b"), owned(&[" a ", " b"]));
    assert_eq!(cut_sentences("?start. end!"), owned(&["start", " end"]));
}

#[test]
fn a_text_without_terminator_is_one_sentence() {
    assert_eq!(cut_sentences("no end in sight"), owned(&["no end in sight"]));
    assert_eq!(cut_sentences("  padded  "), owned(&["  padded  "]));
}

#[test]
fn only_the_three_terminators_cut() {
    assert_eq!(cut_sentences("a, b; c: d\u{ff01} e\u{3002} f"), owned(&["a, b; c: d\u{ff01} e\u{3002} f"]));
    assert_eq!(cut_sentences("3.14 is pi"), owned(&["3", "14 is pi"]));
}

#[test]
fn sentences_are_the_non_blank_pieces_between_pattern_matches() {
    let boundary = Regex::new("[.!?]+").expect("the pattern is valid");
    let texts = [
        "",
        "   ",
        "A. B. C.",
        "Hello world",
        "...",
        "a..b!?c",
        " . . ",
        "Wait... what?! Yes.",
        "no terminator at end",
        "Ünïcödé text. 日本語！ ok? \u{2003}.\u{a0}! done",
        ".leading and trailing.",
        "one.\ntwo!\r\nthree?\tfour",
        "?!.",
        "x",
        ".",
    ];
    for text in texts {
        let expected: Vec<String> = boundary
            .split(text)
            .filter(|piece| !piece.trim().is_empty())
            .map(String::from)
            .collect();
        assert_eq!(cut_sentences(text), expected);
        if text.trim().is_empty() {
            assert_eq!(split_sentences(text), Err(SummarizeError::EmptyInput));
        } else {
            assert_eq!(split_sentences(text), Ok(expected));
        }
    }
}

#[test]
fn a_blank_text_is_refused_before_it_is_cut() {
    assert_eq!(split_sentences(""), Err(SummarizeError::EmptyInput));
    assert_eq!(split_sentences("   "), Err(SummarizeError::EmptyInput));
    assert_eq!(split_sentences(" \t\n\u{a0}"), Err(SummarizeError::EmptyInput));
    assert_eq!(split_sentences("..."), Ok(Vec::new()));
    assert_eq!(split_sentences(" . "), Ok(Vec::new()));
}

#[test]
fn tokens_are_unicode_words_in_lower_case() {
    assert_eq!(
        tokenize("The quick (\"brown\") fox can't jump 32.3 feet, right?"),
        owned(&["the", "quick", "brown", "fox", "can't", "jump", "32.3", "feet", "right"])
    );
    assert_eq!(tokenize("HELLO Wörld ΑΒΓ"), owned(&["hello", "wörld", "αβγ"]));
    assert_eq!(tokenize(" -- ,, !! "), Vec::<String>::new());
    assert_eq!(tokenize(""), Vec::<String>::new());
    assert_eq!(tokenize("Tender value: ₹2 Cr"), owned(&["tender", "value", "2", "cr"]));
}

#[test]
fn each_sentence_is_tokenized_by_itself() {
    let sentences = owned(&["One TWO", "", " three,four "]);
    assert_eq!(tokenize_each(&sentences), vec![owned(&["one", "two"]), Vec::new(), owned(&["three", "four"])]);
    assert_eq!(tokenize_each(&Vec::new()), Vec::<Vec<String>>::new());
}

#[test]
fn a_table_counts_what_is_recorded() {
    let mut table = FrequencyTable::new();
    assert_eq!(table.count(&"bid".to_string()), 0);
    table.record("bid".to_string());
    table.record("now".to_string());
    table.record("bid".to_string());
    assert_eq!(table.count(&"bid".to_string()), 2);
    assert_eq!(table.count(&"now".to_string()), 1);
    assert_eq!(table.count(&"Bid".to_string()), 0);
    assert_eq!(table.count(&"".to_string()), 0);
}

#[test]
fn counts_run_over_the_whole_document() {
    let tokens = vec![owned(&["a", "b", "a"]), Vec::new(), owned(&["b", "c"]), owned(&["a"])];
    let table = count_words(&tokens);
    assert_eq!(table.count(&"a".to_string()), 3);
    assert_eq!(table.count(&"b".to_string()), 2);
    assert_eq!(table.count(&"c".to_string()), 1);
    assert_eq!(table.count(&"d".to_string()), 0);
    let empty = count_words(&Vec::new());
    assert_eq!(empty.count(&"a".to_string()), 0);
}

#[test]
fn a_score_is_the_sum_of_the_frequencies_of_the_tokens() {
    let tokens = vec![owned(&["a", "b", "a"]), Vec::new(), owned(&["b", "c"]), owned(&["a"])];
    let table = count_words(&tokens);
    // a: 3, b: 2, c: 1
    assert_eq!(score_sentences(&tokens, &table), vec![8u128, 0, 3, 3]);
    assert_eq!(score_sentence(&owned(&["a", "a", "a", "a"]), &table), 12);
    assert_eq!(score_sentence(&owned(&["unknown", "c"]), &table), 1);
    assert_eq!(score_sentence(&Vec::new(), &table), 0);
}

#[test]
fn ranking_is_descending_and_stable() {
    assert_eq!(rank(&vec![1u128, 3, 3, 2]), vec![1usize, 2, 3, 0]);
    assert_eq!(rank(&vec![5u128, 5, 5]), vec![0usize, 1, 2]);
    assert_eq!(rank(&vec![0u128, 1, 2, 3]), vec![3usize, 2, 1, 0]);
    assert_eq!(rank(&vec![7u128]), vec![0usize]);
    assert_eq!(rank(&Vec::new()), Vec::<usize>::new());
    assert_eq!(rank(&vec![u128::MAX, 0, u128::MAX]), vec![0usize, 2, 1]);
}

#[test]
fn ranking_agrees_with_a_stable_sort() {
    let scores: Vec<u128> = vec![4, 9, 4, 1, 9, 9, 0, 4, 2, 2, 7, 1];
    let mut expected: Vec<usize> = (0..scores.len()).collect();
    expected.sort_by(|a, b| scores[*b].cmp(&scores[*a]));
    assert_eq!(rank(&scores), expected);
}

#[test]
fn selection_takes_the_head_of_the_ranking() {
    let scores: Vec<u128> = vec![1, 3, 3, 2];
    assert_eq!(select_top(&scores, 0), Vec::<usize>::new());
    assert_eq!(select_top(&scores, 1), vec![1usize]);
    assert_eq!(select_top(&scores, 3), vec![1usize, 2, 3]);
    assert_eq!(select_top(&scores, 4), vec![1usize, 2, 3, 0]);
    assert_eq!(select_top(&scores, 5), vec![1usize, 2, 3, 0]);
    assert_eq!(select_top(&Vec::new(), 2), Vec::<usize>::new());
}

#[test]
fn sentences_are_joined_with_a_full_stop_and_a_space() {
    assert_eq!(join_sentences(&Vec::new()), "");
    assert_eq!(join_sentences(&owned(&["a"])), "a");
    assert_eq!(join_sentences(&owned(&["a", "b"])), "a. b");
    assert_eq!(join_sentences(&owned(&["a", "", " c"])), "a. .  c");
}

#[test]
fn a_full_stop_is_added_only_where_none_is() {
    assert_eq!(terminate("abc".to_string()), "abc.");
    assert_eq!(terminate("abc.".to_string()), "abc.");
    assert_eq!(terminate(String::new()), ".");
    assert_eq!(terminate("abc!".to_string()), "abc!.");
    assert_eq!(terminate("abc. ".to_string()), "abc. .");
}

#[test]
fn assembling_normalizes_the_end() {
    assert_eq!(assemble(&Vec::new()).short_summary, ".");
    assert_eq!(assemble(&owned(&["One", "Two"])).short_summary, "One. Two.");
    assert_eq!(assemble(&owned(&["One", "Two."])).short_summary, "One. Two.");
    assert_eq!(assemble(&owned(&["One."])).short_summary, "One.");
    assert_eq!(assemble(&owned(&["One", ""])).short_summary, "One. .");
    // a sentence that itself ends with two full stops keeps them
    assert_eq!(assemble(&owned(&["One.."])).short_summary, "One..");
}

#[test]
fn assembling_carries_the_given_metadata() {
    let metadata = Metadata {
        relevance_to_officials: owned(&["r"]),
        action_items: owned(&["a", "b"]),
        confidence_estimate: "low".to_string(),
    };
    let summary = assemble_with(&owned(&["S"]), metadata);
    assert_eq!(summary.short_summary, "S.");
    assert_eq!(summary.relevance_to_officials, owned(&["r"]));
    assert_eq!(summary.action_items, owned(&["a", "b"]));
    assert_eq!(summary.confidence_estimate, "low");
}
