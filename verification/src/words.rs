//! Tokenization: the words of a sentence by Unicode word boundaries, folded to lower case.

use crate::trusted::{lowercase, unicode_words, word_segments};
use vstd::prelude::*;

verus! {

/// The tokens of a sentence: its words, each in lower case.
pub open spec fn tokens_of(sentence: Seq<char>) -> Seq<Seq<char>> {
    word_segments(sentence).map_values(|word: Seq<char>| lowercase(word))
}

/// The tokens of each of `sentences`, sentence by sentence.
pub open spec fn tokens_of_each(sentences: Seq<Seq<char>>) -> Seq<Seq<Seq<char>>> {
    sentences.map_values(|sentence: Seq<char>| tokens_of(sentence))
}

/// Finds the tokens of `sentence`.
pub fn tokenize(sentence: &str) -> (tokens: Vec<String>)
    ensures
        tokens.deep_view() == tokens_of(sentence@),
        tokens.len() <= sentence@.len(),
{
    let words = unicode_words(sentence);
    let mut tokens: Vec<String> = Vec::new();
    let mut i: usize = 0;
    while i < words.len()
        invariant
            i <= words.len(),
            words.deep_view() == word_segments(sentence@),
            tokens.len() == i,
            forall|k: int| 0 <= k < i ==> (#[trigger] tokens[k])@ == lowercase(words[k]@),
        decreases words.len() - i,
    {
        let lower = words[i].as_str().to_lowercase();
        tokens.push(lower);
        i += 1;
    }
    assert(tokens.deep_view() =~= tokens_of(sentence@)) by {
        assert forall|k: int| 0 <= k < tokens.len() implies tokens.deep_view()[k] == tokens_of(
            sentence@,
        )[k] by {
            assert(words.deep_view()[k] == words[k]@);
        }
    }
    tokens
}

/// Finds the tokens of each of `sentences`.
pub fn tokenize_each(sentences: &Vec<String>) -> (tokens: Vec<Vec<String>>)
    ensures
        tokens.deep_view() == tokens_of_each(sentences.deep_view()),
        tokens.len() == sentences.len(),
        forall|k: int|
            0 <= k < tokens.len() ==> (#[trigger] tokens[k]).len() <= sentences[k]@.len(),
{
    let mut tokens: Vec<Vec<String>> = Vec::new();
    let mut i: usize = 0;
    while i < sentences.len()
        invariant
            i <= sentences.len(),
            tokens.len() == i,
            forall|k: int|
                0 <= k < i ==> (#[trigger] tokens[k]).deep_view() == tokens_of(sentences[k]@),
            forall|k: int| 0 <= k < i ==> (#[trigger] tokens[k]).len() <= sentences[k]@.len(),
        decreases sentences.len() - i,
    {
        let found = tokenize(sentences[i].as_str());
        tokens.push(found);
        i += 1;
    }
    assert(tokens.deep_view() =~= tokens_of_each(sentences.deep_view()));
    tokens
}

} // verus!
