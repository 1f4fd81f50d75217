//! Sentence scores: a sentence is as salient as its tokens are frequent in the document.

use crate::frequency::{frequency, FrequencyTable};
use vstd::prelude::*;

verus! {

/// The score of a sentence with the tokens `words`: the sum of their frequencies, a token that
/// stands twice in the sentence counted twice. There is no division by the sentence's length.
pub open spec fn salience(words: Seq<Seq<char>>, table: Map<Seq<char>, nat>) -> nat
    decreases words.len(),
{
    if words.len() == 0 {
        0
    } else {
        salience(words.drop_last(), table) + frequency(table, words.last())
    }
}

/// The scores of all sentences, in their order.
pub open spec fn saliences(tokens: Seq<Seq<Seq<char>>>, table: Map<Seq<char>, nat>) -> Seq<nat> {
    tokens.map_values(|words: Seq<Seq<char>>| salience(words, table))
}

/// Scores as natural numbers.
pub open spec fn as_nats(scores: Seq<u128>) -> Seq<nat> {
    scores.map_values(|score: u128| score as nat)
}

proof fn lemma_square_fits(count: int, limit: int)
    requires
        0 <= count <= limit <= 0xffff_ffff_ffff_ffff,
    ensures
        count * limit <= 0xffff_ffff_ffff_fffe_0000_0000_0000_0001,
        (count - 1) * limit + limit == count * limit,
{
    assert(count * limit <= 0xffff_ffff_ffff_ffff * 0xffff_ffff_ffff_ffff) by (nonlinear_arith)
        requires
            0 <= count <= limit <= 0xffff_ffff_ffff_ffff,
    ;
    assert((count - 1) * limit + limit == count * limit) by (nonlinear_arith);
}

/// Scores one sentence against the document's frequency table.
pub fn score_sentence(words: &Vec<String>, table: &FrequencyTable) -> (score: u128)
    requires
        table.wf(),
    ensures
        score == salience(words.deep_view(), table@),
{
    let ghost tokens = words.deep_view();
    let mut score: u128 = 0;
    let mut j: usize = 0;
    assert(tokens.take(0) =~= Seq::empty());
    while j < words.len()
        invariant
            j <= words.len(),
            table.wf(),
            tokens == words.deep_view(),
            score == salience(tokens.take(j as int), table@),
            score <= j * usize::MAX,
        decreases words.len() - j,
    {
        let seen = table.count(&words[j]);
        proof {
            assert(tokens.take(j + 1).drop_last() =~= tokens.take(j as int));
            lemma_square_fits(j + 1, usize::MAX as int);
        }
        score = score + seen as u128;
        j += 1;
    }
    assert(tokens.take(words.len() as int) =~= tokens);
    score
}

/// Scores every sentence of the document, in order.
pub fn score_sentences(tokens: &Vec<Vec<String>>, table: &FrequencyTable) -> (scores: Vec<u128>)
    requires
        table.wf(),
    ensures
        as_nats(scores@) == saliences(tokens.deep_view(), table@),
{
    let mut scores: Vec<u128> = Vec::new();
    let mut s: usize = 0;
    while s < tokens.len()
        invariant
            s <= tokens.len(),
            table.wf(),
            scores.len() == s,
            forall|k: int|
                0 <= k < s ==> #[trigger] scores[k] == salience(tokens[k].deep_view(), table@),
        decreases tokens.len() - s,
    {
        let score = score_sentence(&tokens[s], table);
        scores.push(score);
        s += 1;
    }
    assert(as_nats(scores@) =~= saliences(tokens.deep_view(), table@));
    scores
}

} // verus!
