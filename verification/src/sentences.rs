//! Sentence segmentation: a text is cut at its terminators, and the stretches in between that
//! hold more than white space are its sentences.

use crate::chars::{blank, is_blank, is_terminator, lemma_blank_push};
use vstd::prelude::*;

verus! {

/// Why a text has no sentences to summarize.
#[derive(Debug, Clone, Copy, PartialEq, Eq, Structural)]
pub enum SummarizeError {
    /// The text is empty or holds nothing but white space.
    EmptyInput,
}

/// The stretches of `text` between its terminators, in order. A text with `k` terminators has
/// `k + 1` stretches; a stretch is empty where two terminators meet and where the text begins
/// or ends with one.
pub open spec fn segments(text: Seq<char>) -> Seq<Seq<char>>
    decreases text.len(),
{
    if text.len() == 0 {
        seq![Seq::empty()]
    } else {
        let before = segments(text.drop_last());
        if is_terminator(text.last()) {
            before.push(Seq::empty())
        } else {
            before.drop_last().push(before.last().push(text.last()))
        }
    }
}

/// The terminators of `text`, in their order.
pub open spec fn marks(text: Seq<char>) -> Seq<char>
    decreases text.len(),
{
    if text.len() == 0 {
        Seq::empty()
    } else if is_terminator(text.last()) {
        marks(text.drop_last()).push(text.last())
    } else {
        marks(text.drop_last())
    }
}

/// The text that begins with the first of `pieces` and goes on with each of `marks` followed by
/// the next piece. There must be one piece more than there are marks.
pub open spec fn woven(pieces: Seq<Seq<char>>, marks: Seq<char>) -> Seq<char>
    decreases marks.len(),
{
    if marks.len() == 0 {
        pieces[0]
    } else {
        woven(pieces.drop_last(), marks.drop_last()).push(marks.last()) + pieces.last()
    }
}

/// The members of `pieces` that are not blank, in their order.
pub open spec fn non_blank(pieces: Seq<Seq<char>>) -> Seq<Seq<char>>
    decreases pieces.len(),
{
    if pieces.len() == 0 {
        pieces
    } else if is_blank(pieces.last()) {
        non_blank(pieces.drop_last())
    } else {
        non_blank(pieces.drop_last()).push(pieces.last())
    }
}

/// The sentences of `text`: its stretches between terminators, without the blank ones. A run of
/// terminators therefore counts as one boundary, and a sentence keeps its characters as they
/// stand in the text, surrounding white space included.
pub open spec fn sentences_of(text: Seq<char>) -> Seq<Seq<char>> {
    non_blank(segments(text))
}

/// The number of characters in all of `pieces` together.
pub open spec fn total_chars(pieces: Seq<Seq<char>>) -> nat
    decreases pieces.len(),
{
    if pieces.len() == 0 {
        0
    } else {
        total_chars(pieces.drop_last()) + pieces.last().len()
    }
}

/// Whether no character of `piece` is a terminator.
pub open spec fn free_of_terminators(piece: Seq<char>) -> bool {
    forall|i: int| 0 <= i < piece.len() ==> !is_terminator(#[trigger] piece[i])
}

/// Every text has at least one stretch, no stretch holds a terminator, and the stretches
/// together are no longer than the text.
pub proof fn lemma_segments(text: Seq<char>)
    ensures
        segments(text).len() >= 1,
        forall|k: int|
            0 <= k < segments(text).len() ==> free_of_terminators(#[trigger] segments(text)[k]),
        total_chars(segments(text)) <= text.len(),
    decreases text.len(),
{
    if text.len() == 0 {
        assert(segments(text).drop_last() =~= Seq::empty());
        assert(total_chars(segments(text).drop_last()) == 0);
    } else {
        let before = segments(text.drop_last());
        lemma_segments(text.drop_last());
        let now = segments(text);
        if is_terminator(text.last()) {
            assert(now.drop_last() =~= before);
        } else {
            let grown = before.last().push(text.last());
            assert(now.drop_last() =~= before.drop_last());
            assert(now.last() == grown);
            assert(before =~= before.drop_last().push(before.last()));
            assert forall|k: int| 0 <= k < now.len() implies free_of_terminators(
                #[trigger] now[k],
            ) by {
                if k < now.len() - 1 {
                    assert(now[k] == before[k]);
                } else {
                    assert(free_of_terminators(before[k]));
                    assert forall|i: int| 0 <= i < grown.len() implies !is_terminator(
                        #[trigger] grown[i],
                    ) by {
                        if i < before[k].len() {
                            assert(grown[i] == before[k][i]);
                        }
                    }
                }
            }
        }
    }
}

/// Cutting loses nothing: a text has one stretch more than it has terminators, and its
/// stretches with its terminators between them are the text again. With `lemma_segments`, this
/// says that the stretches are the text cut at every terminator and nowhere else.
pub proof fn lemma_segments_rebuild(text: Seq<char>)
    ensures
        segments(text).len() == marks(text).len() + 1,
        woven(segments(text), marks(text)) == text,
    decreases text.len(),
{
    if text.len() == 0 {
        assert(woven(segments(text), marks(text)) =~= text);
    } else {
        let shorter = text.drop_last();
        let before = segments(shorter);
        lemma_segments_rebuild(shorter);
        let now = segments(text);
        assert(text =~= shorter.push(text.last()));
        if is_terminator(text.last()) {
            assert(now.drop_last() =~= before);
            assert(marks(text).drop_last() =~= marks(shorter));
            assert(woven(now, marks(text)) =~= text);
        } else {
            assert(now.drop_last() =~= before.drop_last());
            assert(now.last() == before.last().push(text.last()));
            if marks(text).len() > 0 {
                let head = woven(before.drop_last(), marks(shorter).drop_last()).push(
                    marks(shorter).last(),
                );
                assert(woven(before, marks(shorter)) == head + before.last());
                assert(woven(now, marks(text)) == head + now.last());
                assert(head + now.last() =~= (head + before.last()).push(text.last()));
            }
            assert(woven(now, marks(text)) =~= text);
        }
    }
}

/// What `non_blank` keeps was there before and is not blank, and it keeps no more characters
/// than there were.
pub proof fn lemma_non_blank(pieces: Seq<Seq<char>>)
    ensures
        non_blank(pieces).len() <= pieces.len(),
        forall|k: int| 0 <= k < non_blank(pieces).len() ==> {
            &&& !is_blank(#[trigger] non_blank(pieces)[k])
            &&& pieces.contains(non_blank(pieces)[k])
        },
        total_chars(non_blank(pieces)) <= total_chars(pieces),
    decreases pieces.len(),
{
    if pieces.len() > 0 {
        let fewer = pieces.drop_last();
        lemma_non_blank(fewer);
        let kept = non_blank(pieces);
        assert forall|k: int| 0 <= k < kept.len() implies {
            &&& !is_blank(#[trigger] kept[k])
            &&& pieces.contains(kept[k])
        } by {
            if k < non_blank(fewer).len() {
                assert(kept[k] == non_blank(fewer)[k]);
                let j = choose|j: int| 0 <= j < fewer.len() && fewer[j] == kept[k];
                assert(pieces[j] == kept[k]);
            } else {
                assert(kept[k] == pieces.last());
                assert(pieces[pieces.len() - 1] == kept[k]);
            }
        }
        if !is_blank(pieces.last()) {
            assert(kept.drop_last() =~= non_blank(fewer));
        }
    }
}

/// A sentence holds no terminator and is not blank, so it is not empty; and the sentences of a
/// text together are no longer than the text.
pub proof fn lemma_sentences(text: Seq<char>)
    ensures
        sentences_of(text).len() <= text.len() + 1,
        forall|k: int| 0 <= k < sentences_of(text).len() ==> {
            &&& free_of_terminators(#[trigger] sentences_of(text)[k])
            &&& !is_blank(sentences_of(text)[k])
            &&& sentences_of(text)[k].len() > 0
        },
        total_chars(sentences_of(text)) <= text.len(),
{
    lemma_segments(text);
    lemma_non_blank(segments(text));
    lemma_segment_count(text);
    assert forall|k: int| 0 <= k < sentences_of(text).len() implies {
        &&& free_of_terminators(#[trigger] sentences_of(text)[k])
        &&& !is_blank(sentences_of(text)[k])
        &&& sentences_of(text)[k].len() > 0
    } by {
        let sentence = sentences_of(text)[k];
        let j = choose|j: int| 0 <= j < segments(text).len() && segments(text)[j] == sentence;
        assert(free_of_terminators(segments(text)[j]));
    }
}

/// A text has one stretch more than it has terminators, so at most one more than characters.
pub proof fn lemma_segment_count(text: Seq<char>)
    ensures
        segments(text).len() <= text.len() + 1,
    decreases text.len(),
{
    if text.len() > 0 {
        lemma_segment_count(text.drop_last());
        lemma_segments(text.drop_last());
    }
}

/// Cuts `text` into its sentences. A blank text has none.
pub fn cut_sentences(text: &str) -> (sentences: Vec<String>)
    ensures
        sentences.deep_view() == sentences_of(text@),
        forall|k: int|
            0 <= k < sentences.len() ==> !is_blank((#[trigger] sentences[k])@)
                && free_of_terminators(sentences[k]@),
{
    let mut sentences: Vec<String> = Vec::new();
    let mut current = String::new();
    let mut current_blank = true;
    assert(segments(text@.take(0)).drop_last() =~= Seq::empty());
    assert(sentences.deep_view() =~= Seq::empty());
    for c in it: text.chars()
        invariant
            it.seq() == text@,
            sentences.deep_view() == non_blank(segments(text@.take(it.index())).drop_last()),
            current@ == segments(text@.take(it.index())).last(),
            current_blank == is_blank(current@),
    {
        let ghost seen = text@.take(it.index());
        let ghost before = segments(seen);
        let ghost kept = sentences.deep_view();
        proof {
            assert(text@.take(it.index() + 1).drop_last() =~= seen);
            lemma_segments(seen);
            assert(before =~= before.drop_last().push(before.last()));
        }
        if c == '.' || c == '!' || c == '?' {
            if !current_blank {
                sentences.push(current);
                assert(sentences.deep_view() =~= kept.push(before.last()));
            }
            current = String::new();
            current_blank = true;
            assert(segments(text@.take(it.index() + 1)).drop_last() =~= before);
        } else {
            current.push(c);
            proof {
                lemma_blank_push(before.last(), c);
            }
            current_blank = current_blank && c.is_whitespace();
            assert(segments(text@.take(it.index() + 1)).drop_last() =~= before.drop_last());
        }
    }
    proof {
        assert(text@.take(text@.len() as int) =~= text@);
        lemma_segments(text@);
        assert(segments(text@) =~= segments(text@).drop_last().push(segments(text@).last()));
    }
    let ghost kept = sentences.deep_view();
    if !current_blank {
        sentences.push(current);
        assert(sentences.deep_view() =~= kept.push(segments(text@).last()));
    }
    proof {
        lemma_sentences(text@);
        assert forall|k: int| 0 <= k < sentences.len() implies !is_blank(
            (#[trigger] sentences[k])@,
        ) && free_of_terminators(sentences[k]@) by {
            assert(sentences.deep_view()[k] == sentences[k]@);
        }
    }
    sentences
}

/// Splits `text` into its sentences. A blank text is refused before anything is cut; a text of
/// terminators and white space is not blank and has no sentence.
pub fn split_sentences(text: &str) -> (outcome: Result<Vec<String>, SummarizeError>)
    ensures
        match outcome {
            Ok(sentences) => !is_blank(text@) && sentences.deep_view() == sentences_of(text@),
            Err(error) => error == SummarizeError::EmptyInput && is_blank(text@),
        },
{
    if blank(text) {
        Err(SummarizeError::EmptyInput)
    } else {
        Ok(cut_sentences(text))
    }
}

} // verus!
