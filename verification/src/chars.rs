//! Character classes that the sentence grammar is built on.

use crate::trusted::is_white_space;
use vstd::prelude::*;

verus! {

/// A sentence ends at a full stop, an exclamation mark or a question mark.
pub open spec fn is_terminator(c: char) -> bool {
    c == '.' || c == '!' || c == '?'
}

/// A text is blank when it holds nothing but white space; the empty text is blank.
pub open spec fn is_blank(s: Seq<char>) -> bool {
    forall|i: int| 0 <= i < s.len() ==> is_white_space(#[trigger] s[i])
}

/// Appending a character keeps a text blank exactly when the text was blank and the character
/// is white space.
pub proof fn lemma_blank_push(s: Seq<char>, c: char)
    ensures
        is_blank(s.push(c)) == (is_blank(s) && is_white_space(c)),
{
    let longer = s.push(c);
    if is_blank(s) && is_white_space(c) {
        assert forall|i: int| 0 <= i < longer.len() implies is_white_space(
            #[trigger] longer[i],
        ) by {
            if i < s.len() {
                assert(longer[i] == s[i]);
            }
        }
    } else if is_blank(longer) {
        assert(longer[s.len() as int] == c);
        assert forall|i: int| 0 <= i < s.len() implies is_white_space(#[trigger] s[i]) by {
            assert(longer[i] == s[i]);
        }
    }
}

/// Decides whether `s` is blank.
pub fn blank(s: &str) -> (b: bool)
    ensures
        b == is_blank(s@),
{
    let mut all: bool = true;
    for c in it: s.chars()
        invariant
            it.seq() == s@,
            all == is_blank(s@.take(it.index())),
    {
        proof {
            assert(s@.take(it.index() + 1) == s@.take(it.index()).push(c));
            lemma_blank_push(s@.take(it.index()), c);
        }
        all = all && c.is_whitespace();
    }
    assert(s@.take(s@.len() as int) == s@);
    all
}

} // verus!
