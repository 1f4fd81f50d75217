//! What the library takes on trust: the contracts of the functions of std and of the
//! `unicode-segmentation` crate that it calls and that Verus has no contract for. Nothing here
//! is proved; everything else in the library is proved from it.

use unicode_segmentation::UnicodeSegmentation;
use vstd::prelude::*;

verus! {

/// Whether `c` carries the Unicode `White_Space` property, as `char::is_whitespace` decides it.
pub uninterp spec fn is_white_space(c: char) -> bool;

/// The words that Unicode word segmentation finds in `text`, in order: the pieces between word
/// boundaries that hold a letter or a digit.
pub uninterp spec fn word_segments(text: Seq<char>) -> Seq<Seq<char>>;

/// The lower-case form of `text` under Unicode case mapping.
pub uninterp spec fn lowercase(text: Seq<char>) -> Seq<char>;

/// `char::is_whitespace` of std: the answer is the `White_Space` property of the character and
/// depends on nothing else.
pub assume_specification[ char::is_whitespace ](c: char) -> (b: bool)
    ensures
        b == is_white_space(c),
;

/// `str::to_lowercase` of std: the result is the lower-case form of the text by Unicode's rules,
/// whatever the locale.
pub assume_specification[ str::to_lowercase ](text: &str) -> (lower: String)
    ensures
        lower@ == lowercase(text@),
;

/// `String::push` of std appends the one character to the end of the string.
pub assume_specification[ String::push ](s: &mut String, c: char)
    ensures
        final(s)@ == old(s)@.push(c),
;

/// `str::ends_with` of std, asked of one character: whether the text's last character is `c`.
/// An empty text ends with no character.
#[verifier::external_body]
pub(crate) fn ends_with_char(text: &str, c: char) -> (found: bool)
    ensures
        found == (text@.len() > 0 && text@.last() == c),
{
    text.ends_with(c)
}

/// `UnicodeSegmentation::unicode_words` of the `unicode-segmentation` crate, each word copied
/// into a `String`. The words depend on the text alone. They are pieces of the text that do not
/// overlap and are not empty, so there are no more of them than the text has characters.
#[verifier::external_body]
pub(crate) fn unicode_words(text: &str) -> (words: Vec<String>)
    ensures
        words.deep_view() == word_segments(text@),
        words.len() <= text@.len(),
{
    text.unicode_words().map(String::from).collect()
}

} // verus!
