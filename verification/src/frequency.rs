//! Word frequencies: how often each token occurs in the whole document.

use vstd::prelude::*;

verus! {

/// How many members of `words` equal `word`.
pub open spec fn occurrences(words: Seq<Seq<char>>, word: Seq<char>) -> nat
    decreases words.len(),
{
    if words.len() == 0 {
        0
    } else {
        occurrences(words.drop_last(), word) + if words.last() == word {
            1nat
        } else {
            0nat
        }
    }
}

/// The tokens of all sentences in one sequence, sentence after sentence.
pub open spec fn all_words(tokens: Seq<Seq<Seq<char>>>) -> Seq<Seq<char>>
    decreases tokens.len(),
{
    if tokens.len() == 0 {
        Seq::empty()
    } else {
        all_words(tokens.drop_last()) + tokens.last()
    }
}

/// The frequency table of a document: each word that occurs in it, with the number of its
/// occurrences. No other word is a key, so every count is at least one.
pub open spec fn word_counts(document: Seq<Seq<char>>) -> Map<Seq<char>, nat> {
    Map::new(
        |word: Seq<char>| occurrences(document, word) > 0,
        |word: Seq<char>| occurrences(document, word),
    )
}

/// What a frequency table says of `word`: its count, and zero for a word that is no key.
pub open spec fn frequency(table: Map<Seq<char>, nat>, word: Seq<char>) -> nat {
    if table.contains_key(word) {
        table[word]
    } else {
        0
    }
}

/// A word occurs no more often than there are words.
pub proof fn lemma_occurrences_bound(words: Seq<Seq<char>>, word: Seq<char>)
    ensures
        occurrences(words, word) <= words.len(),
    decreases words.len(),
{
    if words.len() > 0 {
        lemma_occurrences_bound(words.drop_last(), word);
    }
}

/// One more word adds one occurrence of itself and none of any other word.
pub proof fn lemma_occurrences_push(words: Seq<Seq<char>>, next: Seq<char>, word: Seq<char>)
    ensures
        occurrences(words.push(next), word) == occurrences(words, word) + if next == word {
            1nat
        } else {
            0nat
        },
{
    assert(words.push(next).drop_last() =~= words);
}

/// The words of the first `upto` sentences are a part of the words of all of them.
pub proof fn lemma_all_words_prefix(tokens: Seq<Seq<Seq<char>>>, upto: int)
    requires
        0 <= upto <= tokens.len(),
    ensures
        all_words(tokens.take(upto)).len() <= all_words(tokens).len(),
        upto < tokens.len() ==> all_words(tokens.take(upto + 1)) == all_words(tokens.take(upto))
            + tokens[upto],
        upto < tokens.len() ==> all_words(tokens.take(upto)).len() + tokens[upto].len()
            <= all_words(tokens).len(),
    decreases tokens.len() - upto,
{
    if upto < tokens.len() {
        assert(tokens.take(upto + 1).drop_last() =~= tokens.take(upto));
        lemma_all_words_prefix(tokens, upto + 1);
    } else {
        assert(tokens.take(upto) =~= tokens);
    }
}

/// The frequency table of the document read so far.
pub struct FrequencyTable {
    words: Vec<String>,
    counts: Vec<usize>,
}

impl View for FrequencyTable {
    type V = Map<Seq<char>, nat>;

    closed spec fn view(&self) -> Map<Seq<char>, nat> {
        Map::new(
            |word: Seq<char>| self.holds(word),
            |word: Seq<char>| self.counts[self.slot(word)] as nat,
        )
    }
}

impl FrequencyTable {
    /// The table is well formed: each word has one entry, and each entry counts at least one
    /// occurrence.
    pub closed spec fn wf(&self) -> bool {
        &&& self.words.len() == self.counts.len()
        &&& forall|i: int, j: int|
            0 <= i < j < self.words.len() ==> (#[trigger] self.words[i])@ != (
            #[trigger] self.words[j])@
        &&& forall|i: int| 0 <= i < self.counts.len() ==> #[trigger] self.counts[i] >= 1
    }

    spec fn holds(&self, word: Seq<char>) -> bool {
        exists|i: int| 0 <= i < self.words.len() && (#[trigger] self.words[i])@ == word
    }

    spec fn slot(&self, word: Seq<char>) -> int {
        choose|i: int| 0 <= i < self.words.len() && (#[trigger] self.words[i])@ == word
    }

    proof fn lemma_slot(&self, i: int)
        requires
            self.wf(),
            0 <= i < self.words.len(),
        ensures
            self.holds(self.words[i]@),
            self.slot(self.words[i]@) == i,
            self@.contains_key(self.words[i]@),
            self@[self.words[i]@] == self.counts[i],
    {
        let word = self.words[i]@;
        assert(self.holds(word));
        let found = self.slot(word);
        if found < i {
            assert(self.words[found]@ != self.words[i]@);
        } else if i < found {
            assert(self.words[i]@ != self.words[found]@);
        }
    }

    /// A well-formed table holds a whole number of at least one for each of its keys.
    pub proof fn lemma_counts_positive(&self, word: Seq<char>)
        requires
            self.wf(),
        ensures
            self@.contains_key(word) ==> 1 <= self@[word] <= usize::MAX,
            self@.dom().finite(),
    {
        if self@.contains_key(word) {
            let i = self.slot(word);
            assert(self.counts[i] >= 1);
        }
        let keys = self.words.deep_view().to_set();
        assert(self@.dom() =~= keys) by {
            assert forall|w: Seq<char>| self@.dom().contains(w) == keys.contains(w) by {
                if self@.dom().contains(w) {
                    let i = self.slot(w);
                    assert(self.words.deep_view()[i] == w);
                }
                if keys.contains(w) {
                    let i = choose|i: int|
                        0 <= i < self.words.deep_view().len() && self.words.deep_view()[i] == w;
                    assert(self.words[i]@ == w);
                }
            }
        }
    }

    /// The table of the empty document.
    pub fn new() -> (table: FrequencyTable)
        ensures
            table.wf(),
            table@ == Map::<Seq<char>, nat>::empty(),
    {
        let table = FrequencyTable { words: Vec::new(), counts: Vec::new() };
        assert(table@ =~= Map::<Seq<char>, nat>::empty());
        table
    }

    fn find(&self, word: &String) -> (at: Option<usize>)
        requires
            self.wf(),
        ensures
            match at {
                Some(i) => i < self.words.len() && self.words[i as int]@ == word@,
                None => !self.holds(word@),
            },
    {
        let mut i: usize = 0;
        while i < self.words.len()
            invariant
                i <= self.words.len(),
                forall|k: int| 0 <= k < i ==> (#[trigger] self.words[k])@ != word@,
            decreases self.words.len() - i,
        {
            if self.words[i] == *word {
                return Some(i);
            }
            i += 1;
        }
        None
    }

    /// The count of `word`, zero where the table has no entry for it.
    pub fn count(&self, word: &String) -> (n: usize)
        requires
            self.wf(),
        ensures
            n == frequency(self@, word@),
    {
        match self.find(word) {
            Some(i) => {
                proof {
                    self.lemma_slot(i as int);
                }
                self.counts[i]
            },
            None => 0,
        }
    }

    /// Counts one more occurrence of `word`.
    pub fn record(&mut self, word: String)
        requires
            old(self).wf(),
            frequency(old(self)@, word@) < usize::MAX,
        ensures
            final(self).wf(),
            final(self)@ == old(self)@.insert(word@, frequency(old(self)@, word@) + 1),
    {
        let ghost before = *self;
        match self.find(&word) {
            Some(i) => {
                proof {
                    before.lemma_slot(i as int);
                }
                let seen = self.counts[i];
                self.counts.set(i, seen + 1);
                proof {
                    assert(self.wf());
                    self.lemma_slot(i as int);
                    assert(self@ =~= before@.insert(word@, (seen + 1) as nat)) by {
                        assert forall|w: Seq<char>| self.holds(w) == before.holds(w) by {
                            if self.holds(w) {
                                let k = self.slot(w);
                                assert(before.words[k]@ == w);
                            }
                            if before.holds(w) {
                                let k = before.slot(w);
                                assert(self.words[k]@ == w);
                            }
                        }
                        assert forall|w: Seq<char>| #[trigger]
                            self@.contains_key(w) && w != word@ implies self@[w] == before@[w] by {
                            let k = before.slot(w);
                            before.lemma_slot(k);
                            self.lemma_slot(k);
                        }
                    }
                }
            },
            None => {
                self.words.push(word);
                self.counts.push(1);
                proof {
                    let last = self.words.len() - 1;
                    assert(self.wf()) by {
                        assert forall|i: int, j: int| 0 <= i < j < self.words.len() implies (
                        #[trigger] self.words[i])@ != (#[trigger] self.words[j])@ by {
                            assert(self.words[i] == before.words[i]);
                            if j < last {
                                assert(self.words[j] == before.words[j]);
                            }
                        }
                    }
                    self.lemma_slot(last);
                    assert(self@ =~= before@.insert(word@, 1nat)) by {
                        assert forall|w: Seq<char>| self.holds(w) == (before.holds(w) || w
                            == word@) by {
                            if self.holds(w) {
                                let k = self.slot(w);
                                if k < last {
                                    assert(before.words[k]@ == w);
                                }
                            }
                            if before.holds(w) {
                                let k = before.slot(w);
                                assert(self.words[k]@ == w);
                            }
                        }
                        assert forall|w: Seq<char>| #[trigger]
                            self@.contains_key(w) && w != word@ implies self@[w] == before@[w] by {
                            let k = before.slot(w);
                            before.lemma_slot(k);
                            assert(self.words[k] == before.words[k]);
                            self.lemma_slot(k);
                        }
                    }
                }
            },
        }
    }
}

/// Counts the tokens of a document, given sentence by sentence.
pub fn count_words(tokens: &Vec<Vec<String>>) -> (table: FrequencyTable)
    requires
        all_words(tokens.deep_view()).len() <= usize::MAX,
    ensures
        table.wf(),
        table@ == word_counts(all_words(tokens.deep_view())),
{
    let ghost document = tokens.deep_view();
    let mut table = FrequencyTable::new();
    let ghost mut seen: Seq<Seq<char>> = Seq::empty();
    let mut s: usize = 0;
    assert(document.take(0) =~= Seq::empty());
    while s < tokens.len()
        invariant
            s <= tokens.len(),
            document == tokens.deep_view(),
            all_words(document).len() <= usize::MAX,
            table.wf(),
            seen == all_words(document.take(s as int)),
            forall|w: Seq<char>| frequency(table@, w) == occurrences(seen, w),
        decreases tokens.len() - s,
    {
        let sentence = &tokens[s];
        let ghost start = seen;
        proof {
            lemma_all_words_prefix(document, s as int);
            assert(document[s as int] == sentence.deep_view());
        }
        let mut j: usize = 0;
        while j < sentence.len()
            invariant
                j <= sentence.len(),
                table.wf(),
                start.len() + sentence.len() <= usize::MAX,
                seen == start + sentence.deep_view().take(j as int),
                forall|w: Seq<char>| frequency(table@, w) == occurrences(seen, w),
            decreases sentence.len() - j,
        {
            let word = sentence[j].clone();
            proof {
                lemma_occurrences_bound(seen, word@);
                assert forall|w: Seq<char>|
                    occurrences(seen.push(word@), w) == occurrences(seen, w) + if word@ == w {
                        1nat
                    } else {
                        0nat
                    } by {
                    lemma_occurrences_push(seen, word@, w);
                }
                let read = sentence.deep_view().take(j as int);
                assert(sentence.deep_view().take(j + 1) =~= read.push(word@));
                assert(start + sentence.deep_view().take(j + 1) =~= seen.push(word@));
            }
            table.record(word);
            proof {
                seen = seen.push(word@);
            }
            j += 1;
        }
        proof {
            assert(sentence.deep_view().take(sentence.len() as int) =~= sentence.deep_view());
        }
        s += 1;
    }
    proof {
        assert(document.take(tokens.len() as int) =~= document);
        assert(table@ =~= word_counts(seen)) by {
            assert forall|w: Seq<char>| table@.contains_key(w) == (occurrences(seen, w) > 0) by {
                table.lemma_counts_positive(w);
                assert(frequency(table@, w) == occurrences(seen, w));
            }
            assert forall|w: Seq<char>| #[trigger]
                table@.contains_key(w) implies table@[w] == occurrences(seen, w) by {
                assert(frequency(table@, w) == occurrences(seen, w));
            }
        }
    }
    table
}

} // verus!
