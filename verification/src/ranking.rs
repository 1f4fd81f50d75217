//! Ranking: the sentences in descending order of score, equal scores in source order.

use crate::scoring::as_nats;
use vstd::prelude::*;

verus! {

/// Whether sentence `a` stands before sentence `b` in the ranking: it has the higher score, or
/// the same score and the earlier place in the text.
pub open spec fn outranks(scores: Seq<nat>, a: int, b: int) -> bool {
    scores[a] > scores[b] || (scores[a] == scores[b] && a < b)
}

/// How many entries at the head of `order` have a score of at least `score`.
pub open spec fn entries_ahead(order: Seq<int>, scores: Seq<nat>, score: nat) -> int
    decreases order.len(),
{
    if order.len() == 0 || scores[order[0]] < score {
        0
    } else {
        1 + entries_ahead(order.drop_first(), scores, score)
    }
}

/// The ranking of the first `count` sentences: the ranking of those before the last, with the
/// last one put behind every sentence that scores at least as much.
pub open spec fn ranking_of_first(scores: Seq<nat>, count: nat) -> Seq<int>
    decreases count,
{
    if count == 0 {
        Seq::empty()
    } else {
        let last = count - 1;
        let order = ranking_of_first(scores, last as nat);
        order.insert(entries_ahead(order, scores, scores[last]), last)
    }
}

/// The ranking of all sentences: their positions in the text, best first.
pub open spec fn ranking(scores: Seq<nat>) -> Seq<int> {
    ranking_of_first(scores, scores.len())
}

/// The first `limit` places of the ranking, or all of it where there are fewer sentences.
pub open spec fn top_ranked(scores: Seq<nat>, limit: nat) -> Seq<int> {
    ranking(scores).take(if limit <= scores.len() { limit as int } else { scores.len() as int })
}

/// Whether `order` holds each position below `count` exactly once and nothing else.
pub open spec fn is_arrangement(order: Seq<int>, count: nat) -> bool {
    &&& order.len() == count
    &&& forall|k: int| 0 <= k < order.len() ==> 0 <= #[trigger] order[k] < count
    &&& forall|a: int, b: int| 0 <= a < b < order.len() ==> order[a] != order[b]
    &&& forall|i: int| 0 <= i < count ==> order.contains(i)
}

/// Whether each entry of `order` outranks all entries behind it.
pub open spec fn is_ranked(order: Seq<int>, scores: Seq<nat>) -> bool {
    forall|a: int, b: int| 0 <= a < b < order.len() ==> outranks(scores, order[a], order[b])
}

/// Positions as integers.
pub open spec fn positions(order: Seq<usize>) -> Seq<int> {
    order.map_values(|at: usize| at as int)
}

/// `entries_ahead` is the length of the longest head of `order` whose scores are all at least
/// `score`.
pub proof fn lemma_entries_ahead(order: Seq<int>, scores: Seq<nat>, score: nat)
    ensures
        0 <= entries_ahead(order, scores, score) <= order.len(),
        forall|k: int|
            0 <= k < entries_ahead(order, scores, score) ==> scores[#[trigger] order[k]] >= score,
        entries_ahead(order, scores, score) < order.len() ==> scores[order[entries_ahead(
            order,
            scores,
            score,
        )]] < score,
    decreases order.len(),
{
    if order.len() == 0 || scores[order[0]] < score {
    } else {
        let rest = order.drop_first();
        lemma_entries_ahead(rest, scores, score);
        let ahead = entries_ahead(rest, scores, score);
        assert forall|k: int| 0 <= k < ahead + 1 implies scores[#[trigger] order[k]] >= score by {
            if k > 0 {
                assert(order[k] == rest[k - 1]);
            }
        }
        if ahead + 1 < order.len() {
            assert(order[ahead + 1] == rest[ahead]);
        }
    }
}

/// A place that has only scores of at least `score` before it, and a lower score at it where it
/// is not the end, is the place that `entries_ahead` gives.
pub proof fn lemma_entries_ahead_is(order: Seq<int>, scores: Seq<nat>, score: nat, place: int)
    requires
        0 <= place <= order.len(),
        forall|k: int| 0 <= k < place ==> scores[#[trigger] order[k]] >= score,
        place < order.len() ==> scores[order[place]] < score,
    ensures
        entries_ahead(order, scores, score) == place,
    decreases order.len(),
{
    if place > 0 {
        let rest = order.drop_first();
        assert(scores[order[0]] >= score);
        assert forall|k: int| 0 <= k < place - 1 implies scores[#[trigger] rest[k]] >= score by {
            assert(rest[k] == order[k + 1]);
        }
        if place - 1 < rest.len() {
            assert(rest[place - 1] == order[place]);
        }
        lemma_entries_ahead_is(rest, scores, score, place - 1);
    }
}

/// The ranking holds every sentence exactly once, and each of its entries outranks all entries
/// behind it: scores descend, and among equal scores the earlier sentence comes first.
pub proof fn lemma_ranking_of_first(scores: Seq<nat>, count: nat)
    requires
        count <= scores.len(),
    ensures
        is_arrangement(ranking_of_first(scores, count), count),
        is_ranked(ranking_of_first(scores, count), scores),
    decreases count,
{
    if count > 0 {
        let last = count - 1;
        let order = ranking_of_first(scores, last as nat);
        lemma_ranking_of_first(scores, last as nat);
        let place = entries_ahead(order, scores, scores[last]);
        lemma_entries_ahead(order, scores, scores[last]);
        let longer = order.insert(place, last);
        order.insert_ensures(place, last);
        assert forall|k: int| 0 <= k < longer.len() implies 0 <= #[trigger] longer[k] < count by {
            if k < place {
                assert(longer[k] == order[k]);
            } else if k > place {
                assert(longer[k] == order[k - 1]);
            }
        }
        assert forall|i: int| 0 <= i < count implies longer.contains(i) by {
            if i == last {
                assert(longer[place] == i);
            } else {
                assert(order.contains(i));
                let k = choose|k: int| 0 <= k < order.len() && order[k] == i;
                if k < place {
                    assert(longer[k] == i);
                } else {
                    assert(longer[k + 1] == order[k]);
                }
            }
        }
        assert forall|a: int, b: int| 0 <= a < b < longer.len() implies longer[a] != longer[b]
            && outranks(scores, longer[a], longer[b]) by {
            let before_a = if a < place { a } else { a - 1 };
            let before_b = if b < place { b } else { b - 1 };
            if a != place {
                assert(longer[a] == order[before_a]);
            }
            if b != place {
                assert(longer[b] == order[before_b]);
            }
            if a == place {
                // every entry from `place` on scores less than the new one
                if place < before_b {
                    assert(outranks(scores, order[place], order[before_b]));
                }
            } else if b == place {
                assert(scores[order[a]] >= scores[last]);
            } else {
                assert(outranks(scores, order[before_a], order[before_b]));
            }
        }
    }
}

/// The ranking of a document is the only arrangement of its sentences in which every entry
/// outranks all entries behind it.
pub proof fn lemma_ranking_unique(scores: Seq<nat>, count: nat, order: Seq<int>)
    requires
        count <= scores.len(),
        is_arrangement(order, count),
        is_ranked(order, scores),
    ensures
        order == ranking_of_first(scores, count),
    decreases count,
{
    if count == 0 {
        assert(order =~= Seq::empty());
    } else {
        let last = count - 1;
        let at = choose|k: int| 0 <= k < order.len() && order[k] == last;
        assert(order.contains(last));
        let rest = order.remove(at);
        order.remove_ensures(at);
        assert(is_arrangement(rest, last as nat)) by {
            assert forall|k: int| 0 <= k < rest.len() implies 0 <= #[trigger] rest[k] < last by {
                if k < at {
                    assert(rest[k] == order[k]);
                } else {
                    assert(rest[k] == order[k + 1]);
                }
            }
            assert forall|a: int, b: int| 0 <= a < b < rest.len() implies rest[a] != rest[b] by {
                let from_a = if a < at { a } else { a + 1 };
                let from_b = if b < at { b } else { b + 1 };
                assert(rest[a] == order[from_a]);
                assert(rest[b] == order[from_b]);
            }
            assert forall|i: int| 0 <= i < last implies rest.contains(i) by {
                let k = choose|k: int| 0 <= k < order.len() && order[k] == i;
                assert(order.contains(i));
                if k < at {
                    assert(rest[k] == i);
                } else {
                    assert(rest[k - 1] == order[k]);
                }
            }
        }
        assert(is_ranked(rest, scores)) by {
            assert forall|a: int, b: int| 0 <= a < b < rest.len() implies outranks(
                scores,
                rest[a],
                rest[b],
            ) by {
                let from_a = if a < at { a } else { a + 1 };
                let from_b = if b < at { b } else { b + 1 };
                assert(rest[a] == order[from_a]);
                assert(rest[b] == order[from_b]);
                assert(outranks(scores, order[from_a], order[from_b]));
            }
        }
        lemma_ranking_unique(scores, last as nat, rest);
        assert forall|k: int| 0 <= k < at implies scores[#[trigger] rest[k]] >= scores[last] by {
            assert(rest[k] == order[k]);
            assert(outranks(scores, order[k], order[at]));
        }
        if at < rest.len() {
            assert(rest[at] == order[at + 1]);
            assert(outranks(scores, order[at], order[at + 1]));
        }
        lemma_entries_ahead_is(rest, scores, scores[last], at);
        assert(order =~= rest.insert(at, last));
    }
}

/// Sentences with the same score stand in the ranking in the order in which they stand in the
/// text.
pub proof fn lemma_ties_keep_source_order(scores: Seq<nat>, a: int, b: int)
    requires
        0 <= a < b < scores.len(),
        scores[ranking(scores)[a]] == scores[ranking(scores)[b]],
    ensures
        ranking(scores)[a] < ranking(scores)[b],
{
    lemma_ranking_of_first(scores, scores.len());
    assert(outranks(scores, ranking(scores)[a], ranking(scores)[b]));
}

/// A sentence with a higher score stands before every sentence with a lower one.
pub proof fn lemma_higher_score_first(scores: Seq<nat>, a: int, b: int)
    requires
        0 <= a < scores.len(),
        0 <= b < scores.len(),
        scores[ranking(scores)[a]] > scores[ranking(scores)[b]],
    ensures
        a < b,
{
    lemma_ranking_of_first(scores, scores.len());
    if b < a {
        assert(outranks(scores, ranking(scores)[b], ranking(scores)[a]));
    }
}

/// A sentence that scores more than every other one leads the ranking.
pub proof fn lemma_highest_score_leads(scores: Seq<nat>, best: int)
    requires
        0 <= best < scores.len(),
        forall|other: int|
            0 <= other < scores.len() && other != best ==> scores[best] > scores[other],
    ensures
        ranking(scores)[0] == best,
{
    lemma_ranking_of_first(scores, scores.len());
    let order = ranking(scores);
    assert(order.contains(best));
    let at = choose|at: int| 0 <= at < order.len() && order[at] == best;
    if at > 0 {
        assert(outranks(scores, order[0], order[at]));
    }
}

/// Ranks the sentences by their scores: every sentence once, scores descending, equal scores
/// in the order of the text.
pub fn rank(scores: &Vec<u128>) -> (order: Vec<usize>)
    ensures
        positions(order@) == ranking(as_nats(scores@)),
        is_arrangement(positions(order@), scores.len() as nat),
        is_ranked(positions(order@), as_nats(scores@)),
{
    let ghost values = as_nats(scores@);
    let mut order: Vec<usize> = Vec::new();
    let mut i: usize = 0;
    assert(positions(order@) =~= ranking_of_first(values, 0));
    while i < scores.len()
        invariant
            i <= scores.len(),
            values == as_nats(scores@),
            positions(order@) == ranking_of_first(values, i as nat),
        decreases scores.len() - i,
    {
        proof {
            lemma_ranking_of_first(values, i as nat);
            assert forall|k: int| 0 <= k < order.len() implies #[trigger] order[k] < i by {
                assert(positions(order@)[k] == order[k]);
            }
        }
        let score = scores[i];
        let mut place: usize = 0;
        while place < order.len() && scores[order[place]] >= score
            invariant
                place <= order.len(),
                i < scores.len(),
                score == scores[i as int],
                forall|k: int| 0 <= k < order.len() ==> #[trigger] order[k] < i,
                values == as_nats(scores@),
                forall|k: int| 0 <= k < place ==> values[#[trigger] positions(order@)[k]] >= score,
            decreases order.len() - place,
        {
            assert(positions(order@)[place as int] == order[place as int]);
            place += 1;
        }
        proof {
            if place < order.len() {
                assert(positions(order@)[place as int] == order[place as int]);
            }
            lemma_entries_ahead_is(positions(order@), values, score as nat, place as int);
        }
        let ghost before = positions(order@);
        order.insert(place, i);
        assert(positions(order@) =~= before.insert(place as int, i as int));
        i += 1;
    }
    proof {
        lemma_ranking_of_first(values, scores.len() as nat);
    }
    order
}

/// Picks the `limit` best sentences, best first; all of them where there are no more than that.
pub fn select_top(scores: &Vec<u128>, limit: usize) -> (picked: Vec<usize>)
    ensures
        positions(picked@) == top_ranked(as_nats(scores@), limit as nat),
        picked.len() == if limit <= scores.len() { limit } else { scores.len() },
        forall|k: int| 0 <= k < picked.len() ==> #[trigger] picked[k] < scores.len(),
{
    let mut picked = rank(scores);
    let ghost whole = positions(picked@);
    proof {
        lemma_ranking_of_first(as_nats(scores@), scores.len() as nat);
    }
    picked.truncate(limit);
    proof {
        assert(positions(picked@) =~= top_ranked(as_nats(scores@), limit as nat));
        assert forall|k: int| 0 <= k < picked.len() implies #[trigger] picked[k] < scores.len() by {
            assert(whole[k] == picked[k]);
        }
    }
    picked
}

} // verus!
