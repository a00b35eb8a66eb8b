//! Scores and ranking of a fuzzy search.

use vstd::prelude::*;

use crate::history::capped;
use crate::listing::Listing;
use crate::store::{scope_has_keys, scope_has_tags, SearchScope};
use crate::text::strs;

verus! {

/// The longest text, in characters, that is handed to the fuzzy matcher.
/// Its scores are sums in 32 bits and its table grows with the text; up to
/// this length the sums cannot overflow.
pub const MATCH_LIMIT: usize = 1_048_576;

/// The score that the skim matcher (version 2, default settings) gives to
/// `choice` for `pattern`; `None` where it finds no match.
pub uninterp spec fn skim_score(choice: Seq<char>, pattern: Seq<char>) -> Option<i64>;

/// `fuzzy_match` of a fresh `fuzzy_matcher::skim::SkimMatcherV2::default()`.
/// The contract only names the result: it is `skim_score` of the two texts.
/// Longer texts than `MATCH_LIMIT` are left out, since the matcher's sums
/// could overflow on them.
#[verifier::external_body]
fn skim_match(choice: &str, pattern: &str) -> (score: Option<i64>)
    requires
        choice@.len() <= MATCH_LIMIT,
        pattern@.len() <= MATCH_LIMIT,
    ensures
        score == skim_score(choice@, pattern@),
{
    let matcher = fuzzy_matcher::skim::SkimMatcherV2::default();
    fuzzy_matcher::FuzzyMatcher::fuzzy_match(&matcher, choice, pattern)
}

/// The score of `choice` for `pattern`: the matcher's, and none where one
/// of the two is longer than `MATCH_LIMIT`.
pub open spec fn match_score(choice: Seq<char>, pattern: Seq<char>) -> Option<i64> {
    if choice.len() <= MATCH_LIMIT && pattern.len() <= MATCH_LIMIT {
        skim_score(choice, pattern)
    } else {
        None
    }
}

/// The greater of two scores, where no score is less than any score.
pub open spec fn better(a: Option<i64>, b: Option<i64>) -> Option<i64> {
    match (a, b) {
        (Some(x), Some(y)) => Some(if x >= y { x } else { y }),
        (Some(x), None) => Some(x),
        (None, _) => b,
    }
}

/// The best score among the tags; none where no tag matches.
pub open spec fn best_tag_score(tags: Seq<Seq<char>>, pattern: Seq<char>) -> Option<i64>
    decreases tags.len(),
{
    if tags.len() == 0 {
        None
    } else {
        better(best_tag_score(tags.drop_last(), pattern), match_score(tags.last(), pattern))
    }
}

/// The score of an entry from the score of its key and the best score of
/// its tags: the one that the scope names, or the greater where it names both.
pub open spec fn combined(scope: SearchScope, key_score: Option<i64>, tag_score: Option<i64>) -> Option<i64> {
    match scope {
        SearchScope::All => better(key_score, tag_score),
        SearchScope::KeysOnly => key_score,
        SearchScope::TagsOnly => tag_score,
    }
}

/// The score of an entry in a search; none where it does not qualify.
pub open spec fn entry_score(
    key: Seq<char>,
    tags: Seq<Seq<char>>,
    pattern: Seq<char>,
    scope: SearchScope,
) -> Option<i64> {
    combined(
        scope,
        if scope_has_keys(scope) {
            match_score(key, pattern)
        } else {
            None
        },
        if scope_has_tags(scope) {
            best_tag_score(tags, pattern)
        } else {
            None
        },
    )
}

/// The scores of a listing's entries, place by place.
pub open spec fn listing_scores(l: Listing, pattern: Seq<char>, scope: SearchScope) -> Seq<Option<i64>> {
    Seq::new(l.len(), |k: int| entry_score(l[k].0, l[k].1.tags, pattern, scope))
}

/// A ranking with `item` put behind all that score at least as much.
pub open spec fn rank_insert(order: Seq<(usize, i64)>, item: (usize, i64)) -> Seq<(usize, i64)>
    decreases order.len(),
{
    if order.len() == 0 {
        seq![item]
    } else if order.last().1 >= item.1 {
        order.push(item)
    } else {
        rank_insert(order.drop_last(), item).push(order.last())
    }
}

/// The places that have a score, with their scores: the higher score
/// first, and of two equal scores the earlier place first.
pub open spec fn ranking(scores: Seq<Option<i64>>) -> Seq<(usize, i64)>
    decreases scores.len(),
{
    if scores.len() == 0 {
        Seq::empty()
    } else {
        let before = ranking(scores.drop_last());
        match scores.last() {
            Some(score) => rank_insert(before, ((scores.len() - 1) as usize, score)),
            None => before,
        }
    }
}

/// `a` stands before `b` in a ranking.
pub open spec fn ranks_before(a: (usize, i64), b: (usize, i64)) -> bool {
    a.1 > b.1 || (a.1 == b.1 && a.0 < b.0)
}

/// A ranking in order.
pub open spec fn ranked(order: Seq<(usize, i64)>) -> bool {
    forall|i: int, j: int| 0 <= i < j < order.len() ==> ranks_before(#[trigger] order[i], #[trigger] order[j])
}

proof fn lemma_rank_insert_at(order: Seq<(usize, i64)>, item: (usize, i64), pos: int)
    requires
        0 <= pos <= order.len(),
        forall|k: int| pos <= k < order.len() ==> (#[trigger] order[k]).1 < item.1,
        pos > 0 ==> order[pos - 1].1 >= item.1,
    ensures
        rank_insert(order, item) == order.insert(pos, item),
    decreases order.len(),
{
    if order.len() == 0 {
        assert(seq![item] =~= order.insert(pos, item));
    } else if order.last().1 >= item.1 {
        if pos < order.len() {
            assert(order[order.len() - 1].1 < item.1);
        }
        assert(order.push(item) =~= order.insert(pos, item));
    } else {
        let front = order.drop_last();
        assert forall|k: int| pos <= k < front.len() implies (#[trigger] front[k]).1 < item.1 by {
            assert(front[k] == order[k]);
        }
        lemma_rank_insert_at(front, item, pos);
        assert(front.insert(pos, item).push(order.last()) =~= order.insert(pos, item));
    }
}

proof fn lemma_rank_insert(order: Seq<(usize, i64)>, item: (usize, i64))
    requires
        ranked(order),
        forall|i: int| 0 <= i < order.len() ==> (#[trigger] order[i]).0 < item.0,
    ensures
        ranked(rank_insert(order, item)),
        rank_insert(order, item).len() == order.len() + 1,
        forall|x: (usize, i64)| #[trigger] rank_insert(order, item).contains(x) <==> (x == item || order.contains(x)),
    decreases order.len(),
{
    let r = rank_insert(order, item);
    if order.len() == 0 {
        assert(r[0] == item);
    } else if order.last().1 >= item.1 {
        assert forall|i: int, j: int| 0 <= i < j < r.len() implies ranks_before(
            #[trigger] r[i],
            #[trigger] r[j],
        ) by {
            if j == order.len() {
                if i < order.len() - 1 {
                    assert(ranks_before(order[i], order[order.len() - 1]));
                }
                assert(order[i].0 < item.0);
            } else {
                assert(ranks_before(order[i], order[j]));
            }
        }
        assert forall|x: (usize, i64)| #[trigger] r.contains(x) <==> (x == item || order.contains(x)) by {
            if r.contains(x) {
                let i = choose|i: int| 0 <= i < r.len() && r[i] == x;
                if i < order.len() {
                    assert(order[i] == x);
                }
            }
            if order.contains(x) {
                let i = choose|i: int| 0 <= i < order.len() && order[i] == x;
                assert(r[i] == x);
            }
            if x == item {
                assert(r[order.len() as int] == x);
            }
        }
    } else {
        let front = order.drop_last();
        let last = order.last();
        assert(ranked(front)) by {
            assert forall|i: int, j: int| 0 <= i < j < front.len() implies ranks_before(
                #[trigger] front[i],
                #[trigger] front[j],
            ) by {
                assert(ranks_before(order[i], order[j]));
            }
        }
        assert forall|i: int| 0 <= i < front.len() implies (#[trigger] front[i]).0 < item.0 by {
            assert(front[i] == order[i]);
        }
        lemma_rank_insert(front, item);
        let mid = rank_insert(front, item);
        assert forall|i: int, j: int| 0 <= i < j < r.len() implies ranks_before(
            #[trigger] r[i],
            #[trigger] r[j],
        ) by {
            if j == mid.len() {
                assert(mid.contains(mid[i]));
                if mid[i] != item {
                    assert(front.contains(mid[i]));
                    let k = choose|k: int| 0 <= k < front.len() && front[k] == mid[i];
                    assert(ranks_before(order[k], order[order.len() - 1]));
                }
            } else {
                assert(ranks_before(mid[i], mid[j]));
            }
        }
        assert forall|x: (usize, i64)| #[trigger] r.contains(x) <==> (x == item || order.contains(x)) by {
            if r.contains(x) {
                let i = choose|i: int| 0 <= i < r.len() && r[i] == x;
                if i < mid.len() {
                    assert(mid[i] == x);
                    assert(mid.contains(x));
                    if x != item {
                        assert(front.contains(x));
                        let k = choose|k: int| 0 <= k < front.len() && front[k] == x;
                        assert(order[k] == x);
                    }
                } else {
                    assert(order[order.len() - 1] == x);
                }
            }
            if order.contains(x) {
                let i = choose|i: int| 0 <= i < order.len() && order[i] == x;
                if i < front.len() {
                    assert(front[i] == x);
                    assert(front.contains(x));
                    assert(mid.contains(x));
                    let k = choose|k: int| 0 <= k < mid.len() && mid[k] == x;
                    assert(r[k] == x);
                } else {
                    assert(r[mid.len() as int] == x);
                }
            }
            if x == item {
                assert(mid.contains(item));
                let k = choose|k: int| 0 <= k < mid.len() && mid[k] == item;
                assert(r[k] == x);
            }
        }
    }
}

/// What a ranking is: it holds exactly the places that have a score, each
/// once and with its score, the higher score first and of two equal scores
/// the earlier place first.
pub proof fn lemma_ranking(scores: Seq<Option<i64>>)
    requires
        scores.len() <= usize::MAX,
    ensures
        ranked(ranking(scores)),
        ranking(scores).len() <= scores.len(),
        forall|i: int|
            0 <= i < ranking(scores).len() ==> (#[trigger] ranking(scores)[i]).0 < scores.len()
                && scores[ranking(scores)[i].0 as int] == Some(ranking(scores)[i].1),
        forall|k: int|
            0 <= k < scores.len() && (#[trigger] scores[k]) is Some ==> ranking(scores).contains(
                (k as usize, scores[k]->Some_0),
            ),
    decreases scores.len(),
{
    let r = ranking(scores);
    if scores.len() > 0 {
        let front = scores.drop_last();
        lemma_ranking(front);
        let before = ranking(front);
        let n = (scores.len() - 1) as usize;
        match scores.last() {
            Some(score) => {
                let item = (n, score);
                assert forall|i: int| 0 <= i < before.len() implies (#[trigger] before[i]).0 < item.0 by {}
                lemma_rank_insert(before, item);
                assert forall|i: int| 0 <= i < r.len() implies (#[trigger] r[i]).0 < scores.len()
                    && scores[r[i].0 as int] == Some(r[i].1) by {
                    assert(r.contains(r[i]));
                    if r[i] != item {
                        assert(before.contains(r[i]));
                        let m = choose|m: int| 0 <= m < before.len() && before[m] == r[i];
                        assert(front[before[m].0 as int] == scores[before[m].0 as int]);
                    }
                }
                assert forall|k: int| 0 <= k < scores.len() && (#[trigger] scores[k]) is Some implies r.contains(
                    (k as usize, scores[k]->Some_0),
                ) by {
                    if k < front.len() {
                        assert(front[k] == scores[k]);
                        assert(before.contains((k as usize, front[k]->Some_0)));
                    }
                }
            },
            None => {
                assert forall|i: int| 0 <= i < r.len() implies (#[trigger] r[i]).0 < scores.len()
                    && scores[r[i].0 as int] == Some(r[i].1) by {
                    assert(front[before[i].0 as int] == scores[before[i].0 as int]);
                }
                assert forall|k: int| 0 <= k < scores.len() && (#[trigger] scores[k]) is Some implies r.contains(
                    (k as usize, scores[k]->Some_0),
                ) by {
                    assert(front[k] == scores[k]);
                }
            },
        }
    }
}

/// The greater of two scores.
pub fn better_score(a: Option<i64>, b: Option<i64>) -> (r: Option<i64>)
    ensures
        r == better(a, b),
{
    match (a, b) {
        (Some(x), Some(y)) => Some(if x >= y { x } else { y }),
        (Some(x), None) => Some(x),
        (None, _) => b,
    }
}

/// The score of an entry from the score of its key and the best score of
/// its tags.
pub fn combined_score(scope: SearchScope, key_score: Option<i64>, tag_score: Option<i64>) -> (r:
    Option<i64>)
    ensures
        r == combined(scope, key_score, tag_score),
{
    match scope {
        SearchScope::All => better_score(key_score, tag_score),
        SearchScope::KeysOnly => key_score,
        SearchScope::TagsOnly => tag_score,
    }
}

/// Ranks the places that have a score and returns the first `limit` of
/// the ranking.
pub fn rank_scores(scores: &Vec<Option<i64>>, limit: usize) -> (order: Vec<(usize, i64)>)
    ensures
        order@ == capped(ranking(scores@), limit as nat),
{
    let mut order: Vec<(usize, i64)> = Vec::new();
    let mut i: usize = 0;
    assert(scores@.take(0) =~= Seq::<Option<i64>>::empty());
    while i < scores.len()
        invariant
            i <= scores.len(),
            order@ == ranking(scores@.take(i as int)),
        decreases scores.len() - i,
    {
        let ghost upto = scores@.take(i + 1);
        proof {
            assert(upto.drop_last() =~= scores@.take(i as int));
            assert(upto.last() == scores@[i as int]);
        }
        match scores[i] {
            Some(score) => {
                let mut pos: usize = order.len();
                while pos > 0 && order[pos - 1].1 < score
                    invariant
                        pos <= order.len(),
                        forall|k: int| pos <= k < order.len() ==> (#[trigger] order@[k]).1 < score,
                    decreases pos,
                {
                    pos = pos - 1;
                }
                proof {
                    lemma_rank_insert_at(order@, (i, score), pos as int);
                }
                order.insert(pos, (i, score));
            },
            None => {},
        }
        i = i + 1;
    }
    assert(scores@.take(scores.len() as int) =~= scores@);
    order.truncate(limit);
    order
}

/// The score of `choice` for `pattern`.
pub fn fuzzy_score(choice: &str, pattern: &str) -> (score: Option<i64>)
    ensures
        score == match_score(choice@, pattern@),
{
    if choice.unicode_len() <= MATCH_LIMIT && pattern.unicode_len() <= MATCH_LIMIT {
        skim_match(choice, pattern)
    } else {
        None
    }
}

/// The best score among the tags.
pub fn best_tag(tags: &Vec<String>, pattern: &str) -> (score: Option<i64>)
    ensures
        score == best_tag_score(strs(tags@), pattern@),
{
    let mut best: Option<i64> = None;
    let mut i: usize = 0;
    assert(strs(tags@).take(0) =~= Seq::<Seq<char>>::empty());
    while i < tags.len()
        invariant
            i <= tags.len(),
            best == best_tag_score(strs(tags@).take(i as int), pattern@),
        decreases tags.len() - i,
    {
        let ghost upto = strs(tags@).take(i + 1);
        proof {
            assert(upto.drop_last() =~= strs(tags@).take(i as int));
            assert(upto.last() == tags@[i as int]@);
        }
        best = better_score(best, fuzzy_score(tags[i].as_str(), pattern));
        i = i + 1;
    }
    assert(strs(tags@).take(tags.len() as int) =~= strs(tags@));
    best
}

} // verus!
