//! The canonical form of a list of tags: trimmed, sorted, nothing twice.

use vstd::prelude::*;

use crate::text::{
    is_trimmed, lemma_str_lt_asymmetric, lemma_str_lt_irreflexive, lemma_str_lt_total,
    lemma_str_lt_transitive, lemma_trimmed_is_trimmed, str_equal, str_less, str_lt, strs, trim_str,
    trimmed,
};

verus! {

/// A list of strings in strictly ascending order: sorted, nothing twice.
pub open spec fn sorted_strs(s: Seq<Seq<char>>) -> bool {
    forall|i: int, j: int| 0 <= i < j < s.len() ==> str_lt(#[trigger] s[i], #[trigger] s[j])
}

/// A sorted list with `t` put in its place, unless it is there already.
pub open spec fn insert_sorted(s: Seq<Seq<char>>, t: Seq<char>) -> Seq<Seq<char>>
    decreases s.len(),
{
    if s.len() == 0 {
        seq![t]
    } else if s.last() == t {
        s
    } else if str_lt(s.last(), t) {
        s.push(t)
    } else {
        insert_sorted(s.drop_last(), t).push(s.last())
    }
}

/// The canonical form of a list of tags: each one trimmed, the empty ones
/// dropped, the rest sorted with nothing twice.
pub open spec fn normalized(raw: Seq<Seq<char>>) -> Seq<Seq<char>>
    decreases raw.len(),
{
    if raw.len() == 0 {
        Seq::empty()
    } else if trimmed(raw.last()).len() == 0 {
        normalized(raw.drop_last())
    } else {
        insert_sorted(normalized(raw.drop_last()), trimmed(raw.last()))
    }
}

/// Where `t` goes in a sorted list: `pos` is the first place whose string
/// does not come before `t`.
pub open spec fn is_insert_position(s: Seq<Seq<char>>, t: Seq<char>, pos: int) -> bool {
    &&& 0 <= pos <= s.len()
    &&& forall|k: int| 0 <= k < pos ==> str_lt(#[trigger] s[k], t)
    &&& pos < s.len() ==> !str_lt(s[pos], t)
}

/// Putting `t` in at its position is `insert_sorted`.
pub proof fn lemma_insert_at_position(s: Seq<Seq<char>>, t: Seq<char>, pos: int)
    requires
        sorted_strs(s),
        is_insert_position(s, t, pos),
    ensures
        insert_sorted(s, t) == if pos < s.len() && s[pos] == t {
            s
        } else {
            s.insert(pos, t)
        },
    decreases s.len(),
{
    if s.len() == 0 {
        assert(seq![t] =~= s.insert(pos, t));
    } else {
        let last = s.len() - 1;
        if s.last() == t {
            if pos < last {
                assert(str_lt(s[pos], s[last]));
            }
            if pos == s.len() {
                assert(str_lt(s[last], t));
                lemma_str_lt_irreflexive(t);
            }
        } else if str_lt(s.last(), t) {
            if pos < s.len() {
                if pos < last {
                    assert(str_lt(s[pos], s[last]));
                    lemma_str_lt_transitive(s[pos], s[last], t);
                }
            }
            assert(s.push(t) =~= s.insert(pos, t));
        } else {
            if pos == s.len() {
                assert(str_lt(s[last], t));
            }
            let front = s.drop_last();
            assert(sorted_strs(front));
            assert(is_insert_position(front, t, pos)) by {
                assert forall|k: int| 0 <= k < pos implies str_lt(#[trigger] front[k], t) by {
                    assert(front[k] == s[k]);
                }
            }
            lemma_insert_at_position(front, t, pos);
            if pos < front.len() && front[pos] == t {
                assert(front.push(s.last()) =~= s);
            } else {
                assert(front.insert(pos, t).push(s.last()) =~= s.insert(pos, t));
            }
        }
    }
}

/// `insert_sorted` keeps a list sorted and adds exactly `t` to what it holds.
pub proof fn lemma_insert_sorted(s: Seq<Seq<char>>, t: Seq<char>)
    requires
        sorted_strs(s),
    ensures
        sorted_strs(insert_sorted(s, t)),
        forall|u: Seq<char>| #[trigger] insert_sorted(s, t).contains(u) <==> (u == t || s.contains(u)),
    decreases s.len(),
{
    let r = insert_sorted(s, t);
    if s.len() == 0 {
        assert(r[0] == t);
    } else if s.last() == t {
        assert(s[s.len() - 1] == t);
    } else if str_lt(s.last(), t) {
        assert forall|i: int, j: int| 0 <= i < j < r.len() implies str_lt(
            #[trigger] r[i],
            #[trigger] r[j],
        ) by {
            if j == s.len() {
                if i < s.len() - 1 {
                    assert(str_lt(s[i], s[s.len() - 1]));
                    lemma_str_lt_transitive(s[i], s.last(), t);
                }
            } else {
                assert(str_lt(s[i], s[j]));
            }
        }
        assert forall|u: Seq<char>| #[trigger] r.contains(u) <==> (u == t || s.contains(u)) by {
            if r.contains(u) {
                let i = choose|i: int| 0 <= i < r.len() && r[i] == u;
                if i < s.len() {
                    assert(s[i] == u);
                }
            }
            if s.contains(u) {
                let i = choose|i: int| 0 <= i < s.len() && s[i] == u;
                assert(r[i] == u);
            }
            if u == t {
                assert(r[s.len() as int] == t);
            }
        }
    } else {
        let front = s.drop_last();
        let last = s.last();
        assert(sorted_strs(front)) by {
            assert forall|i: int, j: int| 0 <= i < j < front.len() implies str_lt(
                #[trigger] front[i],
                #[trigger] front[j],
            ) by {
                assert(str_lt(s[i], s[j]));
            }
        }
        lemma_insert_sorted(front, t);
        let mid = insert_sorted(front, t);
        lemma_str_lt_total(last, t);
        assert(str_lt(t, last));
        assert forall|i: int, j: int| 0 <= i < j < r.len() implies str_lt(
            #[trigger] r[i],
            #[trigger] r[j],
        ) by {
            if j == mid.len() {
                assert(mid.contains(mid[i]));
                if mid[i] != t {
                    assert(front.contains(mid[i]));
                    let k = choose|k: int| 0 <= k < front.len() && front[k] == mid[i];
                    assert(str_lt(s[k], s[s.len() - 1]));
                }
            } else {
                assert(str_lt(mid[i], mid[j]));
            }
        }
        assert forall|u: Seq<char>| #[trigger] r.contains(u) <==> (u == t || s.contains(u)) by {
            if r.contains(u) {
                let i = choose|i: int| 0 <= i < r.len() && r[i] == u;
                if i < mid.len() {
                    assert(mid.contains(u));
                    if u != t {
                        let k = choose|k: int| 0 <= k < front.len() && front[k] == u;
                        assert(s[k] == u);
                    }
                } else {
                    assert(s[s.len() - 1] == u);
                }
            }
            if s.contains(u) {
                let i = choose|i: int| 0 <= i < s.len() && s[i] == u;
                if i < front.len() {
                    assert(front[i] == u);
                    assert(front.contains(u));
                    assert(mid.contains(u));
                    let k = choose|k: int| 0 <= k < mid.len() && mid[k] == u;
                    assert(r[k] == u);
                } else {
                    assert(r[mid.len() as int] == u);
                }
            }
            if u == t {
                assert(mid.contains(t));
                let k = choose|k: int| 0 <= k < mid.len() && mid[k] == t;
                assert(r[k] == t);
            }
        }
    }
}

/// What normalizing returns: a sorted list without repeats that holds
/// exactly the trimmed forms of the given tags that are not empty.
pub proof fn lemma_normalized(raw: Seq<Seq<char>>)
    ensures
        sorted_strs(normalized(raw)),
        forall|t: Seq<char>| #[trigger]
            normalized(raw).contains(t) <==> (t.len() > 0 && exists|i: int|
                0 <= i < raw.len() && trimmed(#[trigger] raw[i]) == t),
    decreases raw.len(),
{
    let r = normalized(raw);
    if raw.len() == 0 {
    } else {
        let front = raw.drop_last();
        let t0 = trimmed(raw.last());
        lemma_normalized(front);
        let prev = normalized(front);
        if t0.len() > 0 {
            lemma_insert_sorted(prev, t0);
        }
        assert forall|t: Seq<char>| #[trigger]
            r.contains(t) <==> (t.len() > 0 && exists|i: int|
                0 <= i < raw.len() && trimmed(#[trigger] raw[i]) == t) by {
            if r.contains(t) {
                if t0.len() > 0 && t == t0 {
                    assert(trimmed(raw[raw.len() - 1]) == t);
                } else {
                    assert(prev.contains(t));
                    let i = choose|i: int| 0 <= i < front.len() && trimmed(#[trigger] front[i]) == t;
                    assert(trimmed(raw[i]) == t);
                }
            }
            if t.len() > 0 && exists|i: int| 0 <= i < raw.len() && trimmed(#[trigger] raw[i]) == t {
                let i = choose|i: int| 0 <= i < raw.len() && trimmed(#[trigger] raw[i]) == t;
                if i < front.len() {
                    assert(trimmed(front[i]) == t);
                    assert(prev.contains(t));
                }
            }
        }
    }
}

proof fn lemma_normalized_fixed(s: Seq<Seq<char>>)
    requires
        sorted_strs(s),
        forall|i: int| 0 <= i < s.len() ==> (#[trigger] s[i]).len() > 0 && is_trimmed(s[i]),
    ensures
        normalized(s) == s,
    decreases s.len(),
{
    if s.len() > 0 {
        let front = s.drop_last();
        assert(sorted_strs(front)) by {
            assert forall|i: int, j: int| 0 <= i < j < front.len() implies str_lt(
                #[trigger] front[i],
                #[trigger] front[j],
            ) by {
                assert(str_lt(s[i], s[j]));
            }
        }
        assert forall|i: int| 0 <= i < front.len() implies (#[trigger] front[i]).len() > 0
            && is_trimmed(front[i]) by {
            assert(front[i] == s[i]);
        }
        lemma_normalized_fixed(front);
        let t = s.last();
        assert(s[s.len() - 1].len() > 0 && is_trimmed(s[s.len() - 1]));
        assert(trimmed(t) == t);
        if front.len() > 0 {
            assert(str_lt(s[s.len() - 2], s[s.len() - 1]));
            lemma_str_lt_asymmetric(front.last(), t);
        }
        assert(front.push(t) =~= s);
        if front.len() == 0 {
            assert(seq![t] =~= front.push(t));
        }
    } else {
        assert(s =~= Seq::<Seq<char>>::empty());
    }
}

/// Normalizing twice is normalizing once.
pub proof fn lemma_normalize_idempotent(raw: Seq<Seq<char>>)
    ensures
        normalized(normalized(raw)) == normalized(raw),
{
    lemma_normalized(raw);
    let n = normalized(raw);
    assert forall|i: int| 0 <= i < n.len() implies (#[trigger] n[i]).len() > 0 && is_trimmed(
        n[i],
    ) by {
        assert(n.contains(n[i]));
        let k = choose|k: int| 0 <= k < raw.len() && trimmed(#[trigger] raw[k]) == n[i];
        lemma_trimmed_is_trimmed(raw[k]);
    }
    lemma_normalized_fixed(n);
}

/// Puts `tag` into a sorted list of strings, unless it is there.
fn insert_tag(sorted: &mut Vec<String>, tag: &str)
    requires
        sorted_strs(strs(old(sorted)@)),
    ensures
        strs(final(sorted)@) == insert_sorted(strs(old(sorted)@), tag@),
{
    let mut pos: usize = 0;
    while pos < sorted.len() && str_less(sorted[pos].as_str(), tag)
        invariant
            pos <= sorted.len(),
            forall|k: int| 0 <= k < pos ==> str_lt(#[trigger] strs(sorted@)[k], tag@),
        decreases sorted.len() - pos,
    {
        pos = pos + 1;
    }
    let ghost before = strs(sorted@);
    proof {
        if pos < sorted.len() {
            assert(before[pos as int] == sorted@[pos as int]@);
        }
        assert(is_insert_position(before, tag@, pos as int));
        lemma_insert_at_position(before, tag@, pos as int);
    }
    if pos < sorted.len() && str_equal(sorted[pos].as_str(), tag) {
    } else {
        sorted.insert(pos, String::from_str(tag));
        assert(strs(sorted@) =~= before.insert(pos as int, tag@));
    }
}

/// Brings a list of tags to its canonical form: each one trimmed, the empty
/// ones dropped, the rest sorted with nothing twice.
pub fn normalize_tags(raw: Vec<String>) -> (tags: Vec<String>)
    ensures
        strs(tags@) == normalized(strs(raw@)),
{
    let mut tags: Vec<String> = Vec::new();
    let mut i: usize = 0;
    assert(strs(raw@).take(0) =~= Seq::<Seq<char>>::empty());
    assert(strs(tags@) =~= Seq::<Seq<char>>::empty());
    while i < raw.len()
        invariant
            i <= raw.len(),
            strs(tags@) == normalized(strs(raw@).take(i as int)),
        decreases raw.len() - i,
    {
        let ghost upto = strs(raw@).take(i + 1);
        proof {
            assert(upto.drop_last() =~= strs(raw@).take(i as int));
            assert(upto.last() == raw@[i as int]@);
            lemma_normalized(strs(raw@).take(i as int));
        }
        let t = trim_str(raw[i].as_str());
        if !t.is_empty() {
            insert_tag(&mut tags, t);
        }
        i = i + 1;
    }
    assert(strs(raw@).take(raw.len() as int) =~= strs(raw@));
    tags
}

} // verus!
