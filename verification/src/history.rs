//! The log of recently used keys as a sequence: what recording, pruning
//! and loading do to it, and what stays true of it.

use vstd::prelude::*;

use crate::text::{str_equal, strs};

verus! {

/// A log without `key`.
pub open spec fn without(log: Seq<Seq<char>>, key: Seq<char>) -> Seq<Seq<char>>
    decreases log.len(),
{
    if log.len() == 0 {
        Seq::empty()
    } else if log.last() == key {
        without(log.drop_last(), key)
    } else {
        without(log.drop_last(), key).push(log.last())
    }
}

/// The first `n` of a list, or all of it where it has no more.
pub open spec fn capped<A>(log: Seq<A>, n: nat) -> Seq<A> {
    if n < log.len() {
        log.take(n as int)
    } else {
        log
    }
}

/// The log after `key` was used: `key` first, then the others as they were,
/// cut to the capacity.
pub open spec fn recorded(log: Seq<Seq<char>>, key: Seq<char>, capacity: nat) -> Seq<Seq<char>> {
    capped(seq![key] + without(log, key), capacity)
}

/// The keys of a log that a set of keys still holds, in their order.
pub open spec fn pruned(log: Seq<Seq<char>>, keys: Set<Seq<char>>) -> Seq<Seq<char>>
    decreases log.len(),
{
    if log.len() == 0 {
        Seq::empty()
    } else if keys.contains(log.last()) {
        pruned(log.drop_last(), keys).push(log.last())
    } else {
        pruned(log.drop_last(), keys)
    }
}

/// The keys of a saved log that are kept on loading: those that the store
/// holds, each at its first occurrence.
pub open spec fn kept(lines: Seq<Seq<char>>, keys: Set<Seq<char>>) -> Seq<Seq<char>>
    decreases lines.len(),
{
    if lines.len() == 0 {
        Seq::empty()
    } else {
        let before = kept(lines.drop_last(), keys);
        if keys.contains(lines.last()) && !before.contains(lines.last()) {
            before.push(lines.last())
        } else {
            before
        }
    }
}

/// No key stands twice in the log.
pub open spec fn distinct(log: Seq<Seq<char>>) -> bool {
    forall|i: int, j: int| 0 <= i < j < log.len() ==> #[trigger] log[i] != #[trigger] log[j]
}

/// What holds of a log of recently used keys: no key twice, each key held
/// by the store, no more keys than the capacity.
pub open spec fn history_ok(log: Seq<Seq<char>>, keys: Set<Seq<char>>, capacity: nat) -> bool {
    &&& distinct(log)
    &&& forall|i: int| 0 <= i < log.len() ==> keys.contains(#[trigger] log[i])
    &&& log.len() <= capacity
}

/// What `without` leaves: the other keys, in their order.
pub proof fn lemma_without(log: Seq<Seq<char>>, key: Seq<char>)
    ensures
        forall|k: Seq<char>| #[trigger] without(log, key).contains(k) <==> (log.contains(k) && k != key),
        distinct(log) ==> distinct(without(log, key)),
        without(log, key).len() <= log.len(),
        !log.contains(key) ==> without(log, key) == log,
    decreases log.len(),
{
    let r = without(log, key);
    if log.len() > 0 {
        let front = log.drop_last();
        let last = log.last();
        lemma_without(front, key);
        let wf = without(front, key);
        assert forall|k: Seq<char>| #[trigger] r.contains(k) <==> (log.contains(k) && k != key) by {
            if r.contains(k) {
                let i = choose|i: int| 0 <= i < r.len() && r[i] == k;
                if i < wf.len() {
                    assert(wf[i] == k);
                    assert(wf.contains(k));
                    let j = choose|j: int| 0 <= j < front.len() && front[j] == k;
                    assert(log[j] == k);
                } else {
                    assert(log[log.len() - 1] == k);
                }
            }
            if log.contains(k) && k != key {
                let j = choose|j: int| 0 <= j < log.len() && log[j] == k;
                if j < front.len() {
                    assert(front[j] == k);
                    assert(front.contains(k));
                    assert(wf.contains(k));
                    let i = choose|i: int| 0 <= i < wf.len() && wf[i] == k;
                    assert(r[i] == k);
                } else {
                    assert(r[r.len() - 1] == k);
                }
            }
        }
        if distinct(log) {
            assert(distinct(front)) by {
                assert forall|i: int, j: int| 0 <= i < j < front.len() implies #[trigger] front[i]
                    != #[trigger] front[j] by {
                    assert(log[i] != log[j]);
                }
            }
            assert forall|i: int, j: int| 0 <= i < j < r.len() implies #[trigger] r[i] != #[trigger] r[j] by {
                if j < wf.len() {
                    assert(wf[i] != wf[j]);
                } else {
                    assert(wf.contains(wf[i]));
                    let m = choose|m: int| 0 <= m < front.len() && front[m] == wf[i];
                    assert(log[m] != log[log.len() - 1]);
                }
            }
        }
        if !log.contains(key) {
            assert(log[log.len() - 1] != key);
            assert(!front.contains(key)) by {
                if front.contains(key) {
                    let j = choose|j: int| 0 <= j < front.len() && front[j] == key;
                    assert(log[j] == key);
                }
            }
            assert(front.push(last) =~= log);
        }
    }
}

/// In a log without repeats, `without` takes out the one place of the key.
pub proof fn lemma_without_at(log: Seq<Seq<char>>, key: Seq<char>, at: int)
    requires
        distinct(log),
        0 <= at < log.len(),
        log[at] == key,
    ensures
        without(log, key) == log.remove(at),
    decreases log.len(),
{
    let front = log.drop_last();
    assert(distinct(front)) by {
        assert forall|i: int, j: int| 0 <= i < j < front.len() implies #[trigger] front[i]
            != #[trigger] front[j] by {
            assert(log[i] != log[j]);
        }
    }
    if at == log.len() - 1 {
        assert(!front.contains(key)) by {
            if front.contains(key) {
                let j = choose|j: int| 0 <= j < front.len() && front[j] == key;
                assert(log[j] != log[at]);
            }
        }
        lemma_without(front, key);
        assert(front =~= log.remove(at));
    } else {
        assert(log[at] != log[log.len() - 1]);
        assert(front[at] == key);
        lemma_without_at(front, key, at);
        assert(front.remove(at).push(log.last()) =~= log.remove(at));
    }
}

/// What pruning leaves: the keys that the set holds, in their order.
pub proof fn lemma_pruned(log: Seq<Seq<char>>, keys: Set<Seq<char>>)
    ensures
        forall|k: Seq<char>| #[trigger] pruned(log, keys).contains(k) <==> (log.contains(k) && keys.contains(k)),
        distinct(log) ==> distinct(pruned(log, keys)),
        pruned(log, keys).len() <= log.len(),
        (forall|i: int| 0 <= i < log.len() ==> keys.contains(#[trigger] log[i])) ==> pruned(log, keys) == log,
    decreases log.len(),
{
    let r = pruned(log, keys);
    if log.len() > 0 {
        let front = log.drop_last();
        let last = log.last();
        lemma_pruned(front, keys);
        let pf = pruned(front, keys);
        assert forall|k: Seq<char>| #[trigger] r.contains(k) <==> (log.contains(k) && keys.contains(k)) by {
            if r.contains(k) {
                let i = choose|i: int| 0 <= i < r.len() && r[i] == k;
                if i < pf.len() {
                    assert(pf[i] == k);
                    assert(pf.contains(k));
                    let j = choose|j: int| 0 <= j < front.len() && front[j] == k;
                    assert(log[j] == k);
                } else {
                    assert(log[log.len() - 1] == k);
                }
            }
            if log.contains(k) && keys.contains(k) {
                let j = choose|j: int| 0 <= j < log.len() && log[j] == k;
                if j < front.len() {
                    assert(front[j] == k);
                    assert(front.contains(k));
                    assert(pf.contains(k));
                    let i = choose|i: int| 0 <= i < pf.len() && pf[i] == k;
                    assert(r[i] == k);
                } else {
                    assert(r[r.len() - 1] == k);
                }
            }
        }
        if distinct(log) {
            assert(distinct(front)) by {
                assert forall|i: int, j: int| 0 <= i < j < front.len() implies #[trigger] front[i]
                    != #[trigger] front[j] by {
                    assert(log[i] != log[j]);
                }
            }
            assert forall|i: int, j: int| 0 <= i < j < r.len() implies #[trigger] r[i] != #[trigger] r[j] by {
                if j < pf.len() {
                    assert(pf[i] != pf[j]);
                } else {
                    assert(pf.contains(pf[i]));
                    let m = choose|m: int| 0 <= m < front.len() && front[m] == pf[i];
                    assert(log[m] != log[log.len() - 1]);
                }
            }
        }
        if forall|i: int| 0 <= i < log.len() ==> keys.contains(#[trigger] log[i]) {
            assert(keys.contains(log[log.len() - 1]));
            assert forall|i: int| 0 <= i < front.len() implies keys.contains(#[trigger] front[i]) by {
                assert(front[i] == log[i]);
            }
            assert(front.push(last) =~= log);
        }
    }
}

/// What loading keeps: keys that the set holds, none twice; and a log that
/// is in order is kept whole.
pub proof fn lemma_kept(lines: Seq<Seq<char>>, keys: Set<Seq<char>>)
    ensures
        distinct(kept(lines, keys)),
        forall|k: Seq<char>| #[trigger] kept(lines, keys).contains(k) <==> (lines.contains(k) && keys.contains(k)),
        kept(lines, keys).len() <= lines.len(),
        distinct(lines) && (forall|i: int| 0 <= i < lines.len() ==> keys.contains(#[trigger] lines[i]))
            ==> kept(lines, keys) == lines,
    decreases lines.len(),
{
    let r = kept(lines, keys);
    if lines.len() > 0 {
        let front = lines.drop_last();
        let last = lines.last();
        lemma_kept(front, keys);
        let kf = kept(front, keys);
        assert forall|k: Seq<char>| #[trigger] r.contains(k) <==> (lines.contains(k) && keys.contains(k)) by {
            if r.contains(k) {
                let i = choose|i: int| 0 <= i < r.len() && r[i] == k;
                if i < kf.len() {
                    assert(kf[i] == k);
                    assert(kf.contains(k));
                    let j = choose|j: int| 0 <= j < front.len() && front[j] == k;
                    assert(lines[j] == k);
                } else {
                    assert(lines[lines.len() - 1] == k);
                }
            }
            if lines.contains(k) && keys.contains(k) {
                let j = choose|j: int| 0 <= j < lines.len() && lines[j] == k;
                if j < front.len() {
                    assert(front[j] == k);
                    assert(front.contains(k));
                    assert(kf.contains(k));
                    let i = choose|i: int| 0 <= i < kf.len() && kf[i] == k;
                    assert(r[i] == k);
                } else if kf.contains(k) {
                    let i = choose|i: int| 0 <= i < kf.len() && kf[i] == k;
                    assert(r[i] == k);
                } else {
                    assert(r[r.len() - 1] == k);
                }
            }
        }
        assert forall|i: int, j: int| 0 <= i < j < r.len() implies #[trigger] r[i] != #[trigger] r[j] by {
            if j < kf.len() {
                assert(kf[i] != kf[j]);
            } else {
                assert(kf.contains(kf[i]));
            }
        }
        if distinct(lines) && (forall|i: int| 0 <= i < lines.len() ==> keys.contains(#[trigger] lines[i])) {
            assert(keys.contains(lines[lines.len() - 1]));
            assert(distinct(front)) by {
                assert forall|i: int, j: int| 0 <= i < j < front.len() implies #[trigger] front[i]
                    != #[trigger] front[j] by {
                    assert(lines[i] != lines[j]);
                }
            }
            assert forall|i: int| 0 <= i < front.len() implies keys.contains(#[trigger] front[i]) by {
                assert(front[i] == lines[i]);
            }
            assert(!kf.contains(last)) by {
                if front.contains(last) {
                    let j = choose|j: int| 0 <= j < front.len() && front[j] == last;
                    assert(lines[j] != lines[lines.len() - 1]);
                }
            }
            assert(front.push(last) =~= lines);
        }
    }
}

/// The log stays in order when a key of the store is recorded, and that key
/// then stands first.
pub proof fn lemma_recorded(log: Seq<Seq<char>>, key: Seq<char>, keys: Set<Seq<char>>, capacity: nat)
    requires
        history_ok(log, keys, capacity),
        keys.contains(key),
    ensures
        history_ok(recorded(log, key, capacity), keys, capacity),
        capacity > 0 ==> recorded(log, key, capacity).len() > 0 && recorded(log, key, capacity)[0] == key,
{
    lemma_without(log, key);
    let rest = without(log, key);
    let all = seq![key] + rest;
    assert forall|i: int, j: int| 0 <= i < j < all.len() implies #[trigger] all[i] != #[trigger] all[j] by {
        if i == 0 {
            assert(rest.contains(rest[j - 1]));
        } else {
            assert(rest[i - 1] != rest[j - 1]);
        }
    }
    assert forall|i: int| 0 <= i < all.len() implies keys.contains(#[trigger] all[i]) by {
        if i > 0 {
            assert(rest.contains(rest[i - 1]));
            let m = choose|m: int| 0 <= m < log.len() && log[m] == rest[i - 1];
            assert(keys.contains(log[m]));
        }
    }
    let r = recorded(log, key, capacity);
    assert forall|i: int, j: int| 0 <= i < j < r.len() implies #[trigger] r[i] != #[trigger] r[j] by {
        assert(all[i] != all[j]);
    }
    assert forall|i: int| 0 <= i < r.len() implies keys.contains(#[trigger] r[i]) by {
        assert(r[i] == all[i]);
    }
}

/// The place of `key` in a list of strings, if it is there.
pub fn index_of(list: &Vec<String>, key: &str) -> (r: Option<usize>)
    ensures
        match r {
            Some(i) => i < list.len() && list@[i as int]@ == key@,
            None => !strs(list@).contains(key@),
        },
{
    let mut i: usize = 0;
    while i < list.len()
        invariant
            i <= list.len(),
            forall|k: int| 0 <= k < i ==> list@[k]@ != key@,
        decreases list.len() - i,
    {
        if str_equal(list[i].as_str(), key) {
            return Some(i);
        }
        i = i + 1;
    }
    assert(!strs(list@).contains(key@)) by {
        if strs(list@).contains(key@) {
            let k = choose|k: int| 0 <= k < strs(list@).len() && strs(list@)[k] == key@;
            assert(list@[k]@ != key@);
        }
    }
    None
}

/// The log after the keys of `accesses` were used in turn.
pub open spec fn replayed(log: Seq<Seq<char>>, accesses: Seq<Seq<char>>, capacity: nat) -> Seq<Seq<char>>
    decreases accesses.len(),
{
    if accesses.len() == 0 {
        log
    } else {
        recorded(replayed(log, accesses.drop_last(), capacity), accesses.last(), capacity)
    }
}

/// The bound of the log: after different keys were used in turn, starting
/// from an empty log, the log holds the latest of them, the latest first,
/// as many as its capacity allows. In particular after more uses than the
/// capacity it holds exactly `capacity` keys.
pub proof fn lemma_replay_distinct(accesses: Seq<Seq<char>>, capacity: nat)
    requires
        distinct(accesses),
    ensures
        replayed(Seq::empty(), accesses, capacity) == capped(accesses.reverse(), capacity),
        distinct(replayed(Seq::empty(), accesses, capacity)),
        accesses.len() >= capacity ==> replayed(Seq::empty(), accesses, capacity).len() == capacity,
    decreases accesses.len(),
{
    let r = replayed(Seq::empty(), accesses, capacity);
    if accesses.len() == 0 {
        assert(accesses.reverse() =~= Seq::<Seq<char>>::empty());
        assert(r =~= capped(accesses.reverse(), capacity));
    } else {
        let front = accesses.drop_last();
        let key = accesses.last();
        assert(distinct(front)) by {
            assert forall|i: int, j: int| 0 <= i < j < front.len() implies #[trigger] front[i]
                != #[trigger] front[j] by {
                assert(accesses[i] != accesses[j]);
            }
        }
        lemma_replay_distinct(front, capacity);
        let before = replayed(Seq::empty(), front, capacity);
        let rev = front.reverse();
        assert(!before.contains(key)) by {
            if before.contains(key) {
                let i = choose|i: int| 0 <= i < before.len() && before[i] == key;
                assert(before[i] == rev[i]);
                assert(rev[i] == front[front.len() - 1 - i]);
                assert(accesses[front.len() - 1 - i] != accesses[accesses.len() - 1]);
            }
        }
        lemma_without(before, key);
        assert(accesses.reverse() =~= seq![key] + rev);
        assert(r =~= capped(accesses.reverse(), capacity));
        let whole = accesses.reverse();
        assert forall|i: int, j: int| 0 <= i < j < r.len() implies #[trigger] r[i] != #[trigger] r[j] by {
            assert(r[i] == accesses[accesses.len() - 1 - i]);
            assert(r[j] == accesses[accesses.len() - 1 - j]);
            assert(accesses[accesses.len() - 1 - j] != accesses[accesses.len() - 1 - i]);
        }
    }
}

/// A saved log comes back as it was: a log that is in order, with no line
/// feed in a key, is what loading makes of the text written for it.
pub proof fn lemma_history_reload(log: Seq<Seq<char>>, keys: Set<Seq<char>>, capacity: nat)
    requires
        history_ok(log, keys, capacity),
        forall|i: int| 0 <= i < log.len() ==> crate::text::single_line(#[trigger] log[i]),
    ensures
        capped(kept(crate::text::split_lines(crate::text::render_lines(log)), keys), capacity) == log,
{
    crate::text::lemma_lines_round_trip(log);
    lemma_kept(log, keys);
}

} // verus!
