//! Listings: keys with their entries in ascending key order, and the
//! mapping that a listing stands for.

use vstd::prelude::*;

use crate::store::EntryView;
use crate::text::{
    lemma_str_lt_asymmetric, lemma_str_lt_irreflexive, lemma_str_lt_total, str_lt,
};

verus! {

/// The keys and entries of a store in listing order.
pub type Listing = Seq<(Seq<char>, EntryView)>;

/// A listing in strictly ascending key order: sorted, no key twice.
pub open spec fn sorted_listing(l: Listing) -> bool {
    forall|i: int, j: int| 0 <= i < j < l.len() ==> str_lt(#[trigger] l[i].0, #[trigger] l[j].0)
}

/// Whether a listing holds a key.
pub open spec fn listing_has(l: Listing, key: Seq<char>) -> bool {
    exists|i: int| 0 <= i < l.len() && #[trigger] l[i].0 == key
}

/// The mapping from key to entry that a listing stands for.
pub open spec fn listing_map(l: Listing) -> Map<Seq<char>, EntryView> {
    Map::new(
        |k: Seq<char>| listing_has(l, k),
        |k: Seq<char>| l[choose|i: int| 0 <= i < l.len() && #[trigger] l[i].0 == k].1,
    )
}

/// In a sorted listing each place holds its key's entry, and no other place
/// holds that key.
pub proof fn lemma_listing_map(l: Listing)
    requires
        sorted_listing(l),
    ensures
        forall|i: int|
            0 <= i < l.len() ==> listing_map(l).contains_key(#[trigger] l[i].0) && listing_map(
                l,
            )[l[i].0] == l[i].1,
        forall|i: int, j: int| 0 <= i < l.len() && 0 <= j < l.len() && i != j ==> #[trigger] l[i].0 != #[trigger] l[j].0,
{
    assert forall|i: int, j: int| 0 <= i < l.len() && 0 <= j < l.len() && i != j implies #[trigger] l[i].0 != #[trigger] l[j].0 by {
        if i < j {
            lemma_str_lt_asymmetric(l[i].0, l[j].0);
        } else {
            lemma_str_lt_asymmetric(l[j].0, l[i].0);
        }
    }
    assert forall|i: int| 0 <= i < l.len() implies listing_map(l).contains_key(#[trigger] l[i].0)
        && listing_map(l)[l[i].0] == l[i].1 by {
        let k = l[i].0;
        assert(listing_has(l, k));
        let j = choose|j: int| 0 <= j < l.len() && #[trigger] l[j].0 == k;
        assert(j == i);
    }
}

/// Two sorted listings of the same mapping are the same listing: the order
/// of a listing is fixed by what it holds.
pub proof fn lemma_listing_unique(a: Listing, b: Listing)
    requires
        sorted_listing(a),
        sorted_listing(b),
        listing_map(a) == listing_map(b),
    ensures
        a == b,
    decreases a.len(),
{
    lemma_listing_map(a);
    lemma_listing_map(b);
    if a.len() == 0 {
        if b.len() > 0 {
            assert(listing_map(b).contains_key(b[0].0));
            assert(listing_has(a, b[0].0));
        }
        assert(a =~= b);
    } else {
        let la = a.last();
        assert(listing_map(a).contains_key(a[a.len() - 1].0));
        assert(listing_has(b, la.0));
        if b.len() == 0 {
        } else {
            let lb = b.last();
            assert(listing_map(b).contains_key(b[b.len() - 1].0));
            assert(listing_has(a, lb.0));
            let ia = choose|i: int| 0 <= i < a.len() && #[trigger] a[i].0 == lb.0;
            let ib = choose|i: int| 0 <= i < b.len() && #[trigger] b[i].0 == la.0;
            // the greatest keys agree
            if la.0 != lb.0 {
                assert(ia < a.len() - 1);
                assert(ib < b.len() - 1);
                assert(str_lt(a[ia].0, a[a.len() - 1].0));
                assert(str_lt(b[ib].0, b[b.len() - 1].0));
                lemma_str_lt_asymmetric(lb.0, la.0);
            }
            assert(la.1 == lb.1);
            let fa = a.drop_last();
            let fb = b.drop_last();
            assert(sorted_listing(fa)) by {
                assert forall|i: int, j: int| 0 <= i < j < fa.len() implies str_lt(
                    #[trigger] fa[i].0,
                    #[trigger] fa[j].0,
                ) by {
                    assert(str_lt(a[i].0, a[j].0));
                }
            }
            assert(sorted_listing(fb)) by {
                assert forall|i: int, j: int| 0 <= i < j < fb.len() implies str_lt(
                    #[trigger] fb[i].0,
                    #[trigger] fb[j].0,
                ) by {
                    assert(str_lt(b[i].0, b[j].0));
                }
            }
            lemma_listing_map(fa);
            lemma_listing_map(fb);
            assert(listing_map(fa) =~= listing_map(fb)) by {
                assert forall|k: Seq<char>| listing_has(fa, k) implies listing_has(fb, k)
                    && listing_map(fa)[k] == listing_map(fb)[k] by {
                    let i = choose|i: int| 0 <= i < fa.len() && #[trigger] fa[i].0 == k;
                    assert(a[i].0 == k);
                    assert(listing_map(a).contains_key(k));
                    assert(listing_has(b, k));
                    let j = choose|j: int| 0 <= j < b.len() && #[trigger] b[j].0 == k;
                    assert(j < b.len() - 1);
                    assert(fb[j].0 == k);
                    assert(listing_map(fb)[fb[j].0] == fb[j].1);
                    assert(listing_map(fa)[fa[i].0] == fa[i].1);
                    assert(listing_map(a)[a[i].0] == a[i].1);
                    assert(listing_map(b)[b[j].0] == b[j].1);
                }
                assert forall|k: Seq<char>| listing_has(fb, k) implies listing_has(fa, k) by {
                    let j = choose|j: int| 0 <= j < fb.len() && #[trigger] fb[j].0 == k;
                    assert(b[j].0 == k);
                    assert(listing_map(b).contains_key(k));
                    assert(listing_has(a, k));
                    let i = choose|i: int| 0 <= i < a.len() && #[trigger] a[i].0 == k;
                    assert(i < a.len() - 1);
                    assert(fa[i].0 == k);
                }
            }
            lemma_listing_unique(fa, fb);
            assert(a =~= fa.push(la));
            assert(b =~= fb.push(lb));
        }
    }
}

/// Where `key` is or would go in a sorted listing: the first place whose key
/// does not come before it.
pub open spec fn is_key_position(l: Listing, key: Seq<char>, pos: int) -> bool {
    &&& 0 <= pos <= l.len()
    &&& forall|k: int| 0 <= k < pos ==> str_lt(#[trigger] l[k].0, key)
    &&& forall|k: int| pos <= k < l.len() ==> !str_lt(#[trigger] l[k].0, key)
}

/// A key is in a sorted listing exactly if it stands at its position.
pub proof fn lemma_key_position(l: Listing, key: Seq<char>, pos: int)
    requires
        sorted_listing(l),
        is_key_position(l, key, pos),
    ensures
        listing_has(l, key) <==> (pos < l.len() && l[pos].0 == key),
        pos < l.len() && l[pos].0 != key ==> str_lt(key, l[pos].0),
{
    if listing_has(l, key) {
        let i = choose|i: int| 0 <= i < l.len() && #[trigger] l[i].0 == key;
        lemma_str_lt_irreflexive(key);
        if i < pos {
            assert(str_lt(l[i].0, key));
        }
        if i > pos {
            assert(str_lt(l[pos].0, l[i].0));
            assert(!str_lt(l[pos].0, key));
        }
    }
    if pos < l.len() && l[pos].0 != key {
        assert(!str_lt(l[pos].0, key));
        lemma_str_lt_total(key, l[pos].0);
    }
}

/// Putting a new key in at its position adds it to the mapping and keeps
/// the listing sorted.
pub proof fn lemma_listing_insert(l: Listing, key: Seq<char>, entry: EntryView, pos: int)
    requires
        sorted_listing(l),
        is_key_position(l, key, pos),
        !listing_has(l, key),
    ensures
        sorted_listing(l.insert(pos, (key, entry))),
        listing_map(l.insert(pos, (key, entry))) == listing_map(l).insert(key, entry),
{
    let r = l.insert(pos, (key, entry));
    lemma_key_position(l, key, pos);
    assert forall|i: int, j: int| 0 <= i < j < r.len() implies str_lt(
        #[trigger] r[i].0,
        #[trigger] r[j].0,
    ) by {
        if j < pos {
            assert(str_lt(l[i].0, l[j].0));
        } else if j == pos {
            assert(str_lt(l[i].0, key));
        } else if i == pos {
            assert(r[j] == l[j - 1]);
            assert(!str_lt(l[j - 1].0, key));
            assert(l[j - 1].0 != key);
            lemma_str_lt_total(key, l[j - 1].0);
        } else if i < pos {
            assert(r[j] == l[j - 1]);
            if i < j - 1 {
                assert(str_lt(l[i].0, l[j - 1].0));
            }
        } else {
            assert(r[i] == l[i - 1]);
            assert(r[j] == l[j - 1]);
            assert(str_lt(l[i - 1].0, l[j - 1].0));
        }
    }
    lemma_listing_map(l);
    lemma_listing_map(r);
    assert(listing_map(r) =~= listing_map(l).insert(key, entry)) by {
        assert forall|k: Seq<char>| listing_has(r, k) <==> (k == key || listing_has(l, k)) by {
            if listing_has(r, k) {
                let i = choose|i: int| 0 <= i < r.len() && #[trigger] r[i].0 == k;
                if i < pos {
                    assert(l[i].0 == k);
                } else if i > pos {
                    assert(l[i - 1].0 == k);
                }
            }
            if listing_has(l, k) {
                let i = choose|i: int| 0 <= i < l.len() && #[trigger] l[i].0 == k;
                if i < pos {
                    assert(r[i].0 == k);
                } else {
                    assert(r[i + 1].0 == k);
                }
            }
            if k == key {
                assert(r[pos].0 == k);
            }
        }
        assert forall|k: Seq<char>| listing_has(r, k) implies listing_map(r)[k] == listing_map(
            l,
        ).insert(key, entry)[k] by {
            let i = choose|i: int| 0 <= i < r.len() && #[trigger] r[i].0 == k;
            assert(listing_map(r)[r[i].0] == r[i].1);
            if i < pos {
                assert(listing_map(l)[l[i].0] == l[i].1);
            } else if i > pos {
                assert(listing_map(l)[l[i - 1].0] == l[i - 1].1);
            }
        }
    }
}

/// Writing a new entry at the place of its key changes that key's entry in
/// the mapping and keeps the listing sorted.
pub proof fn lemma_listing_update(l: Listing, key: Seq<char>, entry: EntryView, pos: int)
    requires
        sorted_listing(l),
        0 <= pos < l.len(),
        l[pos].0 == key,
    ensures
        sorted_listing(l.update(pos, (key, entry))),
        listing_map(l.update(pos, (key, entry))) == listing_map(l).insert(key, entry),
{
    let r = l.update(pos, (key, entry));
    assert forall|i: int, j: int| 0 <= i < j < r.len() implies str_lt(
        #[trigger] r[i].0,
        #[trigger] r[j].0,
    ) by {
        assert(str_lt(l[i].0, l[j].0));
    }
    lemma_listing_map(l);
    lemma_listing_map(r);
    assert(listing_map(r) =~= listing_map(l).insert(key, entry)) by {
        assert forall|k: Seq<char>| listing_has(r, k) <==> (k == key || listing_has(l, k)) by {
            if listing_has(r, k) {
                let i = choose|i: int| 0 <= i < r.len() && #[trigger] r[i].0 == k;
                assert(l[i].0 == k);
            }
            if listing_has(l, k) {
                let i = choose|i: int| 0 <= i < l.len() && #[trigger] l[i].0 == k;
                assert(r[i].0 == k);
            }
            if k == key {
                assert(r[pos].0 == k);
            }
        }
        assert forall|k: Seq<char>| listing_has(r, k) implies listing_map(r)[k] == listing_map(
            l,
        ).insert(key, entry)[k] by {
            let i = choose|i: int| 0 <= i < r.len() && #[trigger] r[i].0 == k;
            assert(listing_map(r)[r[i].0] == r[i].1);
            if i != pos {
                assert(listing_map(l)[l[i].0] == l[i].1);
            }
        }
    }
}

/// Taking a place out takes its key out of the mapping and keeps the
/// listing sorted.
pub proof fn lemma_listing_remove(l: Listing, pos: int)
    requires
        sorted_listing(l),
        0 <= pos < l.len(),
    ensures
        sorted_listing(l.remove(pos)),
        listing_map(l.remove(pos)) == listing_map(l).remove(l[pos].0),
{
    let r = l.remove(pos);
    let key = l[pos].0;
    assert forall|i: int, j: int| 0 <= i < j < r.len() implies str_lt(
        #[trigger] r[i].0,
        #[trigger] r[j].0,
    ) by {
        let i0 = if i < pos { i } else { i + 1 };
        let j0 = if j < pos { j } else { j + 1 };
        assert(r[i] == l[i0]);
        assert(r[j] == l[j0]);
        assert(str_lt(l[i0].0, l[j0].0));
    }
    lemma_listing_map(l);
    lemma_listing_map(r);
    assert(listing_map(r) =~= listing_map(l).remove(key)) by {
        assert forall|k: Seq<char>| listing_has(r, k) <==> (k != key && listing_has(l, k)) by {
            if listing_has(r, k) {
                let i = choose|i: int| 0 <= i < r.len() && #[trigger] r[i].0 == k;
                let i0 = if i < pos { i } else { i + 1 };
                assert(r[i] == l[i0]);
                assert(l[i0].0 == k);
                assert(l[i0].0 != l[pos].0);
            }
            if k != key && listing_has(l, k) {
                let i = choose|i: int| 0 <= i < l.len() && #[trigger] l[i].0 == k;
                if i < pos {
                    assert(r[i].0 == k);
                } else {
                    assert(r[i - 1] == l[i]);
                    assert(r[i - 1].0 == k);
                }
            }
        }
        assert forall|k: Seq<char>| listing_has(r, k) implies listing_map(r)[k] == listing_map(
            l,
        ).remove(key)[k] by {
            let i = choose|i: int| 0 <= i < r.len() && #[trigger] r[i].0 == k;
            let i0 = if i < pos { i } else { i + 1 };
            assert(r[i] == l[i0]);
            assert(listing_map(r)[r[i].0] == r[i].1);
            assert(listing_map(l)[l[i0].0] == l[i0].1);
        }
    }
}

/// The mapping that a list of pairs builds when each is written in turn: of
/// two pairs with one key the later stays.
pub open spec fn entries_map(pairs: Listing) -> Map<Seq<char>, EntryView>
    decreases pairs.len(),
{
    if pairs.len() == 0 {
        Map::empty()
    } else {
        entries_map(pairs.drop_last()).insert(pairs.last().0, pairs.last().1)
    }
}

/// A sorted listing has as many places as its mapping has keys.
pub proof fn lemma_listing_len(l: Listing)
    requires
        sorted_listing(l),
    ensures
        listing_map(l).dom().finite(),
        listing_map(l).dom().len() == l.len(),
    decreases l.len(),
{
    if l.len() == 0 {
        assert(listing_map(l).dom() =~= Set::<Seq<char>>::empty());
    } else {
        let front = l.drop_last();
        let last = l.last();
        assert(sorted_listing(front)) by {
            assert forall|i: int, j: int| 0 <= i < j < front.len() implies str_lt(
                #[trigger] front[i].0,
                #[trigger] front[j].0,
            ) by {
                assert(str_lt(l[i].0, l[j].0));
            }
        }
        lemma_listing_len(front);
        assert(is_key_position(front, last.0, front.len() as int)) by {
            assert forall|k: int| 0 <= k < front.len() implies str_lt(#[trigger] front[k].0, last.0) by {
                assert(str_lt(l[k].0, l[l.len() - 1].0));
            }
        }
        lemma_key_position(front, last.0, front.len() as int);
        lemma_listing_insert(front, last.0, last.1, front.len() as int);
        assert(front.insert(front.len() as int, last) =~= l);
        assert(listing_map(l).dom() =~= listing_map(front).dom().insert(last.0));
    }
}

/// What writing pairs in turn leaves: exactly the keys of the pairs, and
/// none besides; each key with the entry of its last pair. Where no pairs
/// are written nothing is left.
pub proof fn lemma_entries_map(pairs: Listing)
    ensures
        forall|k: Seq<char>| #[trigger] entries_map(pairs).contains_key(k) <==> listing_has(pairs, k),
        forall|i: int|
            0 <= i < pairs.len() && (forall|j: int| i < j < pairs.len() ==> pairs[j].0 != pairs[i].0)
                ==> entries_map(pairs)[#[trigger] pairs[i].0] == pairs[i].1,
        pairs.len() == 0 ==> entries_map(pairs) == Map::<Seq<char>, EntryView>::empty(),
    decreases pairs.len(),
{
    if pairs.len() > 0 {
        let front = pairs.drop_last();
        let last = pairs.last();
        lemma_entries_map(front);
        assert forall|k: Seq<char>| #[trigger] entries_map(pairs).contains_key(k) <==> listing_has(pairs, k) by {
            if listing_has(pairs, k) {
                let i = choose|i: int| 0 <= i < pairs.len() && #[trigger] pairs[i].0 == k;
                if i < front.len() {
                    assert(front[i].0 == k);
                    assert(listing_has(front, k));
                    assert(entries_map(front).contains_key(k));
                } else {
                    assert(k == last.0);
                }
                assert(entries_map(pairs).contains_key(k));
            }
            if entries_map(pairs).contains_key(k) {
                if k == last.0 {
                    assert(pairs[pairs.len() - 1].0 == k);
                } else {
                    assert(entries_map(front).contains_key(k));
                    assert(listing_has(front, k));
                    let i = choose|i: int| 0 <= i < front.len() && #[trigger] front[i].0 == k;
                    assert(pairs[i].0 == k);
                }
                assert(listing_has(pairs, k));
            }
        }
        assert forall|i: int|
            0 <= i < pairs.len() && (forall|j: int| i < j < pairs.len() ==> pairs[j].0 != pairs[i].0)
            implies entries_map(pairs)[#[trigger] pairs[i].0] == pairs[i].1 by {
            if i < front.len() {
                assert(pairs[pairs.len() - 1].0 != pairs[i].0);
                assert(front[i] == pairs[i]);
                assert forall|j: int| i < j < front.len() implies front[j].0 != front[i].0 by {
                    assert(front[j] == pairs[j]);
                }
            }
        }
    }
}

} // verus!
