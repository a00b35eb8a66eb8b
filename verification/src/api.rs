//! The mutation handlers of the gateway: each checks its payload, looks at
//! a snapshot of the namespace, and plans the change for the durable store
//! together with the confirmation to send. Nothing is changed here.

use vstd::prelude::*;

use crate::commands::lookup;
use crate::history::without;
use crate::listing::Listing;
use crate::store::{Entry, EntryView, Mutation, MutationView, Store};
use crate::tags::{normalize_tags, normalized};
use crate::text::{
    clone_strings, decimal, decimal_text, is_blank, signed_decimal, signed_decimal_text, strs,
    trim_str, trimmed,
};
use crate::time::Timestamp;
use crate::{KvError, KvErrorView};

verus! {

/// The body of `POST /api/records/upsert`.
#[derive(Debug)]
pub struct UpsertPayload {
    pub key: String,
    pub value: String,
    pub tags: Option<Vec<String>>,
    pub ttl_minutes: Option<i64>,
}

/// The body of `POST /api/records/delete`.
#[derive(Debug)]
pub struct KeyPayload {
    pub key: String,
}

/// The body of `POST /api/records/tags/add` and `.../tags/remove`.
#[derive(Debug)]
pub struct TagPayload {
    pub key: String,
    pub tag: String,
}

/// The body of `POST /api/records/ttl/extend`.
#[derive(Debug)]
pub struct TtlPayload {
    pub key: String,
    pub ttl_minutes: i64,
}

/// The body of `POST /api/tags/rename`.
#[derive(Debug)]
pub struct RenamePayload {
    pub from: String,
    pub to: String,
}

/// The body of `POST /api/tags/delete`.
#[derive(Debug)]
pub struct TagNamePayload {
    pub tag: String,
}

/// A planned change with its confirmation.
#[derive(Debug)]
pub struct Plan {
    pub change: Mutation,
    pub message: String,
}

/// The model of a plan.
pub struct PlanView {
    pub change: MutationView,
    pub message: Seq<char>,
}

impl View for Plan {
    type V = PlanView;

    open spec fn view(&self) -> PlanView {
        PlanView { change: self.change@, message: self.message@ }
    }
}

/// Whether a planning function returned what its rule calls for.
pub open spec fn agrees(r: Result<Plan, KvError>, expected: Result<PlanView, KvErrorView>) -> bool {
    match (r, expected) {
        (Ok(plan), Ok(view)) => plan@ == view,
        (Err(err), Err(view)) => err@ == view,
        _ => false,
    }
}

/// The error for an empty key.
pub open spec fn empty_key() -> KvErrorView {
    KvErrorView::InvalidInput("key must not be empty"@)
}

/// The error for a blank tag.
pub open spec fn empty_tag() -> KvErrorView {
    KvErrorView::InvalidInput("tag must not be empty"@)
}

/// The error for a time to live that is not positive.
pub open spec fn bad_ttl() -> KvErrorView {
    KvErrorView::InvalidInput("ttl_minutes must be positive"@)
}

/// The error for a time to live that leads out of the range of instants.
pub open spec fn huge_ttl() -> KvErrorView {
    KvErrorView::InvalidInput("ttl_minutes is too large"@)
}

fn invalid(message: &str) -> (err: KvError)
    ensures
        err@ == KvErrorView::InvalidInput(message@),
{
    KvError::InvalidInput(String::from_str(message))
}

fn missing(key: &str) -> (err: KvError)
    ensures
        err@ == KvErrorView::NotFound(key@),
{
    KvError::NotFound(String::from_str(key))
}

fn framed(before: &str, name: &str, after: &str) -> (text: String)
    ensures
        text@ == before@ + name@ + after@,
{
    let mut text = String::from_str(before);
    text.append(name);
    text.append(after);
    text
}

/// Whether a list of strings holds `t`.
pub fn has_tag(list: &[String], t: &str) -> (r: bool)
    ensures
        r == strs(list@).contains(t@),
{
    let mut i: usize = 0;
    while i < list.len()
        invariant
            i <= list.len(),
            forall|k: int| 0 <= k < i ==> list@[k]@ != t@,
        decreases list.len() - i,
    {
        if crate::text::str_equal(list[i].as_str(), t) {
            assert(strs(list@)[i as int] == t@);
            return true;
        }
        i = i + 1;
    }
    assert(!strs(list@).contains(t@)) by {
        if strs(list@).contains(t@) {
            let k = choose|k: int| 0 <= k < strs(list@).len() && strs(list@)[k] == t@;
            assert(list@[k]@ != t@);
        }
    }
    false
}

/// A list of strings without `t`.
pub fn remove_tag(list: &[String], t: &str) -> (r: Vec<String>)
    ensures
        strs(r@) == without(strs(list@), t@),
{
    let mut r: Vec<String> = Vec::new();
    let mut i: usize = 0;
    assert(strs(list@).take(0) =~= Seq::<Seq<char>>::empty());
    assert(strs(r@) =~= Seq::<Seq<char>>::empty());
    while i < list.len()
        invariant
            i <= list.len(),
            strs(r@) == without(strs(list@).take(i as int), t@),
        decreases list.len() - i,
    {
        let ghost upto = strs(list@).take(i + 1);
        let ghost before = strs(r@);
        proof {
            assert(upto.drop_last() =~= strs(list@).take(i as int));
            assert(upto.last() == list@[i as int]@);
        }
        if !crate::text::str_equal(list[i].as_str(), t) {
            r.push(list[i].clone());
            assert(strs(r@) =~= before.push(list@[i as int]@));
        }
        i = i + 1;
    }
    assert(strs(list@).take(list.len() as int) =~= strs(list@));
    r
}

/// The model of an upsert's payload.
pub struct UpsertView {
    pub key: Seq<char>,
    pub value: Seq<char>,
    pub tags: Option<Seq<Seq<char>>>,
    pub ttl_minutes: Option<int>,
}

impl View for UpsertPayload {
    type V = UpsertView;

    open spec fn view(&self) -> UpsertView {
        UpsertView {
            key: self.key@,
            value: self.value@,
            tags: match self.tags {
                Some(t) => Some(strs(t@)),
                None => None,
            },
            ttl_minutes: match self.ttl_minutes {
                Some(m) => Some(m as int),
                None => None,
            },
        }
    }
}

/// The entry that an upsert writes: value as given; tags as given, in
/// canonical form, or else as they were; the first write's instant as it
/// was; the expiry as asked for, or else as it was.
pub open spec fn upserted(existing: Option<EntryView>, p: UpsertView, now: Timestamp) -> EntryView {
    EntryView {
        value: p.value,
        tags: match p.tags {
            Some(t) => normalized(t),
            None => match existing {
                Some(e) => e.tags,
                None => Seq::empty(),
            },
        },
        created_at: match existing {
            Some(e) => e.created_at,
            None => now,
        },
        updated_at: now,
        expires_at: match p.ttl_minutes {
            Some(m) => now.after_minutes(m),
            None => match existing {
                Some(e) => e.expires_at,
                None => None,
            },
        },
    }
}

/// The rule of an upsert.
pub open spec fn upsert_rule(m: Map<Seq<char>, EntryView>, p: UpsertView, now: Timestamp) -> Result<
    PlanView,
    KvErrorView,
> {
    if p.key.len() == 0 {
        Err(empty_key())
    } else if p.ttl_minutes is Some && p.ttl_minutes->Some_0 <= 0 {
        Err(bad_ttl())
    } else if p.ttl_minutes is Some && now.after_minutes(p.ttl_minutes->Some_0) is None {
        Err(huge_ttl())
    } else {
        Ok(
            PlanView {
                change: MutationView::Upsert { key: p.key, entry: upserted(lookup(m, p.key), p, now) },
                message: "Stored '"@ + p.key + "'."@,
            },
        )
    }
}

/// Plans an upsert.
pub fn plan_upsert(snapshot: &Store, p: UpsertPayload, now: Timestamp) -> (r: Result<Plan, KvError>)
    requires
        snapshot.wf(),
    ensures
        agrees(r, upsert_rule(snapshot@, p@, now)),
{
    if p.key.as_str().is_empty() {
        return Err(invalid("key must not be empty"));
    }
    let existing = snapshot.get(p.key.as_str());
    let expires_at = match p.ttl_minutes {
        Some(m) => {
            if m <= 0 {
                return Err(invalid("ttl_minutes must be positive"));
            }
            match now.plus_minutes(m) {
                Some(t) => Some(t),
                None => {
                    return Err(invalid("ttl_minutes is too large"));
                },
            }
        },
        None => match existing {
            Some(e) => e.expires_at(),
            None => None,
        },
    };
    let tags: Vec<String> = match p.tags {
        Some(t) => normalize_tags(t),
        None => match existing {
            Some(e) => clone_strings(e.tags()),
            None => {
                let none: Vec<String> = Vec::new();
                assert(strs(none@) =~= Seq::<Seq<char>>::empty());
                none
            },
        },
    };
    let entry = Entry::updated_at_instant(existing, p.value, tags, now).with_expiry(expires_at);
    let message = framed("Stored '", p.key.as_str(), "'.");
    Ok(Plan { change: Mutation::Upsert { key: p.key, entry }, message })
}

/// The rule of a delete: the key must be there.
pub open spec fn delete_rule(m: Map<Seq<char>, EntryView>, key: Seq<char>) -> Result<PlanView, KvErrorView> {
    if key.len() == 0 {
        Err(empty_key())
    } else if !m.contains_key(key) {
        Err(KvErrorView::NotFound(key))
    } else {
        Ok(PlanView { change: MutationView::Delete { key }, message: "Deleted '"@ + key + "'."@ })
    }
}

/// Plans a delete.
pub fn plan_delete(snapshot: &Store, p: KeyPayload) -> (r: Result<Plan, KvError>)
    requires
        snapshot.wf(),
    ensures
        agrees(r, delete_rule(snapshot@, p.key@)),
{
    if p.key.as_str().is_empty() {
        return Err(invalid("key must not be empty"));
    }
    if !snapshot.contains_key(p.key.as_str()) {
        return Err(missing(p.key.as_str()));
    }
    let message = framed("Deleted '", p.key.as_str(), "'.");
    Ok(Plan { change: Mutation::Delete { key: p.key }, message })
}

/// The rule of adding a tag to an entry: the tag joins the entry's tags,
/// which are brought to canonical form.
pub open spec fn tag_add_rule(
    m: Map<Seq<char>, EntryView>,
    key: Seq<char>,
    tag: Seq<char>,
    now: Timestamp,
) -> Result<PlanView, KvErrorView> {
    if key.len() == 0 {
        Err(empty_key())
    } else if trimmed(tag).len() == 0 {
        Err(empty_tag())
    } else if !m.contains_key(key) {
        Err(KvErrorView::NotFound(key))
    } else {
        Ok(
            PlanView {
                change: MutationView::Upsert {
                    key,
                    entry: EntryView { tags: normalized(m[key].tags.push(tag)), updated_at: now, ..m[key] },
                },
                message: "Tagged '"@ + key + "' with '"@ + trimmed(tag) + "'."@,
            },
        )
    }
}

/// Plans the adding of a tag to an entry.
pub fn plan_tag_add(snapshot: &Store, p: TagPayload, now: Timestamp) -> (r: Result<Plan, KvError>)
    requires
        snapshot.wf(),
    ensures
        agrees(r, tag_add_rule(snapshot@, p.key@, p.tag@, now)),
{
    if p.key.as_str().is_empty() {
        return Err(invalid("key must not be empty"));
    }
    if is_blank(p.tag.as_str()) {
        return Err(invalid("tag must not be empty"));
    }
    let existing = match snapshot.get(p.key.as_str()) {
        Some(e) => e,
        None => {
            return Err(missing(p.key.as_str()));
        },
    };
    let mut tags = clone_strings(existing.tags());
    let ghost before = strs(tags@);
    tags.push(p.tag.clone());
    assert(strs(tags@) =~= before.push(p.tag@));
    let tags = normalize_tags(tags);
    let entry = existing.revised(tags, existing.expires_at(), now);
    let mut message = framed("Tagged '", p.key.as_str(), "' with '");
    message.append(trim_str(p.tag.as_str()));
    message.append("'.");
    assert(message@ =~= "Tagged '"@ + p.key@ + "' with '"@ + trimmed(p.tag@) + "'."@);
    Ok(Plan { change: Mutation::Upsert { key: p.key, entry }, message })
}

/// The rule of taking a tag off an entry: the entry must have the tag.
pub open spec fn tag_remove_rule(
    m: Map<Seq<char>, EntryView>,
    key: Seq<char>,
    tag: Seq<char>,
    now: Timestamp,
) -> Result<PlanView, KvErrorView> {
    if key.len() == 0 {
        Err(empty_key())
    } else if trimmed(tag).len() == 0 {
        Err(empty_tag())
    } else if !m.contains_key(key) {
        Err(KvErrorView::NotFound(key))
    } else if !m[key].tags.contains(trimmed(tag)) {
        Err(KvErrorView::NotFound(trimmed(tag)))
    } else {
        Ok(
            PlanView {
                change: MutationView::Upsert {
                    key,
                    entry: EntryView { tags: without(m[key].tags, trimmed(tag)), updated_at: now, ..m[key] },
                },
                message: "Removed tag '"@ + trimmed(tag) + "' from '"@ + key + "'."@,
            },
        )
    }
}

/// Plans the taking of a tag off an entry.
pub fn plan_tag_remove(snapshot: &Store, p: TagPayload, now: Timestamp) -> (r: Result<Plan, KvError>)
    requires
        snapshot.wf(),
    ensures
        agrees(r, tag_remove_rule(snapshot@, p.key@, p.tag@, now)),
{
    if p.key.as_str().is_empty() {
        return Err(invalid("key must not be empty"));
    }
    let tag = trim_str(p.tag.as_str());
    if tag.is_empty() {
        return Err(invalid("tag must not be empty"));
    }
    let existing = match snapshot.get(p.key.as_str()) {
        Some(e) => e,
        None => {
            return Err(missing(p.key.as_str()));
        },
    };
    if !has_tag(existing.tags(), tag) {
        return Err(missing(tag));
    }
    let tags = remove_tag(existing.tags(), tag);
    let entry = existing.revised(tags, existing.expires_at(), now);
    let mut message = framed("Removed tag '", tag, "' from '");
    message.append(p.key.as_str());
    message.append("'.");
    assert(message@ =~= "Removed tag '"@ + trimmed(p.tag@) + "' from '"@ + p.key@ + "'."@);
    Ok(Plan { change: Mutation::Upsert { key: p.key, entry }, message })
}

/// The rule of extending an entry's life: it expires the given number of
/// minutes after `now`.
pub open spec fn ttl_rule(m: Map<Seq<char>, EntryView>, key: Seq<char>, minutes: int, now: Timestamp) -> Result<
    PlanView,
    KvErrorView,
> {
    if key.len() == 0 {
        Err(empty_key())
    } else if minutes <= 0 {
        Err(bad_ttl())
    } else if !m.contains_key(key) {
        Err(KvErrorView::NotFound(key))
    } else if now.after_minutes(minutes) is None {
        Err(huge_ttl())
    } else {
        Ok(
            PlanView {
                change: MutationView::Upsert {
                    key,
                    entry: EntryView { expires_at: now.after_minutes(minutes), updated_at: now, ..m[key] },
                },
                message: "Extended '"@ + key + "' by "@ + signed_decimal(minutes) + " minutes."@,
            },
        )
    }
}

/// Plans the extending of an entry's life.
pub fn plan_ttl_extend(snapshot: &Store, p: TtlPayload, now: Timestamp) -> (r: Result<Plan, KvError>)
    requires
        snapshot.wf(),
    ensures
        agrees(r, ttl_rule(snapshot@, p.key@, p.ttl_minutes as int, now)),
{
    if p.key.as_str().is_empty() {
        return Err(invalid("key must not be empty"));
    }
    if p.ttl_minutes <= 0 {
        return Err(invalid("ttl_minutes must be positive"));
    }
    let existing = match snapshot.get(p.key.as_str()) {
        Some(e) => e,
        None => {
            return Err(missing(p.key.as_str()));
        },
    };
    let expires_at = match now.plus_minutes(p.ttl_minutes) {
        Some(t) => t,
        None => {
            return Err(invalid("ttl_minutes is too large"));
        },
    };
    let entry = existing.revised(clone_strings(existing.tags()), Some(expires_at), now);
    let mut message = framed("Extended '", p.key.as_str(), "' by ");
    let count = signed_decimal_text(p.ttl_minutes);
    message.append(count.as_str());
    message.append(" minutes.");
    assert(message@ =~= "Extended '"@ + p.key@ + "' by "@ + signed_decimal(p.ttl_minutes as int)
        + " minutes."@);
    Ok(Plan { change: Mutation::Upsert { key: p.key, entry }, message })
}

/// An entry after the tag `from` was renamed to `to`, or deleted where
/// there is no `to`: an entry without the tag stays as it is.
pub open spec fn retagged(e: EntryView, from: Seq<char>, to: Option<Seq<char>>, now: Timestamp) -> EntryView {
    if e.tags.contains(from) {
        EntryView {
            tags: match to {
                Some(t) => normalized(without(e.tags, from).push(t)),
                None => without(e.tags, from),
            },
            updated_at: now,
            ..e
        }
    } else {
        e
    }
}

/// A listing after a tag was renamed or deleted in every entry.
pub open spec fn retagged_all(l: Listing, from: Seq<char>, to: Option<Seq<char>>, now: Timestamp) -> Listing {
    Seq::new(l.len(), |i: int| (l[i].0, retagged(l[i].1, from, to, now)))
}

/// How many entries of a listing have a tag.
pub open spec fn tagged_count(l: Listing, tag: Seq<char>) -> nat
    decreases l.len(),
{
    if l.len() == 0 {
        0
    } else if l.last().1.tags.contains(tag) {
        tagged_count(l.drop_last(), tag) + 1
    } else {
        tagged_count(l.drop_last(), tag)
    }
}

/// The rule of renaming a tag everywhere: every entry is rewritten, and
/// the whole set is replaced at once; a tag that no entry has is reported
/// as not found.
pub open spec fn rename_rule(l: Listing, from: Seq<char>, to: Seq<char>, now: Timestamp) -> Result<
    PlanView,
    KvErrorView,
> {
    if trimmed(from).len() == 0 || trimmed(to).len() == 0 {
        Err(empty_tag())
    } else if tagged_count(l, trimmed(from)) == 0 {
        Err(KvErrorView::NotFound(trimmed(from)))
    } else {
        Ok(
            PlanView {
                change: MutationView::ReplaceAll {
                    entries: retagged_all(l, trimmed(from), Some(trimmed(to)), now),
                },
                message: "Renamed tag '"@ + trimmed(from) + "' to '"@ + trimmed(to) + "' in "@ + decimal(
                    tagged_count(l, trimmed(from)),
                ) + " entries."@,
            },
        )
    }
}

/// The rule of deleting a tag everywhere.
pub open spec fn tag_delete_rule(l: Listing, tag: Seq<char>, now: Timestamp) -> Result<PlanView, KvErrorView> {
    if trimmed(tag).len() == 0 {
        Err(empty_tag())
    } else if tagged_count(l, trimmed(tag)) == 0 {
        Err(KvErrorView::NotFound(trimmed(tag)))
    } else {
        Ok(
            PlanView {
                change: MutationView::ReplaceAll { entries: retagged_all(l, trimmed(tag), None, now) },
                message: "Deleted tag '"@ + trimmed(tag) + "' from "@ + decimal(
                    tagged_count(l, trimmed(tag)),
                ) + " entries."@,
            },
        )
    }
}

/// Rewrites every entry of the snapshot for a renamed or deleted tag and
/// counts the entries that had it.
fn retag_all(snapshot: &Store, from: &str, to: Option<&str>, now: Timestamp) -> (r: (
    Vec<(String, Entry)>,
    usize,
))
    ensures
        crate::store::pairs_view(r.0@) == retagged_all(
            snapshot.listing(),
            from@,
            match to {
                Some(t) => Some(t@),
                None => None,
            },
            now,
        ),
        r.1 == tagged_count(snapshot.listing(), from@),
{
    let items = snapshot.ordered();
    let ghost l = snapshot.listing();
    let ghost target = match to {
        Some(t) => Some(t@),
        None => None,
    };
    let mut entries: Vec<(String, Entry)> = Vec::new();
    let mut count: usize = 0;
    let mut i: usize = 0;
    assert(l.take(0) =~= Seq::empty());
    while i < items.len()
        invariant
            i <= items.len(),
            crate::store::refs_view(items@) == l,
            target == match to {
                Some(t) => Some(t@),
                None => None,
            },
            entries.len() == i,
            forall|k: int|
                0 <= k < i ==> (#[trigger] entries@[k]).0@ == l[k].0 && entries@[k].1@ == retagged(
                    l[k].1,
                    from@,
                    target,
                    now,
                ),
            count == tagged_count(l.take(i as int), from@),
            count <= i,
        decreases items.len() - i,
    {
        let ghost upto = l.take(i + 1);
        proof {
            assert(upto.drop_last() =~= l.take(i as int));
            assert(upto.last() == l[i as int]);
            assert(l[i as int] == (items@[i as int].0@, items@[i as int].1@));
        }
        let entry = items[i].1;
        let rewritten = if has_tag(entry.tags(), from) {
            count = count + 1;
            let rest = remove_tag(entry.tags(), from);
            let tags = match to {
                Some(t) => {
                    let mut with_new = rest;
                    let ghost before = strs(with_new@);
                    with_new.push(String::from_str(t));
                    assert(strs(with_new@) =~= before.push(t@));
                    normalize_tags(with_new)
                },
                None => rest,
            };
            entry.revised(tags, entry.expires_at(), now)
        } else {
            entry.clone()
        };
        entries.push((items[i].0.clone(), rewritten));
        i = i + 1;
    }
    assert(l.take(items.len() as int) =~= l);
    assert(crate::store::pairs_view(entries@) =~= retagged_all(l, from@, target, now));
    (entries, count)
}

fn count_message(before: &str, subject: &str, between: &str, count: usize) -> (m: String)
    ensures
        m@ == before@ + subject@ + between@ + decimal(count as nat) + " entries."@,
{
    let mut m = framed(before, subject, between);
    let digits = decimal_text(count as u64);
    m.append(digits.as_str());
    m.append(" entries.");
    m
}

/// Plans the renaming of a tag in every entry.
pub fn plan_tag_rename(snapshot: &Store, p: RenamePayload, now: Timestamp) -> (r: Result<Plan, KvError>)
    ensures
        agrees(r, rename_rule(snapshot.listing(), p.from@, p.to@, now)),
{
    let from = trim_str(p.from.as_str());
    let to = trim_str(p.to.as_str());
    if from.is_empty() || to.is_empty() {
        return Err(invalid("tag must not be empty"));
    }
    let (entries, count) = retag_all(snapshot, from, Some(to), now);
    if count == 0 {
        return Err(missing(from));
    }
    let mut message = framed("Renamed tag '", from, "' to '");
    let tail = count_message("", to, "' in ", count);
    message.append(tail.as_str());
    assert(message@ =~= "Renamed tag '"@ + trimmed(p.from@) + "' to '"@ + trimmed(p.to@) + "' in "@
        + decimal(count as nat) + " entries."@) by {
        reveal_strlit("");
        assert(""@ =~= Seq::<char>::empty());
    }
    Ok(Plan { change: Mutation::ReplaceAll { entries }, message })
}

/// Plans the deleting of a tag from every entry.
pub fn plan_tag_delete(snapshot: &Store, p: TagNamePayload, now: Timestamp) -> (r: Result<Plan, KvError>)
    ensures
        agrees(r, tag_delete_rule(snapshot.listing(), p.tag@, now)),
{
    let tag = trim_str(p.tag.as_str());
    if tag.is_empty() {
        return Err(invalid("tag must not be empty"));
    }
    let (entries, count) = retag_all(snapshot, tag, None, now);
    if count == 0 {
        return Err(missing(tag));
    }
    let message = count_message("Deleted tag '", tag, "' from ", count);
    Ok(Plan { change: Mutation::ReplaceAll { entries }, message })
}

/// Seconds between two sweeps of the gateway.
pub const SWEEP_INTERVAL_SECS: i64 = 60;

/// Whether a sweep is due: none has run yet, or the last ran at least the
/// interval before `now`.
pub open spec fn sweep_is_due(last: Option<Timestamp>, now: Timestamp) -> bool {
    match last {
        None => true,
        Some(t) => now.secs - t.secs >= SWEEP_INTERVAL_SECS,
    }
}

/// Whether the gateway sweeps before it serves the next connection.
pub fn sweep_due(last: Option<Timestamp>, now: Timestamp) -> (r: bool)
    ensures
        r == sweep_is_due(last, now),
{
    match last {
        None => true,
        Some(t) => match now.secs.checked_sub(t.secs) {
            Some(passed) => passed >= SWEEP_INTERVAL_SECS,
            None => now.secs > t.secs,
        },
    }
}

} // verus!
