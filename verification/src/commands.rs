//! What the commands compute: the entry that an `add` writes, the lines
//! that a listing or a search shows, the records of an export and an
//! import. Reading and writing files and the database is left to the
//! caller.

use vstd::prelude::*;

use crate::history::capped;
use crate::listing::Listing;
use crate::store::{
    search_order, summary_text, updated_entry, Entry, EntryView, SearchScope, Store,
};
use crate::tags::{normalize_tags, normalized};
use crate::text::{clone_strings, decimal, decimal_text, join, joined, strs};
use crate::time::{clock_now, rfc3339_instant, rfc3339_text, Timestamp};
use crate::db::{instant_of_text, instant_text};
use crate::{KvError, KvErrorView};

verus! {

/// The scope that the two switches of a search select; both at once are
/// refused.
pub open spec fn scope_of(tags_only: bool, keys_only: bool) -> Option<SearchScope> {
    if tags_only && keys_only {
        None
    } else if tags_only {
        Some(SearchScope::TagsOnly)
    } else if keys_only {
        Some(SearchScope::KeysOnly)
    } else {
        Some(SearchScope::All)
    }
}

/// The scope that the two switches of a search select.
pub fn resolve_scope(tags_only: bool, keys_only: bool) -> (r: Result<SearchScope, KvError>)
    ensures
        match r {
            Ok(scope) => scope_of(tags_only, keys_only) == Some(scope),
            Err(err) => scope_of(tags_only, keys_only) is None && err@ == KvErrorView::InvalidInput(
                "Cannot search keys-only and tags-only at the same time."@,
            ),
        },
{
    if tags_only && keys_only {
        Err(
            KvError::InvalidInput(
                String::from_str("Cannot search keys-only and tags-only at the same time."),
            ),
        )
    } else if tags_only {
        Ok(SearchScope::TagsOnly)
    } else if keys_only {
        Ok(SearchScope::KeysOnly)
    } else {
        Ok(SearchScope::All)
    }
}

/// A value in quotes, followed by its tags where it has any.
pub open spec fn described(value: Seq<char>, tags: Seq<Seq<char>>) -> Seq<char> {
    if tags.len() == 0 {
        "'"@ + value + "'"@
    } else {
        "'"@ + value + "' (tags: "@ + joined(tags, ", "@) + ")"@
    }
}

/// Describes an entry for a message.
pub fn describe_value(entry: &Entry) -> (text: String)
    ensures
        text@ == described(entry@.value, entry@.tags),
{
    let mut text = String::from_str("'");
    text.append(entry.value());
    if entry.tags().len() == 0 {
        text.append("'");
        assert(text@ =~= described(entry@.value, entry@.tags));
    } else {
        text.append("' (tags: ");
        let list = join(entry.tags(), ", ");
        text.append(list.as_str());
        text.append(")");
        assert(text@ =~= described(entry@.value, entry@.tags));
    }
    text
}

/// The entry of `key`, if the mapping has one.
pub open spec fn lookup(m: Map<Seq<char>, EntryView>, key: Seq<char>) -> Option<EntryView> {
    if m.contains_key(key) {
        Some(m[key])
    } else {
        None
    }
}

/// The tags that an `add` writes: the given ones in canonical form, or,
/// where none are given, those that the key has.
pub open spec fn add_tags(existing: Option<EntryView>, tags: Seq<Seq<char>>) -> Seq<Seq<char>> {
    if tags.len() == 0 {
        match existing {
            Some(e) => e.tags,
            None => Seq::empty(),
        }
    } else {
        normalized(tags)
    }
}

/// The entry that an `add` at `now` writes under `key`.
pub open spec fn added_entry(
    m: Map<Seq<char>, EntryView>,
    key: Seq<char>,
    value: Seq<char>,
    tags: Seq<Seq<char>>,
    now: Timestamp,
) -> EntryView {
    updated_entry(lookup(m, key), value, add_tags(lookup(m, key), tags), now)
}

/// The entry that an `add` at `now` writes under `key`.
pub fn entry_for_add_at(store: &Store, key: &str, value: String, tags: Vec<String>, now: Timestamp) -> (e:
    Entry)
    requires
        store.wf(),
    ensures
        e@ == added_entry(store@, key@, value@, strs(tags@), now),
{
    let existing = store.get(key);
    let tags: Vec<String> = if tags.len() == 0 {
        match existing {
            Some(old) => clone_strings(old.tags()),
            None => {
                assert(strs(tags@) =~= Seq::<Seq<char>>::empty());
                tags
            },
        }
    } else {
        normalize_tags(tags)
    };
    Entry::updated_at_instant(existing, value, tags, now)
}

/// The entry that an `add` writes under `key` now, whatever the clock says.
pub fn entry_for_add(store: &Store, key: &str, value: String, tags: Vec<String>) -> (e: Entry)
    requires
        store.wf(),
    ensures
        e@ == added_entry(store@, key@, value@, strs(tags@), e@.updated_at),
{
    let now = clock_now();
    entry_for_add_at(store, key, value, tags, now)
}

/// What an `add` reports.
pub open spec fn added_message(previous: Option<EntryView>, key: Seq<char>, entry: EntryView) -> Seq<char> {
    match previous {
        Some(p) => "Updated '"@ + key + "'. Previous: "@ + described(p.value, p.tags) + "; Now: "@
            + described(entry.value, entry.tags),
        None => "Added '"@ + key + "'. "@ + described(entry.value, entry.tags),
    }
}

/// Completes an `add` once the durable store has taken the entry: writes
/// it to the index, notes the use of the key, and returns the report and
/// whether the log of recent keys is to be saved.
pub fn finish_add(store: &mut Store, key: String, entry: Entry) -> (r: (String, bool))
    requires
        old(store).wf(),
    ensures
        final(store).wf(),
        final(store)@ == old(store)@.insert(key@, entry@),
        final(store).capacity() == old(store).capacity(),
        final(store).log_path() == old(store).log_path(),
        r.1 == (old(store).capacity() > 0),
        final(store).history() == if r.1 {
            crate::history::recorded(old(store).history(), key@, old(store).capacity())
        } else {
            old(store).history()
        },
        r.0@ == added_message(lookup(old(store)@, key@), key@, entry@),
{
    let now_text = describe_value(&entry);
    let name = key.clone();
    let previous = store.insert(key, entry);
    let changed = store.record_access(name.as_str());
    let message = match previous {
        Some(p) => {
            let mut m = String::from_str("Updated '");
            m.append(name.as_str());
            m.append("'. Previous: ");
            let before = describe_value(&p);
            m.append(before.as_str());
            m.append("; Now: ");
            m.append(now_text.as_str());
            assert(m@ =~= added_message(lookup(old(store)@, key@), key@, entry@));
            m
        },
        None => {
            let mut m = String::from_str("Added '");
            m.append(name.as_str());
            m.append("'. ");
            m.append(now_text.as_str());
            assert(m@ =~= added_message(lookup(old(store)@, key@), key@, entry@));
            m
        },
    };
    (message, changed)
}

/// Checks that the store holds `key`, before the durable store is asked to
/// delete it.
pub fn require_key(store: &Store, key: &str) -> (r: Result<(), KvError>)
    requires
        store.wf(),
    ensures
        match r {
            Ok(_) => store@.contains_key(key@),
            Err(err) => !store@.contains_key(key@) && err@ == KvErrorView::NotFound(key@),
        },
{
    if store.contains_key(key) {
        Ok(())
    } else {
        Err(KvError::NotFound(String::from_str(key)))
    }
}

/// What a `remove` reports.
pub open spec fn removed_message(key: Seq<char>, entry: EntryView) -> Seq<char> {
    "Removed '"@ + key + "'. Stored value was "@ + described(entry.value, entry.tags) + "."@
}

/// Completes a `remove` once the durable store has deleted the key: takes
/// it out of the index and of the log, and returns the report.
pub fn finish_remove(store: &mut Store, key: &str) -> (r: Result<String, KvError>)
    requires
        old(store).wf(),
    ensures
        final(store).wf(),
        final(store)@ == old(store)@.remove(key@),
        final(store).history() == crate::history::without(old(store).history(), key@),
        final(store).capacity() == old(store).capacity(),
        final(store).log_path() == old(store).log_path(),
        match r {
            Ok(message) => old(store)@.contains_key(key@) && message@ == removed_message(
                key@,
                old(store)@[key@],
            ),
            Err(err) => !old(store)@.contains_key(key@) && err@ == KvErrorView::NotFound(key@),
        },
{
    match store.remove(key) {
        Some(entry) => {
            let mut m = String::from_str("Removed '");
            m.append(key);
            m.append("'. Stored value was ");
            let what = describe_value(&entry);
            m.append(what.as_str());
            m.append(".");
            assert(m@ =~= removed_message(key@, entry@));
            Ok(m)
        },
        None => Err(KvError::NotFound(String::from_str(key))),
    }
}

/// The lines that show an entry: its value, and its tags where it has any.
pub open spec fn shown(entry: EntryView) -> Seq<Seq<char>> {
    if entry.tags.len() == 0 {
        seq![entry.value]
    } else {
        seq![entry.value, "tags: "@ + joined(entry.tags, ", "@)]
    }
}

/// Looks `key` up for a `get`, notes its use, and returns the lines to show
/// and whether the log of recent keys is to be saved.
pub fn get_lines(store: &mut Store, key: &str) -> (r: Result<(Vec<String>, bool), KvError>)
    requires
        old(store).wf(),
    ensures
        final(store).wf(),
        final(store).listing() == old(store).listing(),
        final(store).capacity() == old(store).capacity(),
        final(store).log_path() == old(store).log_path(),
        match r {
            Ok(out) => {
                &&& old(store)@.contains_key(key@)
                &&& strs(out.0@) == shown(old(store)@[key@])
                &&& out.1 == (old(store).capacity() > 0)
                &&& final(store).history() == if out.1 {
                    crate::history::recorded(old(store).history(), key@, old(store).capacity())
                } else {
                    old(store).history()
                }
            },
            Err(err) => {
                &&& !old(store)@.contains_key(key@)
                &&& err@ == KvErrorView::NotFound(key@)
                &&& final(store).history() == old(store).history()
            },
        },
{
    let mut lines: Vec<String> = Vec::new();
    match store.get(key) {
        Some(entry) => {
            lines.push(String::from_str(entry.value()));
            if entry.tags().len() > 0 {
                let mut line = String::from_str("tags: ");
                let list = join(entry.tags(), ", ");
                line.append(list.as_str());
                lines.push(line);
            }
            assert(strs(lines@) =~= shown(entry@));
        },
        None => {
            return Err(KvError::NotFound(String::from_str(key)));
        },
    }
    let changed = store.record_access(key);
    Ok((lines, changed))
}

/// The lines of a listing: one summary for each entry in key order, or a
/// note where there is none.
pub open spec fn listed(l: Listing) -> Seq<Seq<char>> {
    if l.len() == 0 {
        seq!["No entries stored."@]
    } else {
        Seq::new(l.len(), |i: int| summary_text(l[i].0, l[i].1.value, l[i].1.tags))
    }
}

/// The lines of a listing.
pub fn list_lines(store: &Store) -> (lines: Vec<String>)
    ensures
        strs(lines@) == listed(store.listing()),
{
    let items = store.ordered();
    let ghost l = store.listing();
    let mut lines: Vec<String> = Vec::new();
    if items.len() == 0 {
        lines.push(String::from_str("No entries stored."));
        assert(strs(lines@) =~= listed(l));
        return lines;
    }
    let mut i: usize = 0;
    while i < items.len()
        invariant
            i <= items.len(),
            crate::store::refs_view(items@) == l,
            lines.len() == i,
            forall|k: int| 0 <= k < i ==> lines@[k]@ == summary_text(l[k].0, l[k].1.value, l[k].1.tags),
        decreases items.len() - i,
    {
        assert(l[i as int] == (items@[i as int].0@, items@[i as int].1@));
        lines.push(items[i].1.summary(items[i].0.as_str()));
        i = i + 1;
    }
    assert(strs(lines@) =~= listed(l));
    lines
}

/// The lines of a search: one summary for each hit, the best first, or a
/// note where there is none.
pub open spec fn found(l: Listing, order: Seq<(usize, i64)>) -> Seq<Seq<char>> {
    if order.len() == 0 {
        seq!["No matches found."@]
    } else {
        Seq::new(
            order.len(),
            |i: int|
                summary_text(l[order[i].0 as int].0, l[order[i].0 as int].1.value, l[order[i].0 as int].1.tags),
        )
    }
}

/// The lines of a search.
pub fn search_lines(store: &Store, pattern: &str, limit: usize, scope: SearchScope) -> (lines: Vec<String>)
    ensures
        strs(lines@) == found(store.listing(), search_order(store.listing(), pattern@, scope, limit as nat)),
{
    let hits = store.search(pattern, limit, scope);
    let ghost l = store.listing();
    let ghost order = search_order(l, pattern@, scope, limit as nat);
    let mut lines: Vec<String> = Vec::new();
    if hits.len() == 0 {
        lines.push(String::from_str("No matches found."));
        assert(strs(lines@) =~= found(l, order));
        return lines;
    }
    let mut i: usize = 0;
    while i < hits.len()
        invariant
            i <= hits.len(),
            hits.len() == order.len(),
            crate::store::is_search_result(hits@, l, pattern@, scope, limit as nat),
            order == search_order(l, pattern@, scope, limit as nat),
            lines.len() == i,
            forall|k: int|
                0 <= k < i ==> lines@[k]@ == summary_text(
                    l[order[k].0 as int].0,
                    l[order[k].0 as int].1.value,
                    l[order[k].0 as int].1.tags,
                ),
        decreases hits.len() - i,
    {
        assert(hits@[i as int].key@ == l[order[i as int].0 as int].0);
        lines.push(hits[i].entry.summary(hits[i].key));
        i = i + 1;
    }
    assert(strs(lines@) =~= found(l, order));
    lines
}

/// A number in a field of two characters, as lists are numbered.
pub open spec fn ordinal(n: nat) -> Seq<char> {
    if n < 10 {
        " "@ + decimal(n)
    } else {
        decimal(n)
    }
}

/// The lines for the recently used keys: each with its number, or a note
/// where there is none.
pub open spec fn recent_listed(keys: Seq<Seq<char>>) -> Seq<Seq<char>> {
    if keys.len() == 0 {
        seq!["No recent keys recorded."@]
    } else {
        Seq::new(keys.len(), |i: int| ordinal((i + 1) as nat) + ". "@ + keys[i])
    }
}

/// The lines for the recently used keys, at most `limit` of them.
pub fn recent_lines(store: &Store, limit: usize) -> (lines: Vec<String>)
    ensures
        strs(lines@) == recent_listed(capped(store.history(), limit as nat)),
{
    let keys = store.recent(limit);
    let ghost shown = strs(keys@);
    let mut lines: Vec<String> = Vec::new();
    if keys.len() == 0 {
        lines.push(String::from_str("No recent keys recorded."));
        assert(strs(lines@) =~= recent_listed(shown));
        return lines;
    }
    let mut i: usize = 0;
    while i < keys.len()
        invariant
            i <= keys.len(),
            shown == strs(keys@),
            lines.len() == i,
            forall|k: int| 0 <= k < i ==> lines@[k]@ == ordinal((k + 1) as nat) + ". "@ + shown[k],
        decreases keys.len() - i,
    {
        let number: u64 = i as u64 + 1;
        let mut line = if number < 10 {
            String::from_str(" ")
        } else {
            String::new()
        };
        let digits = decimal_text(number);
        line.append(digits.as_str());
        line.append(". ");
        line.append(keys[i].as_str());
        assert(line@ =~= ordinal((i + 1) as nat) + ". "@ + shown[i as int]);
        lines.push(line);
        i = i + 1;
    }
    assert(strs(lines@) =~= recent_listed(shown));
    lines
}

/// One entry of an export: the instants as RFC 3339 text.
#[derive(Debug)]
pub struct ExportRecord {
    pub value: String,
    pub tags: Vec<String>,
    pub created_at: String,
    pub updated_at: String,
    pub expires_at: Option<String>,
}

/// The model of an export record.
pub struct ExportView {
    pub value: Seq<char>,
    pub tags: Seq<Seq<char>>,
    pub created_at: Seq<char>,
    pub updated_at: Seq<char>,
    pub expires_at: Option<Seq<char>>,
}

impl View for ExportRecord {
    type V = ExportView;

    open spec fn view(&self) -> ExportView {
        ExportView {
            value: self.value@,
            tags: strs(self.tags@),
            created_at: self.created_at@,
            updated_at: self.updated_at@,
            expires_at: match self.expires_at {
                Some(t) => Some(t@),
                None => None,
            },
        }
    }
}

/// The export record of an entry; none where an instant has no text.
pub open spec fn exported(entry: EntryView) -> Option<ExportView> {
    match (rfc3339_text(entry.created_at), rfc3339_text(entry.updated_at)) {
        (Some(created_at), Some(updated_at)) => match entry.expires_at {
            None => Some(
                ExportView { value: entry.value, tags: entry.tags, created_at, updated_at, expires_at: None },
            ),
            Some(t) => match rfc3339_text(t) {
                Some(text) => Some(
                    ExportView {
                        value: entry.value,
                        tags: entry.tags,
                        created_at,
                        updated_at,
                        expires_at: Some(text),
                    },
                ),
                None => None,
            },
        },
        _ => None,
    }
}

/// The export records of a listing, in its order; none where one entry has
/// none.
pub open spec fn exported_all(l: Listing) -> Option<Seq<(Seq<char>, ExportView)>>
    decreases l.len(),
{
    if l.len() == 0 {
        Some(Seq::empty())
    } else {
        match (exported_all(l.drop_last()), exported(l.last().1)) {
            (Some(before), Some(record)) => Some(before.push((l.last().0, record))),
            _ => None,
        }
    }
}

/// The models of a list of keys with their export records.
pub open spec fn records_view(records: Seq<(String, ExportRecord)>) -> Seq<(Seq<char>, ExportView)> {
    Seq::new(records.len(), |i: int| (records[i].0@, records[i].1@))
}

/// The export record of an entry.
pub fn export_record(entry: &Entry) -> (r: Result<ExportRecord, KvError>)
    ensures
        match r {
            Ok(record) => exported(entry@) == Some(record@),
            Err(err) => exported(entry@) is None && err is Time,
        },
{
    let created_at = instant_text(entry.created_at())?;
    let updated_at = instant_text(entry.updated_at())?;
    let expires_at = match entry.expires_at() {
        Some(t) => Some(instant_text(t)?),
        None => None,
    };
    let tags = clone_strings(entry.tags());
    Ok(ExportRecord { value: String::from_str(entry.value()), tags, created_at, updated_at, expires_at })
}

/// The export records of all entries, in key order.
pub fn export_records(store: &Store) -> (r: Result<Vec<(String, ExportRecord)>, KvError>)
    ensures
        match r {
            Ok(records) => exported_all(store.listing()) == Some(records_view(records@)),
            Err(err) => exported_all(store.listing()) is None && err is Time,
        },
{
    let items = store.ordered();
    let ghost l = store.listing();
    let mut records: Vec<(String, ExportRecord)> = Vec::new();
    let mut i: usize = 0;
    assert(l.take(0) =~= Seq::empty());
    assert(records_view(records@) =~= Seq::empty());
    while i < items.len()
        invariant
            i <= items.len(),
            crate::store::refs_view(items@) == l,
            l == store.listing(),
            exported_all(l.take(i as int)) == Some(records_view(records@)),
        decreases items.len() - i,
    {
        let ghost upto = l.take(i + 1);
        let ghost before = records_view(records@);
        proof {
            assert(upto.drop_last() =~= l.take(i as int));
            assert(upto.last() == l[i as int]);
            assert(l[i as int] == (items@[i as int].0@, items@[i as int].1@));
        }
        match export_record(items[i].1) {
            Ok(record) => {
                records.push((items[i].0.clone(), record));
                assert(records_view(records@) =~= before.push((items@[i as int].0@, record@)));
            },
            Err(err) => {
                proof {
                    lemma_exported_prefix(l, i + 1);
                }
                return Err(err);
            },
        }
        i = i + 1;
    }
    assert(l.take(items.len() as int) =~= l);
    Ok(records)
}

/// Where the first entries have no export, the whole listing has none.
proof fn lemma_exported_prefix(l: Listing, n: int)
    requires
        0 <= n <= l.len(),
        exported_all(l.take(n)) is None,
    ensures
        exported_all(l) is None,
    decreases l.len(),
{
    if n < l.len() {
        assert(l.drop_last().take(n) =~= l.take(n));
        lemma_exported_prefix(l.drop_last(), n);
    } else {
        assert(l.take(n) =~= l);
    }
}

/// One entry of an import file: tags and instants may be missing.
#[derive(Debug)]
pub struct ImportItem {
    pub value: String,
    pub tags: Option<Vec<String>>,
    pub created_at: Option<String>,
    pub updated_at: Option<String>,
}

/// The model of an import item.
pub struct ImportView {
    pub value: Seq<char>,
    pub tags: Option<Seq<Seq<char>>>,
    pub created_at: Option<Seq<char>>,
    pub updated_at: Option<Seq<char>>,
}

impl View for ImportItem {
    type V = ImportView;

    open spec fn view(&self) -> ImportView {
        ImportView {
            value: self.value@,
            tags: match self.tags {
                Some(t) => Some(strs(t@)),
                None => None,
            },
            created_at: match self.created_at {
                Some(t) => Some(t@),
                None => None,
            },
            updated_at: match self.updated_at {
                Some(t) => Some(t@),
                None => None,
            },
        }
    }
}

/// The instant of an import: the one that the text denotes, or `now` where
/// there is no text; none where the text denotes no instant.
pub open spec fn import_instant(text: Option<Seq<char>>, now: Timestamp) -> Option<Timestamp> {
    match text {
        Some(t) => rfc3339_instant(t),
        None => Some(now),
    }
}

/// The entry that an import item stands for: its tags in canonical form,
/// missing instants taken to be `now`; none where an instant cannot be read.
pub open spec fn imported(item: ImportView, now: Timestamp) -> Option<EntryView> {
    match (import_instant(item.created_at, now), import_instant(item.updated_at, now)) {
        (Some(created_at), Some(updated_at)) => Some(
            EntryView {
                value: item.value,
                tags: normalized(
                    match item.tags {
                        Some(t) => t,
                        None => Seq::empty(),
                    },
                ),
                created_at,
                updated_at,
                expires_at: None,
            },
        ),
        _ => None,
    }
}

/// The entries that import items stand for, in their order; none where one
/// item stands for none.
pub open spec fn imported_all(items: Seq<(Seq<char>, ImportView)>, now: Timestamp) -> Option<Listing>
    decreases items.len(),
{
    if items.len() == 0 {
        Some(Seq::empty())
    } else {
        match (imported_all(items.drop_last(), now), imported(items.last().1, now)) {
            (Some(before), Some(entry)) => Some(before.push((items.last().0, entry))),
            _ => None,
        }
    }
}

/// The models of a list of keys with their import items.
pub open spec fn items_view(items: Seq<(String, ImportItem)>) -> Seq<(Seq<char>, ImportView)> {
    Seq::new(items.len(), |i: int| (items[i].0@, items[i].1@))
}

fn import_time(text: &Option<String>, now: Timestamp) -> (r: Result<Timestamp, KvError>)
    ensures
        match r {
            Ok(t) => import_instant(
                match *text {
                    Some(s) => Some(s@),
                    None => None,
                },
                now,
            ) == Some(t),
            Err(err) => import_instant(
                match *text {
                    Some(s) => Some(s@),
                    None => None,
                },
                now,
            ) is None && err is Time,
        },
{
    match text {
        Some(s) => instant_of_text(s.as_str()),
        None => Ok(now),
    }
}

/// The entry that an import item stands for.
pub fn import_entry(item: &ImportItem, now: Timestamp) -> (r: Result<Entry, KvError>)
    ensures
        match r {
            Ok(entry) => imported(item@, now) == Some(entry@),
            Err(err) => imported(item@, now) is None && err is Time,
        },
{
    let created_at = import_time(&item.created_at, now)?;
    let updated_at = import_time(&item.updated_at, now)?;
    let raw: Vec<String> = match &item.tags {
        Some(t) => clone_strings(t.as_slice()),
        None => {
            let none: Vec<String> = Vec::new();
            assert(strs(none@) =~= Seq::<Seq<char>>::empty());
            none
        },
    };
    let tags = normalize_tags(raw);
    Ok(Entry::with_timestamps(item.value.clone(), tags, created_at, updated_at))
}

/// The entries that the items of an import file stand for, in their order.
pub fn import_entries(items: &Vec<(String, ImportItem)>, now: Timestamp) -> (r: Result<
    Vec<(String, Entry)>,
    KvError,
>)
    ensures
        match r {
            Ok(entries) => imported_all(items_view(items@), now) == Some(
                crate::store::pairs_view(entries@),
            ),
            Err(err) => imported_all(items_view(items@), now) is None && err is Time,
        },
{
    let ghost all = items_view(items@);
    let mut entries: Vec<(String, Entry)> = Vec::new();
    let mut i: usize = 0;
    assert(all.take(0) =~= Seq::empty());
    assert(crate::store::pairs_view(entries@) =~= Seq::empty());
    while i < items.len()
        invariant
            i <= items.len(),
            all == items_view(items@),
            imported_all(all.take(i as int), now) == Some(crate::store::pairs_view(entries@)),
        decreases items.len() - i,
    {
        let ghost upto = all.take(i + 1);
        let ghost before = crate::store::pairs_view(entries@);
        proof {
            assert(upto.drop_last() =~= all.take(i as int));
            assert(upto.last() == (items@[i as int].0@, items@[i as int].1@));
        }
        match import_entry(&items[i].1, now) {
            Ok(entry) => {
                entries.push((items[i].0.clone(), entry));
                assert(crate::store::pairs_view(entries@) =~= before.push((items@[i as int].0@, entry@)));
            },
            Err(err) => {
                proof {
                    lemma_imported_prefix(all, now, i + 1);
                }
                return Err(err);
            },
        }
        i = i + 1;
    }
    assert(all.take(items.len() as int) =~= all);
    Ok(entries)
}

/// Where the first items stand for no entries, the whole list stands for
/// none.
proof fn lemma_imported_prefix(items: Seq<(Seq<char>, ImportView)>, now: Timestamp, n: int)
    requires
        0 <= n <= items.len(),
        imported_all(items.take(n), now) is None,
    ensures
        imported_all(items, now) is None,
    decreases items.len(),
{
    if n < items.len() {
        assert(items.drop_last().take(n) =~= items.take(n));
        lemma_imported_prefix(items.drop_last(), now, n);
    } else {
        assert(items.take(n) =~= items);
    }
}

} // verus!
