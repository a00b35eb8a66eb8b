//! Entries, and the in-memory index over them: ordered listing, fuzzy
//! search, and the log of recently used keys.

use vstd::prelude::*;

use crate::history::{
    capped, history_ok, index_of, kept, lemma_kept, lemma_pruned, lemma_recorded, lemma_without,
    lemma_without_at, pruned, recorded, without,
};
use crate::listing::{
    entries_map, is_key_position, lemma_key_position, lemma_listing_insert, lemma_listing_map,
    lemma_listing_remove, lemma_listing_update, listing_map, sorted_listing, Listing,
};
use crate::ranking::{
    best_tag, combined_score, fuzzy_score, lemma_ranking, listing_scores, rank_scores, ranking,
};
use crate::text::{
    clone_strings, join, joined, lemma_str_lt_transitive, str_equal, str_less, str_lt, strs,
    trim_str, trimmed,
};
use crate::time::{
    clock_now, parse_error_text, parse_rfc3339, rfc3339_instant, Timestamp,
};
use crate::KvError;

verus! {

/// `serde_json::Error`, carried through as it is: nothing inside it is
/// stated or read.
#[verifier::external_type_specification]
#[verifier::external_body]
pub struct ExJsonError(serde_json::Error);

/// The JSON text of a list of strings, as `serde_json` writes it; `None`
/// where it reports an error.
pub uninterp spec fn json_of_tags(tags: Seq<Seq<char>>) -> Option<Seq<char>>;

/// The list of strings that a JSON text holds, as `serde_json` reads it;
/// `None` where it rejects the text.
pub uninterp spec fn tags_of_json(json: Seq<char>) -> Option<Seq<Seq<char>>>;

/// `serde_json::to_string` on a list of strings. The contract only names
/// the result: success and text are `json_of_tags` of the list.
#[verifier::external_body]
pub(crate) fn encode_tags(tags: &Vec<String>) -> (r: Result<String, serde_json::Error>)
    ensures
        r is Ok ==> json_of_tags(strs(tags@)) == Some(r->Ok_0@),
        r is Err ==> json_of_tags(strs(tags@)) is None,
{
    serde_json::to_string(tags)
}

/// `serde_json::from_str` for a list of strings. The contract only names
/// the result: success and list are `tags_of_json` of the text.
#[verifier::external_body]
pub(crate) fn decode_tags(json: &str) -> (r: Result<Vec<String>, serde_json::Error>)
    ensures
        r is Ok ==> tags_of_json(json@) == Some(strs(r->Ok_0@)),
        r is Err ==> tags_of_json(json@) is None,
{
    serde_json::from_str::<Vec<String>>(json)
}

/// The `Display` text of a `serde_json::Error`. Nothing is claimed of it.
#[verifier::external_body]
pub(crate) fn json_error_text(e: &serde_json::Error) -> (text: String) {
    format!("{}", e)
}

/// The model of an entry.
pub struct EntryView {
    pub value: Seq<char>,
    pub tags: Seq<Seq<char>>,
    pub created_at: Timestamp,
    pub updated_at: Timestamp,
    pub expires_at: Option<Timestamp>,
}

/// A stored value with its tags, the instants of its first and latest
/// write, and the instant after which it is dead, if any.
#[derive(Debug)]
pub struct Entry {
    value: String,
    tags: Vec<String>,
    created_at: Timestamp,
    updated_at: Timestamp,
    expires_at: Option<Timestamp>,
}

impl View for Entry {
    type V = EntryView;

    closed spec fn view(&self) -> EntryView {
        EntryView {
            value: self.value@,
            tags: strs(self.tags@),
            created_at: self.created_at,
            updated_at: self.updated_at,
            expires_at: self.expires_at,
        }
    }
}

impl Clone for Entry {
    fn clone(&self) -> (copy: Self)
        ensures
            copy@ == self@,
    {
        Entry {
            value: self.value.clone(),
            tags: clone_strings(self.tags.as_slice()),
            created_at: self.created_at,
            updated_at: self.updated_at,
            expires_at: self.expires_at,
        }
    }
}

/// The tags that a stored tags text stands for: none where the text is
/// blank, else what the JSON reader makes of it.
pub open spec fn persisted_tags(tags_json: Seq<char>) -> Option<Seq<Seq<char>>> {
    if trimmed(tags_json).len() == 0 {
        Some(Seq::empty())
    } else {
        tags_of_json(tags_json)
    }
}

/// The entry that a write at `now` leaves: the first write's instant and the
/// expiry stay as they were, where there was an entry before.
pub open spec fn updated_entry(
    existing: Option<EntryView>,
    value: Seq<char>,
    tags: Seq<Seq<char>>,
    now: Timestamp,
) -> EntryView {
    EntryView {
        value,
        tags,
        created_at: match existing {
            Some(e) => e.created_at,
            None => now,
        },
        updated_at: now,
        expires_at: match existing {
            Some(e) => e.expires_at,
            None => None,
        },
    }
}

/// The entry after a run of writes, each with its value, its tags and its
/// instant.
pub open spec fn rewritten(first: EntryView, writes: Seq<(Seq<char>, Seq<Seq<char>>, Timestamp)>) -> EntryView
    decreases writes.len(),
{
    if writes.len() == 0 {
        first
    } else {
        updated_entry(
            Some(rewritten(first, writes.drop_last())),
            writes.last().0,
            writes.last().1,
            writes.last().2,
        )
    }
}

/// However often an entry is written again, the instant of its first write
/// and its expiry stay, and the instant of its latest write is that of the
/// last write.
pub proof fn lemma_rewrites_keep_created_at(
    first: EntryView,
    writes: Seq<(Seq<char>, Seq<Seq<char>>, Timestamp)>,
)
    ensures
        rewritten(first, writes).created_at == first.created_at,
        rewritten(first, writes).expires_at == first.expires_at,
        writes.len() > 0 ==> rewritten(first, writes).updated_at == writes.last().2,
    decreases writes.len(),
{
    if writes.len() > 0 {
        lemma_rewrites_keep_created_at(first, writes.drop_last());
    }
}

/// One line for a listing: key, value, and the tags where there are any.
pub open spec fn summary_text(key: Seq<char>, value: Seq<char>, tags: Seq<Seq<char>>) -> Seq<char> {
    key + " = "@ + value + (if tags.len() == 0 {
        Seq::<char>::empty()
    } else {
        " [tags: "@ + joined(tags, ", "@) + "]"@
    })
}

/// The model of an entry that may be missing.
pub open spec fn opt_view(e: Option<&Entry>) -> Option<EntryView> {
    match e {
        Some(e) => Some(e@),
        None => None,
    }
}

impl Entry {
    /// An entry written for the first time now.
    pub fn new(value: String, tags: Vec<String>) -> (e: Self)
        ensures
            e@.value == value@,
            e@.tags == strs(tags@),
            e@.created_at == e@.updated_at,
            e@.expires_at is None,
    {
        let now = clock_now();
        Entry::with_timestamps(value, tags, now, now)
    }

    /// An entry with the given instants of its first and latest write, and
    /// without expiry.
    pub fn with_timestamps(
        value: String,
        tags: Vec<String>,
        created_at: Timestamp,
        updated_at: Timestamp,
    ) -> (e: Self)
        ensures
            e@ == (EntryView {
                value: value@,
                tags: strs(tags@),
                created_at,
                updated_at,
                expires_at: None,
            }),
    {
        Entry { value, tags, created_at, updated_at, expires_at: None }
    }

    /// The same entry with another expiry.
    pub fn with_expiry(self, expires_at: Option<Timestamp>) -> (e: Self)
        ensures
            e@ == (EntryView { expires_at, ..self@ }),
    {
        Entry {
            value: self.value,
            tags: self.tags,
            created_at: self.created_at,
            updated_at: self.updated_at,
            expires_at,
        }
    }

    /// The same entry with other tags.
    pub fn with_tags(self, tags: Vec<String>) -> (e: Self)
        ensures
            e@ == (EntryView { tags: strs(tags@), ..self@ }),
    {
        Entry {
            value: self.value,
            tags,
            created_at: self.created_at,
            updated_at: self.updated_at,
            expires_at: self.expires_at,
        }
    }

    /// The entry after a write at `now` that sets its tags and its expiry
    /// and leaves the value as it is.
    pub fn revised(&self, tags: Vec<String>, expires_at: Option<Timestamp>, now: Timestamp) -> (e: Self)
        ensures
            e@ == (EntryView { tags: strs(tags@), expires_at, updated_at: now, ..self@ }),
    {
        Entry {
            value: self.value.clone(),
            tags,
            created_at: self.created_at,
            updated_at: now,
            expires_at,
        }
    }

    /// Reads an entry from its stored texts. The tags text is checked first,
    /// then the two instants in turn.
    pub fn from_persisted(value: String, tags_json: &str, created_at: &str, updated_at: &str) -> (r:
        Result<Self, KvError>)
        ensures
            match r {
                Ok(e) => {
                    &&& persisted_tags(tags_json@) == Some(e@.tags)
                    &&& rfc3339_instant(created_at@) == Some(e@.created_at)
                    &&& rfc3339_instant(updated_at@) == Some(e@.updated_at)
                    &&& e@.value == value@
                    &&& e@.expires_at is None
                },
                Err(err) => {
                    ||| persisted_tags(tags_json@) is None && err is DataFormat
                    ||| {
                        &&& persisted_tags(tags_json@) is Some
                        &&& rfc3339_instant(created_at@) is None || rfc3339_instant(updated_at@) is None
                        &&& err is Time
                    }
                },
            },
    {
        let tags: Vec<String> = if trim_str(tags_json).is_empty() {
            let none: Vec<String> = Vec::new();
            assert(strs(none@) =~= Seq::<Seq<char>>::empty());
            none
        } else {
            match decode_tags(tags_json) {
                Ok(tags) => tags,
                Err(e) => {
                    return Err(KvError::DataFormat(json_error_text(&e)));
                },
            }
        };
        let created = match parse_rfc3339(created_at) {
            Ok(t) => t,
            Err(e) => {
                return Err(KvError::Time(parse_error_text(&e)));
            },
        };
        let updated = match parse_rfc3339(updated_at) {
            Ok(t) => t,
            Err(e) => {
                return Err(KvError::Time(parse_error_text(&e)));
            },
        };
        Ok(Entry::with_timestamps(value, tags, created, updated))
    }

    /// The entry that a write at `now` leaves.
    pub fn updated_at_instant(
        existing: Option<&Entry>,
        value: String,
        tags: Vec<String>,
        now: Timestamp,
    ) -> (e: Self)
        ensures
            e@ == updated_entry(opt_view(existing), value@, strs(tags@), now),
    {
        match existing {
            Some(old) => Entry {
                value,
                tags,
                created_at: old.created_at,
                updated_at: now,
                expires_at: old.expires_at,
            },
            None => Entry { value, tags, created_at: now, updated_at: now, expires_at: None },
        }
    }

    /// The entry that a write now leaves: whatever the clock says, the first
    /// write's instant and the expiry of an existing entry are kept.
    pub fn for_update(existing: Option<&Entry>, value: String, tags: Vec<String>) -> (e: Self)
        ensures
            e@ == updated_entry(opt_view(existing), value@, strs(tags@), e@.updated_at),
    {
        let now = clock_now();
        Entry::updated_at_instant(existing, value, tags, now)
    }

    /// The tags as JSON text.
    pub fn tags_json(&self) -> (r: Result<String, KvError>)
        ensures
            match r {
                Ok(text) => json_of_tags(self@.tags) == Some(text@),
                Err(err) => json_of_tags(self@.tags) is None && err is DataFormat,
            },
    {
        match encode_tags(&self.tags) {
            Ok(text) => Ok(text),
            Err(e) => Err(KvError::DataFormat(json_error_text(&e))),
        }
    }

    /// One line for a listing.
    pub fn summary(&self, key: &str) -> (line: String)
        ensures
            line@ == summary_text(key@, self@.value, self@.tags),
    {
        let mut line = String::from_str(key);
        line.append(" = ");
        line.append(self.value.as_str());
        if self.tags.len() > 0 {
            line.append(" [tags: ");
            let list = join(self.tags.as_slice(), ", ");
            line.append(list.as_str());
            line.append("]");
            assert(line@ =~= summary_text(key@, self@.value, self@.tags));
        } else {
            assert(line@ =~= summary_text(key@, self@.value, self@.tags));
        }
        line
    }

    /// The stored text.
    pub fn value(&self) -> (v: &str)
        ensures
            v@ == self@.value,
    {
        self.value.as_str()
    }

    /// The tags.
    pub fn tags(&self) -> (t: &[String])
        ensures
            strs(t@) == self@.tags,
    {
        self.tags.as_slice()
    }

    /// The instant of the first write.
    pub fn created_at(&self) -> (t: Timestamp)
        ensures
            t == self@.created_at,
    {
        self.created_at
    }

    /// The instant of the latest write.
    pub fn updated_at(&self) -> (t: Timestamp)
        ensures
            t == self@.updated_at,
    {
        self.updated_at
    }

    /// The instant from which the entry is dead, if it has one.
    pub fn expires_at(&self) -> (t: Option<Timestamp>)
        ensures
            t == self@.expires_at,
    {
        self.expires_at
    }
}

/// What a search looks at.
#[derive(Debug, Copy, Clone, PartialEq, Eq, Structural)]
pub enum SearchScope {
    All,
    KeysOnly,
    TagsOnly,
}

/// Whether a search of this scope looks at keys.
pub open spec fn scope_has_keys(scope: SearchScope) -> bool {
    scope is All || scope is KeysOnly
}

/// Whether a search of this scope looks at tags.
pub open spec fn scope_has_tags(scope: SearchScope) -> bool {
    scope is All || scope is TagsOnly
}

/// Whether a search of this scope looks at keys.
pub fn matches_keys(scope: SearchScope) -> (r: bool)
    ensures
        r == scope_has_keys(scope),
{
    match scope {
        SearchScope::All => true,
        SearchScope::KeysOnly => true,
        SearchScope::TagsOnly => false,
    }
}

/// Whether a search of this scope looks at tags.
pub fn matches_tags(scope: SearchScope) -> (r: bool)
    ensures
        r == scope_has_tags(scope),
{
    match scope {
        SearchScope::All => true,
        SearchScope::KeysOnly => false,
        SearchScope::TagsOnly => true,
    }
}

/// The models of a list of keys with their entries.
pub open spec fn pairs_view(pairs: Seq<(String, Entry)>) -> Listing {
    Seq::new(pairs.len(), |i: int| (pairs[i].0@, pairs[i].1@))
}

/// The models of a list of borrowed keys with their entries.
pub open spec fn refs_view(pairs: Seq<(&String, &Entry)>) -> Listing {
    Seq::new(pairs.len(), |i: int| (pairs[i].0@, pairs[i].1@))
}

/// Where the log of recently used keys is kept, and how many keys it holds
/// at most.
#[derive(Debug)]
pub struct RecentConfig {
    path: String,
    limit: usize,
}

impl RecentConfig {
    /// The path of the log file.
    pub closed spec fn path_view(&self) -> Seq<char> {
        self.path@
    }

    /// The greatest number of keys in the log.
    pub closed spec fn limit_view(&self) -> nat {
        self.limit as nat
    }

    /// A log at `path` of at most `limit` keys.
    pub fn new(path: String, limit: usize) -> (c: Self)
        ensures
            c.path_view() == path@,
            c.limit_view() == limit,
    {
        RecentConfig { path, limit }
    }

    /// The path of the log file.
    pub fn path(&self) -> (p: &str)
        ensures
            p@ == self.path_view(),
    {
        self.path.as_str()
    }

    /// The greatest number of keys in the log.
    pub fn limit(&self) -> (n: usize)
        ensures
            n == self.limit_view(),
    {
        self.limit
    }
}

struct Slot {
    key: String,
    entry: Entry,
}

/// The entries of one namespace in memory, in key order, with the log of
/// recently used keys.
pub struct Store {
    slots: Vec<Slot>,
    recent: Vec<String>,
    config: Option<RecentConfig>,
}

impl View for Store {
    type V = Map<Seq<char>, EntryView>;

    open spec fn view(&self) -> Map<Seq<char>, EntryView> {
        listing_map(self.listing())
    }
}

/// One hit of a search: the key, its entry and the score.
pub struct SearchResult<'a> {
    pub key: &'a str,
    pub entry: &'a Entry,
    pub score: i64,
}

/// What a search returns: the places of `search_order`, each with its key,
/// entry and score.
pub open spec fn is_search_result(
    hits: Seq<SearchResult<'_>>,
    l: Listing,
    pattern: Seq<char>,
    scope: SearchScope,
    limit: nat,
) -> bool {
    let order = search_order(l, pattern, scope, limit);
    &&& hits.len() == order.len()
    &&& forall|i: int|
        0 <= i < hits.len() ==> {
            &&& (#[trigger] hits[i]).key@ == l[order[i].0 as int].0
            &&& hits[i].entry@ == l[order[i].0 as int].1
            &&& hits[i].score == order[i].1
        }
}

/// The places of a listing that a search hits, with their scores, the best
/// first: none for an empty pattern or a limit of 0, else the first
/// `limit` of the ranking of the listing's scores.
pub open spec fn search_order(l: Listing, pattern: Seq<char>, scope: SearchScope, limit: nat) -> Seq<
    (usize, i64),
> {
    if pattern.len() == 0 || limit == 0 {
        Seq::empty()
    } else {
        capped(ranking(listing_scores(l, pattern, scope)), limit)
    }
}

/// A change to the entries of a namespace, as the durable store and the
/// index both apply it.
#[derive(Debug)]
pub enum Mutation {
    /// Write `entry` under `key`.
    Upsert { key: String, entry: Entry },
    /// Take `key` out.
    Delete { key: String },
    /// Replace everything by these entries, written in turn.
    ReplaceAll { entries: Vec<(String, Entry)> },
}

/// The model of a change.
pub enum MutationView {
    Upsert { key: Seq<char>, entry: EntryView },
    Delete { key: Seq<char> },
    ReplaceAll { entries: Listing },
}

impl View for Mutation {
    type V = MutationView;

    open spec fn view(&self) -> MutationView {
        match *self {
            Mutation::Upsert { key, entry } => MutationView::Upsert { key: key@, entry: entry@ },
            Mutation::Delete { key } => MutationView::Delete { key: key@ },
            Mutation::ReplaceAll { entries } => MutationView::ReplaceAll { entries: pairs_view(entries@) },
        }
    }
}

impl MutationView {
    /// The entries after the change.
    pub open spec fn effect(self, before: Map<Seq<char>, EntryView>) -> Map<Seq<char>, EntryView> {
        match self {
            MutationView::Upsert { key, entry } => before.insert(key, entry),
            MutationView::Delete { key } => before.remove(key),
            MutationView::ReplaceAll { entries } => entries_map(entries),
        }
    }

    /// The log of recently used keys after the change: it loses the keys
    /// that the change takes away.
    pub open spec fn effect_on_history(self, log: Seq<Seq<char>>) -> Seq<Seq<char>> {
        match self {
            MutationView::Upsert { key, entry } => log,
            MutationView::Delete { key } => without(log, key),
            MutationView::ReplaceAll { entries } => pruned(log, entries_map(entries).dom()),
        }
    }
}

impl Store {
    /// The keys and entries in the order in which they are listed.
    pub closed spec fn listing(&self) -> Listing {
        Seq::new(self.slots@.len(), |i: int| (self.slots@[i].key@, self.slots@[i].entry@))
    }

    /// The recently used keys, the latest first.
    pub closed spec fn history(&self) -> Seq<Seq<char>> {
        strs(self.recent@)
    }

    /// How many recently used keys are kept at most; 0 while no log is kept.
    pub closed spec fn capacity(&self) -> nat {
        match self.config {
            Some(c) => c.limit as nat,
            None => 0,
        }
    }

    /// The file of the log, where one is kept.
    pub closed spec fn log_path(&self) -> Option<Seq<char>> {
        match self.config {
            Some(c) => Some(c.path@),
            None => None,
        }
    }

    /// What holds of every store: the listing is in strictly ascending key
    /// order and the log is in order.
    pub open spec fn wf(&self) -> bool {
        &&& sorted_listing(self.listing())
        &&& history_ok(self.history(), self@.dom(), self.capacity())
    }

    /// Brings a list of tags to its canonical form: each one trimmed, the
    /// empty ones dropped, the rest sorted with nothing twice.
    pub fn normalize_tags(raw: Vec<String>) -> (tags: Vec<String>)
        ensures
            strs(tags@) == crate::tags::normalized(strs(raw@)),
    {
        crate::tags::normalize_tags(raw)
    }

    /// A store without entries that keeps no log.
    pub fn new() -> (s: Self)
        ensures
            s.wf(),
            s@ == Map::<Seq<char>, EntryView>::empty(),
            s.listing().len() == 0,
            s.history().len() == 0,
            s.capacity() == 0,
            s.log_path() is None,
    {
        let s = Store { slots: Vec::new(), recent: Vec::new(), config: None };
        assert(s@ =~= Map::<Seq<char>, EntryView>::empty());
        s
    }

    /// The place of `key` in the listing, or the place where it would go.
    fn position(&self, key: &str) -> (pos: usize)
        requires
            sorted_listing(self.listing()),
        ensures
            is_key_position(self.listing(), key@, pos as int),
    {
        let ghost l = self.listing();
        let mut lo: usize = 0;
        let mut hi: usize = self.slots.len();
        while lo < hi
            invariant
                l == self.listing(),
                sorted_listing(l),
                lo <= hi <= self.slots.len(),
                forall|k: int| 0 <= k < lo ==> str_lt(#[trigger] l[k].0, key@),
                forall|k: int| hi <= k < l.len() ==> !str_lt(#[trigger] l[k].0, key@),
            decreases hi - lo,
        {
            let mid: usize = lo + (hi - lo) / 2;
            assert(l[mid as int].0 == self.slots[mid as int].key@);
            if str_less(self.slots[mid].key.as_str(), key) {
                assert forall|k: int| 0 <= k < mid + 1 implies str_lt(#[trigger] l[k].0, key@) by {
                    if k < mid {
                        assert(str_lt(l[k].0, l[mid as int].0));
                        lemma_str_lt_transitive(l[k].0, l[mid as int].0, key@);
                    }
                }
                lo = mid + 1;
            } else {
                assert forall|k: int| mid <= k < l.len() implies !str_lt(#[trigger] l[k].0, key@) by {
                    if k > mid && str_lt(l[k].0, key@) {
                        assert(str_lt(l[mid as int].0, l[k].0));
                        lemma_str_lt_transitive(l[mid as int].0, l[k].0, key@);
                    }
                }
                hi = mid;
            }
        }
        lo
    }

    /// The number of entries.
    pub fn len(&self) -> (n: usize)
        ensures
            n == self.listing().len(),
            self.wf() ==> self@.dom().finite() && n == self@.len(),
    {
        proof {
            if self.wf() {
                crate::listing::lemma_listing_len(self.listing());
            }
        }
        self.slots.len()
    }

    /// The entry of `key`, if there is one.
    pub fn get(&self, key: &str) -> (r: Option<&Entry>)
        requires
            self.wf(),
        ensures
            match r {
                Some(e) => self@.contains_key(key@) && self@[key@] == e@,
                None => !self@.contains_key(key@),
            },
    {
        let pos = self.position(key);
        proof {
            lemma_key_position(self.listing(), key@, pos as int);
            lemma_listing_map(self.listing());
        }
        if pos < self.slots.len() && str_equal(self.slots[pos].key.as_str(), key) {
            assert(self.listing()[pos as int].1 == self.slots[pos as int].entry@);
            Some(&self.slots[pos].entry)
        } else {
            None
        }
    }

    /// Whether the store holds `key`.
    pub fn contains_key(&self, key: &str) -> (r: bool)
        requires
            self.wf(),
        ensures
            r == self@.contains_key(key@),
    {
        self.get(key).is_some()
    }

    /// Writes an entry under `key` and returns the one that was there.
    pub fn insert(&mut self, key: String, entry: Entry) -> (previous: Option<Entry>)
        requires
            old(self).wf(),
        ensures
            final(self).wf(),
            final(self)@ == old(self)@.insert(key@, entry@),
            match previous {
                Some(p) => old(self)@.contains_key(key@) && p@ == old(self)@[key@],
                None => !old(self)@.contains_key(key@),
            },
            final(self).history() == old(self).history(),
            final(self).capacity() == old(self).capacity(),
            final(self).log_path() == old(self).log_path(),
    {
        let pos = self.position(key.as_str());
        let ghost l = self.listing();
        proof {
            lemma_key_position(l, key@, pos as int);
            lemma_listing_map(l);
        }
        if pos < self.slots.len() && str_equal(self.slots[pos].key.as_str(), key.as_str()) {
            let old_slot = self.slots.remove(pos);
            self.slots.insert(pos, Slot { key, entry });
            proof {
                assert(self.listing() =~= l.update(pos as int, (key@, entry@)));
                lemma_listing_update(l, key@, entry@, pos as int);
                assert(old_slot.entry@ == l[pos as int].1);
            }
            Some(old_slot.entry)
        } else {
            self.slots.insert(pos, Slot { key, entry });
            proof {
                assert(self.listing() =~= l.insert(pos as int, (key@, entry@)));
                lemma_listing_insert(l, key@, entry@, pos as int);
            }
            None
        }
    }

    /// All keys with their entries in ascending key order.
    pub fn ordered(&self) -> (items: Vec<(&String, &Entry)>)
        ensures
            refs_view(items@) == self.listing(),
    {
        let mut items: Vec<(&String, &Entry)> = Vec::new();
        let mut i: usize = 0;
        while i < self.slots.len()
            invariant
                i <= self.slots.len(),
                items.len() == i,
                forall|k: int|
                    0 <= k < i ==> (#[trigger] items@[k]).0@ == self.slots[k].key@ && items@[k].1@
                        == self.slots[k].entry@,
            decreases self.slots.len() - i,
        {
            items.push((&self.slots[i].key, &self.slots[i].entry));
            i = i + 1;
        }
        assert(refs_view(items@) =~= self.listing());
        items
    }

    /// Builds the store from keys with their entries, each written in turn:
    /// of two with one key the later stays.
    pub fn from_entries(entries: Vec<(String, Entry)>) -> (s: Self)
        ensures
            s.wf(),
            s@ == entries_map(pairs_view(entries@)),
            s.history().len() == 0,
            s.capacity() == 0,
            s.log_path() is None,
    {
        let mut s = Store::new();
        let mut i: usize = 0;
        assert(pairs_view(entries@).take(0) =~= Seq::empty());
        while i < entries.len()
            invariant
                i <= entries.len(),
                s.wf(),
                s@ == entries_map(pairs_view(entries@).take(i as int)),
                s.history().len() == 0,
                s.capacity() == 0,
                s.log_path() is None,
            decreases entries.len() - i,
        {
            let ghost upto = pairs_view(entries@).take(i + 1);
            proof {
                assert(upto.drop_last() =~= pairs_view(entries@).take(i as int));
                assert(upto.last() == (entries@[i as int].0@, entries@[i as int].1@));
            }
            let key = entries[i].0.clone();
            let entry = entries[i].1.clone();
            s.insert(key, entry);
            i = i + 1;
        }
        assert(pairs_view(entries@).take(entries.len() as int) =~= pairs_view(entries@));
        s
    }

    /// Takes the entry of `key` out, and the key out of the log.
    pub fn remove(&mut self, key: &str) -> (removed: Option<Entry>)
        requires
            old(self).wf(),
        ensures
            final(self).wf(),
            final(self)@ == old(self)@.remove(key@),
            match removed {
                Some(e) => old(self)@.contains_key(key@) && e@ == old(self)@[key@],
                None => !old(self)@.contains_key(key@),
            },
            final(self).history() == without(old(self).history(), key@),
            final(self).capacity() == old(self).capacity(),
            final(self).log_path() == old(self).log_path(),
    {
        let pos = self.position(key);
        let ghost l = self.listing();
        let ghost h = self.history();
        proof {
            lemma_key_position(l, key@, pos as int);
            lemma_listing_map(l);
            lemma_without(h, key@);
        }
        if pos < self.slots.len() && str_equal(self.slots[pos].key.as_str(), key) {
            let slot = self.slots.remove(pos);
            proof {
                assert(self.listing() =~= l.remove(pos as int));
                lemma_listing_remove(l, pos as int);
                assert(slot.entry@ == l[pos as int].1);
            }
            match index_of(&self.recent, key) {
                Some(at) => {
                    self.recent.remove(at);
                    proof {
                        assert(h[at as int] == key@);
                        lemma_without_at(h, key@, at as int);
                        assert(self.history() =~= h.remove(at as int));
                    }
                },
                None => {},
            }
            proof {
                let h2 = self.history();
                assert forall|i: int| 0 <= i < h2.len() implies self@.dom().contains(#[trigger] h2[i]) by {
                    assert(h2.contains(h2[i]));
                    let m = choose|m: int| 0 <= m < h.len() && h[m] == h2[i];
                    assert(old(self)@.dom().contains(h[m]));
                }
            }
            Some(slot.entry)
        } else {
            proof {
                assert(old(self)@.remove(key@) =~= old(self)@);
                assert(!h.contains(key@)) by {
                    if h.contains(key@) {
                        let m = choose|m: int| 0 <= m < h.len() && h[m] == key@;
                        assert(old(self)@.dom().contains(h[m]));
                    }
                }
            }
            None
        }
    }

    /// Replaces all entries by the given ones, written in turn, and drops
    /// from the log the keys that are gone.
    pub fn reset(&mut self, entries: Vec<(String, Entry)>)
        requires
            old(self).wf(),
        ensures
            final(self).wf(),
            final(self)@ == entries_map(pairs_view(entries@)),
            final(self).history() == pruned(old(self).history(), final(self)@.dom()),
            final(self).capacity() == old(self).capacity(),
            final(self).log_path() == old(self).log_path(),
    {
        let fresh = Store::from_entries(entries);
        let ghost h = self.history();
        let ghost keys = fresh@.dom();
        let mut keep: Vec<String> = Vec::new();
        let mut i: usize = 0;
        assert(h.take(0) =~= Seq::<Seq<char>>::empty());
        assert(strs(keep@) =~= Seq::<Seq<char>>::empty());
        while i < self.recent.len()
            invariant
                i <= self.recent.len(),
                h == strs(self.recent@),
                fresh.wf(),
                keys == fresh@.dom(),
                strs(keep@) == pruned(h.take(i as int), keys),
            decreases self.recent.len() - i,
        {
            let ghost upto = h.take(i + 1);
            proof {
                assert(upto.drop_last() =~= h.take(i as int));
                assert(upto.last() == self.recent@[i as int]@);
            }
            if fresh.contains_key(self.recent[i].as_str()) {
                let ghost before = strs(keep@);
                keep.push(self.recent[i].clone());
                assert(strs(keep@) =~= before.push(self.recent@[i as int]@));
            }
            i = i + 1;
        }
        assert(h.take(self.recent.len() as int) =~= h);
        self.slots = fresh.slots;
        self.recent = keep;
        proof {
            assert(self.listing() =~= fresh.listing());
            lemma_pruned(h, keys);
            let h2 = self.history();
            assert forall|i: int| 0 <= i < h2.len() implies keys.contains(#[trigger] h2[i]) by {
                assert(h2.contains(h2[i]));
            }
        }
    }

    /// Starts keeping the log of recently used keys, from what was saved:
    /// of the saved lines those stay that name a key of the store, each at
    /// its first occurrence, up to the limit.
    pub fn enable_recent_history(&mut self, config: RecentConfig, saved: &str)
        requires
            old(self).wf(),
        ensures
            final(self).wf(),
            final(self).listing() == old(self).listing(),
            final(self).history() == capped(
                kept(crate::text::split_lines(saved@), old(self)@.dom()),
                config.limit_view(),
            ),
            final(self).capacity() == config.limit_view(),
            final(self).log_path() == Some(config.path_view()),
    {
        let lines = crate::text::lines_of(saved);
        let ghost all = strs(lines@);
        let ghost keys = self@.dom();
        let mut keep: Vec<String> = Vec::new();
        let mut i: usize = 0;
        assert(all.take(0) =~= Seq::<Seq<char>>::empty());
        assert(strs(keep@) =~= Seq::<Seq<char>>::empty());
        while i < lines.len()
            invariant
                i <= lines.len(),
                all == strs(lines@),
                self.wf(),
                keys == self@.dom(),
                strs(keep@) == kept(all.take(i as int), keys),
            decreases lines.len() - i,
        {
            let ghost upto = all.take(i + 1);
            proof {
                assert(upto.drop_last() =~= all.take(i as int));
                assert(upto.last() == lines@[i as int]@);
            }
            let present = self.contains_key(lines[i].as_str());
            let seen = index_of(&keep, lines[i].as_str());
            proof {
                if let Some(at) = seen {
                    assert(strs(keep@)[at as int] == lines@[i as int]@);
                }
            }
            if present && seen.is_none() {
                let ghost before = strs(keep@);
                keep.push(lines[i].clone());
                assert(strs(keep@) =~= before.push(lines@[i as int]@));
            }
            i = i + 1;
        }
        assert(all.take(lines.len() as int) =~= all);
        let ghost full = strs(keep@);
        let limit = config.limit;
        keep.truncate(limit);
        proof {
            lemma_kept(all, keys);
            if limit < full.len() {
                assert(strs(keep@) =~= full.take(limit as int));
            } else {
                assert(strs(keep@) =~= full);
            }
        }
        self.recent = keep;
        self.config = Some(config);
        proof {
            let h2 = self.history();
            assert forall|i: int, j: int| 0 <= i < j < h2.len() implies #[trigger] h2[i] != #[trigger] h2[j] by {
                assert(full[i] != full[j]);
            }
            assert forall|i: int| 0 <= i < h2.len() implies keys.contains(#[trigger] h2[i]) by {
                assert(h2[i] == full[i]);
                assert(full.contains(full[i]));
            }
        }
    }

    /// Notes that `key` was used. Where the store holds the key and keeps a
    /// log with room for at least one key, the key moves to the front of
    /// the log, and `true` tells that the log is to be saved again.
    pub fn record_access(&mut self, key: &str) -> (changed: bool)
        requires
            old(self).wf(),
        ensures
            final(self).wf(),
            final(self).listing() == old(self).listing(),
            final(self).capacity() == old(self).capacity(),
            final(self).log_path() == old(self).log_path(),
            changed == (old(self)@.contains_key(key@) && old(self).capacity() > 0),
            final(self).history() == if changed {
                recorded(old(self).history(), key@, old(self).capacity())
            } else {
                old(self).history()
            },
    {
        let limit: usize = match &self.config {
            Some(c) => c.limit,
            None => 0,
        };
        if limit == 0 || !self.contains_key(key) {
            return false;
        }
        let ghost h = self.history();
        proof {
            lemma_without(h, key@);
            lemma_recorded(h, key@, self@.dom(), limit as nat);
        }
        match index_of(&self.recent, key) {
            Some(at) => {
                self.recent.remove(at);
                proof {
                    assert(h[at as int] == key@);
                    lemma_without_at(h, key@, at as int);
                    assert(self.history() =~= h.remove(at as int));
                }
            },
            None => {},
        }
        let ghost rest = self.history();
        self.recent.insert(0, String::from_str(key));
        assert(self.history() =~= seq![key@] + rest);
        let ghost full = self.history();
        self.recent.truncate(limit);
        proof {
            if limit < full.len() {
                assert(self.history() =~= full.take(limit as int));
            } else {
                assert(self.history() =~= full);
            }
        }
        true
    }

    /// The recently used keys, the latest first, at most `limit` of them.
    pub fn recent(&self, limit: usize) -> (keys: Vec<String>)
        ensures
            strs(keys@) == capped(self.history(), limit as nat),
    {
        let mut keys: Vec<String> = Vec::new();
        let mut i: usize = 0;
        while i < self.recent.len() && i < limit
            invariant
                i <= self.recent.len(),
                i <= limit,
                keys.len() == i,
                forall|k: int| 0 <= k < i ==> keys@[k]@ == self.recent@[k]@,
            decreases self.recent.len() - i,
        {
            keys.push(self.recent[i].clone());
            i = i + 1;
        }
        assert(strs(keys@) =~= capped(self.history(), limit as nat));
        keys
    }

    /// The text to save for the log: one key on each line, the latest first.
    pub fn recent_text(&self) -> (text: String)
        ensures
            text@ == crate::text::render_lines(self.history()),
    {
        crate::text::lines_text(&self.recent)
    }

    /// Where the log is kept and how long it may get, where one is kept.
    pub fn recent_config(&self) -> (c: Option<&RecentConfig>)
        ensures
            match c {
                Some(c) => self.log_path() == Some(c.path_view()) && self.capacity() == c.limit_view(),
                None => self.log_path() is None && self.capacity() == 0,
            },
    {
        self.config.as_ref()
    }

    /// Searches keys, tags or both for `pattern` and returns the best
    /// `limit` hits, the best first.
    pub fn search<'a>(&'a self, pattern: &str, limit: usize, scope: SearchScope) -> (hits: Vec<
        SearchResult<'a>,
    >)
        ensures
            is_search_result(hits@, self.listing(), pattern@, scope, limit as nat),
    {
        let mut hits: Vec<SearchResult<'a>> = Vec::new();
        if pattern.is_empty() || limit == 0 {
            return hits;
        }
        let ghost l = self.listing();
        let ghost expected = listing_scores(l, pattern@, scope);
        let mut scores: Vec<Option<i64>> = Vec::new();
        let mut i: usize = 0;
        while i < self.slots.len()
            invariant
                i <= self.slots.len(),
                l == self.listing(),
                expected == listing_scores(l, pattern@, scope),
                scores.len() == i,
                forall|k: int| 0 <= k < i ==> scores@[k] == expected[k],
            decreases self.slots.len() - i,
        {
            let key_score = if matches_keys(scope) {
                fuzzy_score(self.slots[i].key.as_str(), pattern)
            } else {
                None
            };
            let tag_score = if matches_tags(scope) {
                best_tag(&self.slots[i].entry.tags, pattern)
            } else {
                None
            };
            assert(l[i as int] == (self.slots@[i as int].key@, self.slots@[i as int].entry@));
            scores.push(combined_score(scope, key_score, tag_score));
            i = i + 1;
        }
        assert(scores@ =~= expected);
        let order = rank_scores(&scores, limit);
        proof {
            lemma_ranking(scores@);
        }
        let mut j: usize = 0;
        while j < order.len()
            invariant
                j <= order.len(),
                l == self.listing(),
                l.len() == self.slots.len(),
                hits.len() == j,
                forall|k: int| 0 <= k < order.len() ==> (#[trigger] order@[k]).0 < self.slots.len(),
                forall|k: int|
                    0 <= k < j ==> {
                        &&& (#[trigger] hits@[k]).key@ == l[order@[k].0 as int].0
                        &&& hits@[k].entry@ == l[order@[k].0 as int].1
                        &&& hits@[k].score == order@[k].1
                    },
            decreases order.len() - j,
        {
            let at: usize = order[j].0;
            assert(l[at as int] == (self.slots@[at as int].key@, self.slots@[at as int].entry@));
            hits.push(
                SearchResult {
                    key: self.slots[at].key.as_str(),
                    entry: &self.slots[at].entry,
                    score: order[j].1,
                },
            );
            j = j + 1;
        }
        hits
    }

    /// Applies a change that the durable store has committed.
    pub fn apply(&mut self, change: Mutation)
        requires
            old(self).wf(),
        ensures
            final(self).wf(),
            final(self)@ == change@.effect(old(self)@),
            final(self).history() == change@.effect_on_history(old(self).history()),
            final(self).capacity() == old(self).capacity(),
            final(self).log_path() == old(self).log_path(),
    {
        match change {
            Mutation::Upsert { key, entry } => {
                self.insert(key, entry);
            },
            Mutation::Delete { key } => {
                self.remove(key.as_str());
            },
            Mutation::ReplaceAll { entries } => {
                self.reset(entries);
            },
        }
    }
}

} // verus!
