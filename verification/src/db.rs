//! The rules of the durable store: how an entry is laid out in a row, when
//! a database file is accepted, and what a sweep removes. The statements
//! themselves run outside this library, on the texts given here.

use vstd::prelude::*;

use crate::listing::Listing;
use crate::store::{json_of_tags, pairs_view, persisted_tags, Entry, EntryView};
use crate::text::strs;
use crate::time::{
    format_rfc3339, parse_error_text, parse_rfc3339, rfc3339_instant, rfc3339_text, Timestamp,
};
use crate::KvError;

verus! {

/// The schema version that this library writes and accepts.
pub const SCHEMA_VERSION: i64 = 1;

/// Seconds by which an entry must be past its expiry before a sweep removes
/// it, so that a writer who has just extended it is not raced.
pub const SWEEP_GRACE_SECS: i64 = 2;

/// Creates the table of entries.
pub const CREATE_TABLE_SQL: &'static str =
    "CREATE TABLE IF NOT EXISTS kv (key TEXT PRIMARY KEY, value TEXT NOT NULL, tags TEXT NOT NULL, created_at TEXT NOT NULL, updated_at TEXT NOT NULL, expires_at TEXT)";

/// Reads all rows in key order.
pub const SELECT_ALL_SQL: &'static str =
    "SELECT key, value, tags, created_at, updated_at, expires_at FROM kv ORDER BY key ASC";

/// Writes a row; where the key exists, everything but `created_at` is
/// overwritten.
pub const UPSERT_SQL: &'static str =
    "INSERT INTO kv (key, value, tags, created_at, updated_at, expires_at) VALUES (?1, ?2, ?3, ?4, ?5, ?6) ON CONFLICT(key) DO UPDATE SET value = excluded.value, tags = excluded.tags, updated_at = excluded.updated_at, expires_at = excluded.expires_at";

/// Deletes the row of one key.
pub const DELETE_SQL: &'static str = "DELETE FROM kv WHERE key = ?1";

/// Deletes all rows.
pub const CLEAR_SQL: &'static str = "DELETE FROM kv";

/// One row of the table: every column as text.
#[derive(Debug)]
pub struct Row {
    pub key: String,
    pub value: String,
    pub tags: String,
    pub created_at: String,
    pub updated_at: String,
    pub expires_at: Option<String>,
}

/// The model of a row.
pub struct RowView {
    pub key: Seq<char>,
    pub value: Seq<char>,
    pub tags: Seq<char>,
    pub created_at: Seq<char>,
    pub updated_at: Seq<char>,
    pub expires_at: Option<Seq<char>>,
}

impl View for Row {
    type V = RowView;

    open spec fn view(&self) -> RowView {
        RowView {
            key: self.key@,
            value: self.value@,
            tags: self.tags@,
            created_at: self.created_at@,
            updated_at: self.updated_at@,
            expires_at: match self.expires_at {
                Some(t) => Some(t@),
                None => None,
            },
        }
    }
}

/// Why a row and an entry cannot be turned into each other.
pub enum RowFault {
    /// The tags cannot be written or read as JSON.
    Tags,
    /// An instant cannot be written or read as RFC 3339 text.
    Instant,
}

/// Whether an error reports the given fault.
pub open spec fn reports(err: KvError, fault: RowFault) -> bool {
    match fault {
        RowFault::Tags => err is DataFormat,
        RowFault::Instant => err is Time,
    }
}

/// The entry that a row holds. The tags are read first, then the instants
/// of the first and the latest write, then the expiry.
pub open spec fn decoded(row: RowView) -> Result<EntryView, RowFault> {
    match persisted_tags(row.tags) {
        None => Err(RowFault::Tags),
        Some(tags) => match (rfc3339_instant(row.created_at), rfc3339_instant(row.updated_at)) {
            (Some(created_at), Some(updated_at)) => match row.expires_at {
                None => Ok(
                    EntryView { value: row.value, tags, created_at, updated_at, expires_at: None },
                ),
                Some(text) => match rfc3339_instant(text) {
                    Some(t) => Ok(
                        EntryView {
                            value: row.value,
                            tags,
                            created_at,
                            updated_at,
                            expires_at: Some(t),
                        },
                    ),
                    None => Err(RowFault::Instant),
                },
            },
            _ => Err(RowFault::Instant),
        },
    }
}

/// The row that holds an entry. The tags are written first, then the
/// instants.
pub open spec fn encoded(key: Seq<char>, entry: EntryView) -> Result<RowView, RowFault> {
    match json_of_tags(entry.tags) {
        None => Err(RowFault::Tags),
        Some(tags) => match (rfc3339_text(entry.created_at), rfc3339_text(entry.updated_at)) {
            (Some(created_at), Some(updated_at)) => match entry.expires_at {
                None => Ok(
                    RowView { key, value: entry.value, tags, created_at, updated_at, expires_at: None },
                ),
                Some(t) => match rfc3339_text(t) {
                    Some(text) => Ok(
                        RowView {
                            key,
                            value: entry.value,
                            tags,
                            created_at,
                            updated_at,
                            expires_at: Some(text),
                        },
                    ),
                    None => Err(RowFault::Instant),
                },
            },
            _ => Err(RowFault::Instant),
        },
    }
}

/// The entries that rows hold, in their order; the first row that cannot be
/// read decides the fault.
pub open spec fn decoded_all(rows: Seq<RowView>) -> Result<Listing, RowFault>
    decreases rows.len(),
{
    if rows.len() == 0 {
        Ok(Seq::empty())
    } else {
        match decoded_all(rows.drop_last()) {
            Err(fault) => Err(fault),
            Ok(before) => match decoded(rows.last()) {
                Ok(entry) => Ok(before.push((rows.last().key, entry))),
                Err(fault) => Err(fault),
            },
        }
    }
}

/// The rows that hold entries, in their order; the first entry that cannot
/// be written decides the fault.
pub open spec fn encoded_all(entries: Listing) -> Result<Seq<RowView>, RowFault>
    decreases entries.len(),
{
    if entries.len() == 0 {
        Ok(Seq::empty())
    } else {
        match encoded_all(entries.drop_last()) {
            Err(fault) => Err(fault),
            Ok(before) => match encoded(entries.last().0, entries.last().1) {
                Ok(row) => Ok(before.push(row)),
                Err(fault) => Err(fault),
            },
        }
    }
}

/// The models of a list of rows.
pub open spec fn rows_view(rows: Seq<Row>) -> Seq<RowView> {
    Seq::new(rows.len(), |i: int| rows[i]@)
}

/// The error for an instant that has no RFC 3339 text.
fn unrepresentable() -> (err: KvError)
    ensures
        err is Time,
{
    KvError::Time(String::from_str("instant out of range"))
}

/// Writes an instant as RFC 3339 text.
pub fn instant_text(t: Timestamp) -> (r: Result<String, KvError>)
    ensures
        match r {
            Ok(text) => rfc3339_text(t) == Some(text@),
            Err(err) => rfc3339_text(t) is None && err is Time,
        },
{
    match format_rfc3339(t) {
        Some(text) => Ok(text),
        None => Err(unrepresentable()),
    }
}

/// Reads an instant from RFC 3339 text.
pub fn instant_of_text(text: &str) -> (r: Result<Timestamp, KvError>)
    ensures
        match r {
            Ok(t) => rfc3339_instant(text@) == Some(t),
            Err(err) => rfc3339_instant(text@) is None && err is Time,
        },
{
    match parse_rfc3339(text) {
        Ok(t) => Ok(t),
        Err(e) => Err(KvError::Time(parse_error_text(&e))),
    }
}

/// Lays an entry out as the row of `key`.
pub fn row_from_entry(key: &str, entry: &Entry) -> (r: Result<Row, KvError>)
    ensures
        match (r, encoded(key@, entry@)) {
            (Ok(row), Ok(expected)) => row@ == expected,
            (Err(err), Err(fault)) => reports(err, fault),
            _ => false,
        },
{
    let tags = entry.tags_json()?;
    let created_at = instant_text(entry.created_at())?;
    let updated_at = instant_text(entry.updated_at())?;
    let expires_at = match entry.expires_at() {
        Some(t) => Some(instant_text(t)?),
        None => None,
    };
    Ok(
        Row {
            key: String::from_str(key),
            value: String::from_str(entry.value()),
            tags,
            created_at,
            updated_at,
            expires_at,
        },
    )
}

/// Reads the key and the entry that a row holds.
pub fn entry_from_row(row: &Row) -> (r: Result<(String, Entry), KvError>)
    ensures
        match (r, decoded(row@)) {
            (Ok(pair), Ok(expected)) => pair.0@ == row@.key && pair.1@ == expected,
            (Err(err), Err(fault)) => reports(err, fault),
            _ => false,
        },
{
    let entry = Entry::from_persisted(
        row.value.clone(),
        row.tags.as_str(),
        row.created_at.as_str(),
        row.updated_at.as_str(),
    )?;
    let expires_at = match &row.expires_at {
        Some(text) => Some(instant_of_text(text.as_str())?),
        None => None,
    };
    Ok((row.key.clone(), entry.with_expiry(expires_at)))
}

/// Reads the entries of all rows, in the rows' order.
pub fn entries_from_rows(rows: &Vec<Row>) -> (r: Result<Vec<(String, Entry)>, KvError>)
    ensures
        match (r, decoded_all(rows_view(rows@))) {
            (Ok(entries), Ok(expected)) => pairs_view(entries@) == expected,
            (Err(err), Err(fault)) => reports(err, fault),
            _ => false,
        },
{
    let mut entries: Vec<(String, Entry)> = Vec::new();
    let mut i: usize = 0;
    assert(rows_view(rows@).take(0) =~= Seq::<RowView>::empty());
    assert(pairs_view(entries@) =~= Seq::empty());
    while i < rows.len()
        invariant
            i <= rows.len(),
            decoded_all(rows_view(rows@).take(i as int)) == Ok::<Listing, RowFault>(pairs_view(entries@)),
        decreases rows.len() - i,
    {
        let ghost upto = rows_view(rows@).take(i + 1);
        let ghost before = pairs_view(entries@);
        proof {
            assert(upto.drop_last() =~= rows_view(rows@).take(i as int));
            assert(upto.last() == rows@[i as int]@);
        }
        match entry_from_row(&rows[i]) {
            Ok(pair) => {
                entries.push(pair);
                assert(pairs_view(entries@) =~= before.push((pair.0@, pair.1@)));
            },
            Err(err) => {
                proof {
                    lemma_decoded_prefix(rows_view(rows@), i + 1);
                }
                return Err(err);
            },
        }
        i = i + 1;
    }
    assert(rows_view(rows@).take(rows.len() as int) =~= rows_view(rows@));
    Ok(entries)
}

/// Lays all entries out as rows, in the entries' order.
pub fn rows_from_entries(entries: &Vec<(String, Entry)>) -> (r: Result<Vec<Row>, KvError>)
    ensures
        match (r, encoded_all(pairs_view(entries@))) {
            (Ok(rows), Ok(expected)) => rows_view(rows@) == expected,
            (Err(err), Err(fault)) => reports(err, fault),
            _ => false,
        },
{
    let mut rows: Vec<Row> = Vec::new();
    let mut i: usize = 0;
    assert(pairs_view(entries@).take(0) =~= Seq::empty());
    assert(rows_view(rows@) =~= Seq::<RowView>::empty());
    while i < entries.len()
        invariant
            i <= entries.len(),
            encoded_all(pairs_view(entries@).take(i as int)) == Ok::<Seq<RowView>, RowFault>(
                rows_view(rows@),
            ),
        decreases entries.len() - i,
    {
        let ghost upto = pairs_view(entries@).take(i + 1);
        let ghost before = rows_view(rows@);
        proof {
            assert(upto.drop_last() =~= pairs_view(entries@).take(i as int));
            assert(upto.last() == (entries@[i as int].0@, entries@[i as int].1@));
        }
        match row_from_entry(entries[i].0.as_str(), &entries[i].1) {
            Ok(row) => {
                rows.push(row);
                assert(rows_view(rows@) =~= before.push(row@));
            },
            Err(err) => {
                proof {
                    lemma_encoded_prefix(pairs_view(entries@), i + 1);
                }
                return Err(err);
            },
        }
        i = i + 1;
    }
    assert(pairs_view(entries@).take(entries.len() as int) =~= pairs_view(entries@));
    Ok(rows)
}

/// A fault among the first rows is the fault of all the rows.
proof fn lemma_decoded_prefix(rows: Seq<RowView>, n: int)
    requires
        0 <= n <= rows.len(),
        decoded_all(rows.take(n)) is Err,
    ensures
        decoded_all(rows) == decoded_all(rows.take(n)),
    decreases rows.len(),
{
    if n < rows.len() {
        assert(rows.drop_last().take(n) =~= rows.take(n));
        lemma_decoded_prefix(rows.drop_last(), n);
    } else {
        assert(rows.take(n) =~= rows);
    }
}

/// A fault among the first entries is the fault of all the entries.
proof fn lemma_encoded_prefix(entries: Listing, n: int)
    requires
        0 <= n <= entries.len(),
        encoded_all(entries.take(n)) is Err,
    ensures
        encoded_all(entries) == encoded_all(entries.take(n)),
    decreases entries.len(),
{
    if n < entries.len() {
        assert(entries.drop_last().take(n) =~= entries.take(n));
        lemma_encoded_prefix(entries.drop_last(), n);
    } else {
        assert(entries.take(n) =~= entries);
    }
}

/// What opening a database file calls for.
#[derive(Debug, Copy, Clone, PartialEq, Eq, Structural)]
pub enum SchemaAction {
    /// The file is new: create the table and stamp the version.
    Create,
    /// The file carries the current schema: nothing to write.
    Ready,
}

/// What the stored version and the presence of the table call for: the
/// current version is accepted; version 0 without a table is a new file;
/// anything else is refused.
pub open spec fn schema_decision(user_version: int, has_table: bool) -> Option<SchemaAction> {
    if user_version == SCHEMA_VERSION {
        Some(SchemaAction::Ready)
    } else if user_version == 0 && !has_table {
        Some(SchemaAction::Create)
    } else {
        None
    }
}

/// Decides what to do with a database file from its stored version and
/// whether it already has the table. A refused file is reported with its
/// version, and nothing is to be written to it.
pub fn schema_action(user_version: i64, has_table: bool) -> (r: Result<SchemaAction, KvError>)
    ensures
        match r {
            Ok(action) => schema_decision(user_version as int, has_table) == Some(action),
            Err(err) => schema_decision(user_version as int, has_table) is None && err@
                == crate::KvErrorView::Schema(user_version as int),
        },
{
    if user_version == SCHEMA_VERSION {
        Ok(SchemaAction::Ready)
    } else if user_version == 0 && !has_table {
        Ok(SchemaAction::Create)
    } else {
        Err(KvError::Schema(user_version))
    }
}

/// What a delete amounts to, from the number of rows it removed: a delete
/// that removed nothing reports the key as not found.
pub fn delete_outcome(key: &str, affected: usize) -> (r: Result<(), KvError>)
    ensures
        match r {
            Ok(_) => affected > 0,
            Err(err) => affected == 0 && err@ == crate::KvErrorView::NotFound(key@),
        },
{
    if affected == 0 {
        Err(KvError::NotFound(String::from_str(key)))
    } else {
        Ok(())
    }
}

/// Whether an entry with this expiry is removed by a sweep at `now`: it has
/// an expiry, and that lies at least the grace window before `now`.
pub open spec fn sweepable(expires_at: Option<Timestamp>, now: Timestamp) -> bool {
    match expires_at {
        Some(t) => match now.shifted(-SWEEP_GRACE_SECS) {
            Some(cutoff) => t.at_or_before(cutoff),
            None => false,
        },
        None => false,
    }
}

/// Whether an entry is logically dead at `now`: it has an expiry that is
/// not later than `now`.
pub open spec fn expired(expires_at: Option<Timestamp>, now: Timestamp) -> bool {
    match expires_at {
        Some(t) => t.at_or_before(now),
        None => false,
    }
}

/// Whether a sweep at `now` removes an entry with this expiry.
pub fn is_sweepable(expires_at: Option<Timestamp>, now: Timestamp) -> (r: bool)
    ensures
        r == sweepable(expires_at, now),
{
    match expires_at {
        Some(t) => match now.plus_seconds(-SWEEP_GRACE_SECS) {
            Some(cutoff) => t.is_at_or_before(&cutoff),
            None => false,
        },
        None => false,
    }
}

/// Whether an entry with this expiry is dead at `now`.
pub fn is_expired(expires_at: Option<Timestamp>, now: Timestamp) -> (r: bool)
    ensures
        r == expired(expires_at, now),
{
    match expires_at {
        Some(t) => t.is_at_or_before(&now),
        None => false,
    }
}

/// The keys that a sweep at `now` removes, in the listing's order.
pub open spec fn swept_keys(entries: Listing, now: Timestamp) -> Seq<Seq<char>>
    decreases entries.len(),
{
    if entries.len() == 0 {
        Seq::empty()
    } else if sweepable(entries.last().1.expires_at, now) {
        swept_keys(entries.drop_last(), now).push(entries.last().0)
    } else {
        swept_keys(entries.drop_last(), now)
    }
}

/// The keys that a sweep at `now` has to delete.
pub fn expired_keys(entries: &Vec<(String, Entry)>, now: Timestamp) -> (keys: Vec<String>)
    ensures
        strs(keys@) == swept_keys(pairs_view(entries@), now),
{
    let mut keys: Vec<String> = Vec::new();
    let mut i: usize = 0;
    assert(pairs_view(entries@).take(0) =~= Seq::empty());
    assert(strs(keys@) =~= Seq::<Seq<char>>::empty());
    while i < entries.len()
        invariant
            i <= entries.len(),
            strs(keys@) == swept_keys(pairs_view(entries@).take(i as int), now),
        decreases entries.len() - i,
    {
        let ghost upto = pairs_view(entries@).take(i + 1);
        let ghost before = strs(keys@);
        proof {
            assert(upto.drop_last() =~= pairs_view(entries@).take(i as int));
            assert(upto.last() == (entries@[i as int].0@, entries@[i as int].1@));
        }
        if is_sweepable(entries[i].1.expires_at(), now) {
            keys.push(entries[i].0.clone());
            assert(strs(keys@) =~= before.push(entries@[i as int].0@));
        }
        i = i + 1;
    }
    assert(pairs_view(entries@).take(entries.len() as int) =~= pairs_view(entries@));
    keys
}

/// A sweep only removes what is dead, and never an entry without expiry.
pub proof fn lemma_sweep_only_expired(expires_at: Option<Timestamp>, now: Timestamp)
    requires
        sweepable(expires_at, now),
    ensures
        expired(expires_at, now),
        expires_at is Some,
{
}

/// An entry whose life was just extended survives a sweep: an expiry that
/// lies a positive number of minutes after `now` is not swept at `now`.
pub proof fn lemma_extended_survives(now: Timestamp, minutes: int)
    requires
        minutes > 0,
        now.after_minutes(minutes) is Some,
    ensures
        !sweepable(now.after_minutes(minutes), now),
        !expired(now.after_minutes(minutes), now),
{
}

/// Once the grace window after the expiry has passed, a sweep removes the
/// entry, and every later sweep would too.
pub proof fn lemma_sweep_after_expiry(t: Timestamp, now: Timestamp)
    requires
        t.secs + SWEEP_GRACE_SECS < now.secs,
    ensures
        sweepable(Some(t), now),
{
}

/// An entry comes back from its row as far as the two codecs give back
/// what they wrote: where the row's tags text reads as the entry's tags,
/// and the text of each instant as that instant, the row holds the entry.
pub proof fn lemma_row_round_trip(key: Seq<char>, entry: EntryView)
    requires
        encoded(key, entry) is Ok,
        persisted_tags(encoded(key, entry)->Ok_0.tags) == Some(entry.tags),
        rfc3339_instant(encoded(key, entry)->Ok_0.created_at) == Some(entry.created_at),
        rfc3339_instant(encoded(key, entry)->Ok_0.updated_at) == Some(entry.updated_at),
        entry.expires_at is Some ==> rfc3339_instant(encoded(key, entry)->Ok_0.expires_at->Some_0)
            == entry.expires_at,
    ensures
        encoded(key, entry)->Ok_0.key == key,
        decoded(encoded(key, entry)->Ok_0) == Ok::<EntryView, RowFault>(entry),
{
}

} // verus!
