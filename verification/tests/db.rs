use kvstore::db::{
    delete_outcome, entries_from_rows, entry_from_row, expired_keys, instant_of_text, instant_text,
    is_expired, is_sweepable, row_from_entry, rows_from_entries, schema_action, Row, SchemaAction,
    SCHEMA_VERSION, SWEEP_GRACE_SECS,
};
use kvstore::store::Entry;
use kvstore::time::Timestamp;
use kvstore::KvError;

fn strings(items: &[&str]) -> Vec<String> {
    items.iter().map(|s| s.to_string()).collect()
}

fn at(secs: i64) -> Timestamp {
    Timestamp::new(secs, 0)
}

fn entry(value: &str, tags: &[&str]) -> Entry {
    Entry::with_timestamps(value.to_string(), strings(tags), at(1_704_164_645), Timestamp::new(1_704_164_646, 250_000_000))
}

fn row(key: &str, tags: &str, created: &str, updated: &str, expires: Option<&str>) -> Row {
    Row {
        key: key.to_string(),
        value: "v".to_string(),
        tags: tags.to_string(),
        created_at: created.to_string(),
        updated_at: updated.to_string(),
        expires_at: expires.map(|s| s.to_string()),
    }
}

const T0: &str = "2024-01-02T03:04:05+00:00";

#[test]
fn instant_text_is_rfc3339_in_utc() {
    assert_eq!(instant_text(at(0)).unwrap(), "1970-01-01T00:00:00+00:00");
    assert_eq!(instant_text(at(1_704_164_645)).unwrap(), T0);
    assert_eq!(instant_text(Timestamp::new(1_704_164_645, 500_000_000)).unwrap(), "2024-01-02T03:04:05.500+00:00");
    assert_eq!(instant_text(Timestamp::new(1_704_164_645, 1)).unwrap(), "2024-01-02T03:04:05.000000001+00:00");
}

#[test]
fn instant_text_refuses_what_has_no_date() {
    assert!(matches!(instant_text(at(i64::MAX)), Err(KvError::Time(_))));
    assert!(matches!(instant_text(Timestamp::new(0, 2_000_000_000)), Err(KvError::Time(_))));
}

#[test]
fn instant_of_text_reads_any_offset() {
    assert_eq!(instant_of_text("1970-01-01T00:00:00Z").unwrap(), at(0));
    assert_eq!(instant_of_text("2024-01-02T05:04:05+02:00").unwrap(), at(1_704_164_645));
    assert_eq!(instant_of_text("2024-01-02T03:04:05.25Z").unwrap(), Timestamp::new(1_704_164_645, 250_000_000));
    assert!(matches!(instant_of_text("2024-01-02"), Err(KvError::Time(_))));
    assert!(matches!(instant_of_text(""), Err(KvError::Time(_))));
}

#[test]
fn instants_round_trip_through_text() {
    for t in [at(0), at(-1), at(1_704_164_645), Timestamp::new(1_704_164_645, 123_456_789), Timestamp::new(253_402_300_799, 999_999_999)] {
        assert_eq!(instant_of_text(&instant_text(t).unwrap()).unwrap(), t);
    }
}

#[test]
fn row_from_entry_lays_out_every_column() {
    let r = row_from_entry("k", &entry("hello", &["a", "b"]).with_expiry(Some(at(1_704_164_700)))).unwrap();
    assert_eq!(r.key, "k");
    assert_eq!(r.value, "hello");
    assert_eq!(r.tags, "[\"a\",\"b\"]");
    assert_eq!(r.created_at, T0);
    assert_eq!(r.updated_at, "2024-01-02T03:04:06.250+00:00");
    assert_eq!(r.expires_at.as_deref(), Some("2024-01-02T03:05:00+00:00"));
    let plain = row_from_entry("k", &entry("hello", &[])).unwrap();
    assert_eq!(plain.tags, "[]");
    assert_eq!(plain.expires_at, None);
}

#[test]
fn row_from_entry_reports_an_instant_out_of_range() {
    let bad = Entry::with_timestamps("v".to_string(), Vec::new(), at(i64::MAX), at(0));
    assert!(matches!(row_from_entry("k", &bad), Err(KvError::Time(_))));
    let bad_expiry = entry("v", &[]).with_expiry(Some(at(i64::MIN)));
    assert!(matches!(row_from_entry("k", &bad_expiry), Err(KvError::Time(_))));
}

#[test]
fn entry_from_row_reads_every_column() {
    let (key, e) = entry_from_row(&row("k", "[\"x\"]", T0, "2024-01-02T03:04:06Z", Some("2024-01-02T03:05:00Z"))).unwrap();
    assert_eq!(key, "k");
    assert_eq!(e.value(), "v");
    assert_eq!(e.tags().to_vec(), strings(&["x"]));
    assert_eq!(e.created_at(), at(1_704_164_645));
    assert_eq!(e.updated_at(), at(1_704_164_646));
    assert_eq!(e.expires_at(), Some(at(1_704_164_700)));
}

#[test]
fn entry_from_row_reports_each_fault() {
    assert!(matches!(entry_from_row(&row("k", "nope", "bad", "bad", None)), Err(KvError::DataFormat(_))));
    assert!(matches!(entry_from_row(&row("k", "[1]", T0, T0, None)), Err(KvError::DataFormat(_))));
    assert!(matches!(entry_from_row(&row("k", "[]", "bad", T0, None)), Err(KvError::Time(_))));
    assert!(matches!(entry_from_row(&row("k", "[]", T0, "bad", None)), Err(KvError::Time(_))));
    assert!(matches!(entry_from_row(&row("k", "[]", T0, T0, Some("bad"))), Err(KvError::Time(_))));
}

#[test]
fn an_entry_comes_back_from_its_row() {
    let original = Entry::with_timestamps(
        "some \"value\"\nwith lines".to_string(),
        strings(&["@work", "tag with space", "é\\"]),
        Timestamp::new(1_704_164_645, 123_456_789),
        Timestamp::new(1_704_164_999, 0),
    )
    .with_expiry(Some(at(1_800_000_000)));
    let r = row_from_entry("the key", &original).unwrap();
    let (key, back) = entry_from_row(&r).unwrap();
    assert_eq!(key, "the key");
    assert_eq!(back.value(), original.value());
    assert_eq!(back.tags(), original.tags());
    assert_eq!(back.created_at(), original.created_at());
    assert_eq!(back.updated_at(), original.updated_at());
    assert_eq!(back.expires_at(), original.expires_at());
}

#[test]
fn entries_from_rows_keeps_the_order_and_stops_at_the_first_fault() {
    let rows = vec![row("b", "[]", T0, T0, None), row("a", "[\"t\"]", T0, T0, None)];
    let entries = entries_from_rows(&rows).unwrap();
    assert_eq!(entries.len(), 2);
    assert_eq!(entries[0].0, "b");
    assert_eq!(entries[1].0, "a");
    assert_eq!(entries[1].1.tags().to_vec(), strings(&["t"]));
    assert!(entries_from_rows(&Vec::new()).unwrap().is_empty());
    let faulty = vec![row("a", "[]", T0, T0, None), row("b", "[]", "bad", T0, None), row("c", "nope", T0, T0, None)];
    assert!(matches!(entries_from_rows(&faulty), Err(KvError::Time(_))));
}

#[test]
fn rows_from_entries_keeps_the_order() {
    let entries = vec![("b".to_string(), entry("1", &[])), ("a".to_string(), entry("2", &["t"]))];
    let rows = rows_from_entries(&entries).unwrap();
    assert_eq!(rows.len(), 2);
    assert_eq!(rows[0].key, "b");
    assert_eq!(rows[0].value, "1");
    assert_eq!(rows[1].key, "a");
    assert_eq!(rows[1].tags, "[\"t\"]");
    let bad = vec![("a".to_string(), entry("1", &[])), ("b".to_string(), Entry::with_timestamps("v".to_string(), Vec::new(), at(i64::MAX), at(0)))];
    assert!(matches!(rows_from_entries(&bad), Err(KvError::Time(_))));
}

#[test]
fn schema_of_a_new_file_is_created() {
    assert_eq!(schema_action(0, false).unwrap(), SchemaAction::Create);
}

#[test]
fn schema_of_the_current_version_is_ready() {
    assert_eq!(schema_action(SCHEMA_VERSION, true).unwrap(), SchemaAction::Ready);
    assert_eq!(schema_action(SCHEMA_VERSION, false).unwrap(), SchemaAction::Ready);
}

#[test]
fn schema_version_99_is_refused() {
    for has_table in [false, true] {
        match schema_action(99, has_table) {
            Err(KvError::Schema(found)) => assert_eq!(found, 99),
            other => panic!("unexpected: {:?}", other),
        }
    }
}

#[test]
fn schema_of_an_unversioned_table_is_refused() {
    assert!(matches!(schema_action(0, true), Err(KvError::Schema(0))));
    assert!(matches!(schema_action(-1, false), Err(KvError::Schema(-1))));
    assert!(matches!(schema_action(2, true), Err(KvError::Schema(2))));
}

#[test]
fn delete_outcome_reports_a_missing_key() {
    assert!(delete_outcome("k", 1).is_ok());
    assert!(delete_outcome("k", 3).is_ok());
    match delete_outcome("k", 0) {
        Err(KvError::NotFound(key)) => assert_eq!(key, "k"),
        other => panic!("unexpected: {:?}", other),
    }
}

#[test]
fn expiry_is_at_or_before_now() {
    assert!(!is_expired(None, at(100)));
    assert!(is_expired(Some(at(100)), at(100)));
    assert!(is_expired(Some(at(99)), at(100)));
    assert!(!is_expired(Some(Timestamp::new(100, 1)), at(100)));
}

#[test]
fn sweep_waits_for_the_grace_window() {
    let now = at(1_000);
    assert!(!is_sweepable(None, now));
    assert!(!is_sweepable(Some(at(1_000)), now));
    assert!(!is_sweepable(Some(at(1_000 - SWEEP_GRACE_SECS + 1)), now));
    assert!(is_sweepable(Some(at(1_000 - SWEEP_GRACE_SECS)), now));
    assert!(is_sweepable(Some(at(0)), now));
    assert!(!is_sweepable(Some(at(i64::MIN)), at(i64::MIN)));
}

#[test]
fn expired_keys_lists_what_a_sweep_deletes() {
    let entries = vec![
        ("a".to_string(), entry("1", &[]).with_expiry(Some(at(10)))),
        ("b".to_string(), entry("2", &[])),
        ("c".to_string(), entry("3", &[]).with_expiry(Some(at(5_000)))),
        ("d".to_string(), entry("4", &[]).with_expiry(Some(at(998)))),
    ];
    assert_eq!(expired_keys(&entries, at(1_000)), strings(&["a", "d"]));
    assert!(expired_keys(&entries, at(0)).is_empty());
    assert_eq!(expired_keys(&entries, at(10_000)), strings(&["a", "c", "d"]));
    assert!(expired_keys(&Vec::new(), at(10_000)).is_empty());
}
