use kvstore::api::{
    has_tag, plan_delete, plan_tag_add, plan_tag_delete, plan_tag_remove, plan_tag_rename,
    plan_ttl_extend, plan_upsert, remove_tag, sweep_due, KeyPayload, Plan, RenamePayload,
    TagNamePayload, TagPayload, TtlPayload, UpsertPayload, SWEEP_INTERVAL_SECS,
};
use kvstore::commands::export_records;
use kvstore::db::{entries_from_rows, expired_keys, rows_from_entries, SWEEP_GRACE_SECS};
use kvstore::http::{read_line, route, Method, Progress, Reader, Response, Route};
use kvstore::store::{Entry, Mutation, Store};
use kvstore::time::Timestamp;
use kvstore::KvError;

fn strings(items: &[&str]) -> Vec<String> {
    items.iter().map(|s| s.to_string()).collect()
}

fn at(secs: i64) -> Timestamp {
    Timestamp::new(secs, 0)
}

fn entry(value: &str, tags: &[&str]) -> Entry {
    Entry::with_timestamps(value.to_string(), strings(tags), at(100), at(200))
}

fn snapshot(pairs: Vec<(&str, Entry)>) -> Store {
    Store::from_entries(pairs.into_iter().map(|(k, e)| (k.to_string(), e)).collect())
}

fn upsert(key: &str, value: &str, tags: Option<&[&str]>, ttl: Option<i64>) -> UpsertPayload {
    UpsertPayload { key: key.to_string(), value: value.to_string(), tags: tags.map(strings), ttl_minutes: ttl }
}

fn tag(key: &str, tag: &str) -> TagPayload {
    TagPayload { key: key.to_string(), tag: tag.to_string() }
}

fn upserted(plan: Plan) -> (String, Entry, String) {
    match plan.change {
        Mutation::Upsert { key, entry } => (key, entry, plan.message),
        other => panic!("unexpected: {:?}", other),
    }
}

fn replaced(plan: Plan) -> (Vec<(String, Entry)>, String) {
    match plan.change {
        Mutation::ReplaceAll { entries } => (entries, plan.message),
        other => panic!("unexpected: {:?}", other),
    }
}

fn invalid(r: Result<Plan, KvError>) -> String {
    match r {
        Err(KvError::InvalidInput(message)) => message,
        other => panic!("unexpected: {:?}", other),
    }
}

fn not_found(r: Result<Plan, KvError>) -> String {
    match r {
        Err(KvError::NotFound(what)) => what,
        other => panic!("unexpected: {:?}", other),
    }
}

#[test]
fn upsert_of_a_new_key() {
    let (key, e, message) = upserted(plan_upsert(&Store::new(), upsert("x", "1", Some(&[" b ", "a"]), None), at(500)).unwrap());
    assert_eq!(key, "x");
    assert_eq!(message, "Stored 'x'.");
    assert_eq!(e.value(), "1");
    assert_eq!(e.tags().to_vec(), strings(&["a", "b"]));
    assert_eq!(e.created_at(), at(500));
    assert_eq!(e.updated_at(), at(500));
    assert_eq!(e.expires_at(), None);
}

#[test]
fn upsert_of_an_old_key_keeps_created_at_tags_and_expiry() {
    let store = snapshot(vec![("x", entry("1", &["t"]).with_expiry(Some(at(900))))]);
    let (_, e, _) = upserted(plan_upsert(&store, upsert("x", "2", None, None), at(500)).unwrap());
    assert_eq!(e.value(), "2");
    assert_eq!(e.tags().to_vec(), strings(&["t"]));
    assert_eq!(e.created_at(), at(100));
    assert_eq!(e.updated_at(), at(500));
    assert_eq!(e.expires_at(), Some(at(900)));
    let (_, e, _) = upserted(plan_upsert(&store, upsert("x", "2", Some(&[]), Some(10)), at(500)).unwrap());
    assert!(e.tags().is_empty());
    assert_eq!(e.expires_at(), Some(at(1_100)));
    assert_eq!(e.created_at(), at(100));
}

#[test]
fn upsert_validates_its_payload() {
    let store = Store::new();
    assert_eq!(invalid(plan_upsert(&store, upsert("", "1", None, None), at(500))), "key must not be empty");
    assert_eq!(invalid(plan_upsert(&store, upsert("x", "1", None, Some(0)), at(500))), "ttl_minutes must be positive");
    assert_eq!(invalid(plan_upsert(&store, upsert("x", "1", None, Some(-5)), at(500))), "ttl_minutes must be positive");
    assert_eq!(invalid(plan_upsert(&store, upsert("x", "1", None, Some(i64::MAX)), at(500))), "ttl_minutes is too large");
    assert_eq!(invalid(plan_upsert(&store, upsert("", "1", None, Some(0)), at(500))), "key must not be empty");
}

#[test]
fn delete_wants_an_existing_key() {
    let store = snapshot(vec![("x", entry("1", &[]))]);
    let plan = plan_delete(&store, KeyPayload { key: "x".to_string() }).unwrap();
    assert_eq!(plan.message, "Deleted 'x'.");
    assert!(matches!(plan.change, Mutation::Delete { ref key } if key == "x"));
    assert_eq!(not_found(plan_delete(&store, KeyPayload { key: "y".to_string() })), "y");
    assert_eq!(invalid(plan_delete(&store, KeyPayload { key: String::new() })), "key must not be empty");
}

#[test]
fn tag_add_joins_the_tag_to_the_set() {
    let store = snapshot(vec![("x", entry("1", &["b"]).with_expiry(Some(at(900))))]);
    let (key, e, message) = upserted(plan_tag_add(&store, tag("x", "  a "), at(500)).unwrap());
    assert_eq!(key, "x");
    assert_eq!(message, "Tagged 'x' with 'a'.");
    assert_eq!(e.tags().to_vec(), strings(&["a", "b"]));
    assert_eq!(e.value(), "1");
    assert_eq!(e.created_at(), at(100));
    assert_eq!(e.updated_at(), at(500));
    assert_eq!(e.expires_at(), Some(at(900)));
    let (_, e, _) = upserted(plan_tag_add(&store, tag("x", "b"), at(500)).unwrap());
    assert_eq!(e.tags().to_vec(), strings(&["b"]));
}

#[test]
fn tag_add_validates_key_then_tag_then_presence() {
    let store = snapshot(vec![("x", entry("1", &[]))]);
    assert_eq!(invalid(plan_tag_add(&store, tag("", " "), at(500))), "key must not be empty");
    assert_eq!(invalid(plan_tag_add(&store, tag("y", " \t"), at(500))), "tag must not be empty");
    assert_eq!(not_found(plan_tag_add(&store, tag("y", "t"), at(500))), "y");
}

#[test]
fn tag_remove_takes_the_tag_off() {
    let store = snapshot(vec![("x", entry("1", &["a", "b", "c"]))]);
    let (key, e, message) = upserted(plan_tag_remove(&store, tag("x", " b "), at(500)).unwrap());
    assert_eq!(key, "x");
    assert_eq!(message, "Removed tag 'b' from 'x'.");
    assert_eq!(e.tags().to_vec(), strings(&["a", "c"]));
    assert_eq!(e.updated_at(), at(500));
    assert_eq!(e.created_at(), at(100));
}

#[test]
fn tag_remove_reports_what_is_missing() {
    let store = snapshot(vec![("x", entry("1", &["a"]))]);
    assert_eq!(invalid(plan_tag_remove(&store, tag("", "a"), at(500))), "key must not be empty");
    assert_eq!(invalid(plan_tag_remove(&store, tag("x", ""), at(500))), "tag must not be empty");
    assert_eq!(not_found(plan_tag_remove(&store, tag("y", "a"), at(500))), "y");
    assert_eq!(not_found(plan_tag_remove(&store, tag("x", " z "), at(500))), "z");
}

#[test]
fn ttl_extend_sets_the_expiry_from_now() {
    let store = snapshot(vec![("x", entry("1", &["t"]).with_expiry(Some(at(150))))]);
    let (key, e, message) = upserted(
        plan_ttl_extend(&store, TtlPayload { key: "x".to_string(), ttl_minutes: 5 }, at(1_000)).unwrap(),
    );
    assert_eq!(key, "x");
    assert_eq!(message, "Extended 'x' by 5 minutes.");
    assert_eq!(e.expires_at(), Some(at(1_300)));
    assert_eq!(e.updated_at(), at(1_000));
    assert_eq!(e.created_at(), at(100));
    assert_eq!(e.value(), "1");
    assert_eq!(e.tags().to_vec(), strings(&["t"]));
}

#[test]
fn ttl_extend_validates_its_payload() {
    let store = snapshot(vec![("x", entry("1", &[]))]);
    let ttl = |key: &str, m: i64| TtlPayload { key: key.to_string(), ttl_minutes: m };
    assert_eq!(invalid(plan_ttl_extend(&store, ttl("", 5), at(0))), "key must not be empty");
    assert_eq!(invalid(plan_ttl_extend(&store, ttl("x", 0), at(0))), "ttl_minutes must be positive");
    assert_eq!(invalid(plan_ttl_extend(&store, ttl("y", -1), at(0))), "ttl_minutes must be positive");
    assert_eq!(not_found(plan_ttl_extend(&store, ttl("y", 5), at(0))), "y");
    assert_eq!(invalid(plan_ttl_extend(&store, ttl("x", i64::MAX / 60), at(1_000))), "ttl_minutes is too large");
}

#[test]
fn has_tag_and_remove_tag() {
    let tags = strings(&["a", "b", "a"]);
    assert!(has_tag(&tags, "a"));
    assert!(!has_tag(&tags, "c"));
    assert_eq!(remove_tag(&tags, "a"), strings(&["b"]));
    assert_eq!(remove_tag(&tags, "c"), tags);
}

#[test]
fn tag_rename_rewrites_every_entry_that_has_the_tag() {
    let store = snapshot(vec![
        ("a", entry("1", &["old", "z"])),
        ("b", entry("2", &["keep"])),
        ("c", entry("3", &["new", "old"])),
    ]);
    let (entries, message) = replaced(
        plan_tag_rename(&store, RenamePayload { from: " old ".to_string(), to: "new".to_string() }, at(500)).unwrap(),
    );
    assert_eq!(message, "Renamed tag 'old' to 'new' in 2 entries.");
    assert_eq!(entries.len(), 3);
    assert_eq!(entries[0].0, "a");
    assert_eq!(entries[0].1.tags().to_vec(), strings(&["new", "z"]));
    assert_eq!(entries[0].1.updated_at(), at(500));
    assert_eq!(entries[0].1.created_at(), at(100));
    assert_eq!(entries[1].0, "b");
    assert_eq!(entries[1].1.tags().to_vec(), strings(&["keep"]));
    assert_eq!(entries[1].1.updated_at(), at(200));
    assert_eq!(entries[2].1.tags().to_vec(), strings(&["new"]));
    assert_eq!(entries[2].1.value(), "3");
}

#[test]
fn tag_rename_fails_where_nothing_is_affected() {
    let store = snapshot(vec![("a", entry("1", &["x"]))]);
    let rename = |from: &str, to: &str| RenamePayload { from: from.to_string(), to: to.to_string() };
    assert_eq!(not_found(plan_tag_rename(&store, rename("old", "new"), at(500))), "old");
    assert_eq!(not_found(plan_tag_rename(&Store::new(), rename("old", "new"), at(500))), "old");
    assert_eq!(invalid(plan_tag_rename(&store, rename(" ", "new"), at(500))), "tag must not be empty");
    assert_eq!(invalid(plan_tag_rename(&store, rename("x", ""), at(500))), "tag must not be empty");
}

#[test]
fn tag_delete_takes_the_tag_off_every_entry() {
    let store = snapshot(vec![("a", entry("1", &["old", "z"])), ("b", entry("2", &["keep"])), ("c", entry("3", &["old"]))]);
    let (entries, message) = replaced(plan_tag_delete(&store, TagNamePayload { tag: "old".to_string() }, at(500)).unwrap());
    assert_eq!(message, "Deleted tag 'old' from 2 entries.");
    assert_eq!(entries[0].1.tags().to_vec(), strings(&["z"]));
    assert_eq!(entries[1].1.tags().to_vec(), strings(&["keep"]));
    assert!(entries[2].1.tags().is_empty());
    assert_eq!(entries[2].1.updated_at(), at(500));
    assert_eq!(not_found(plan_tag_delete(&store, TagNamePayload { tag: "nope".to_string() }, at(500))), "nope");
    assert_eq!(invalid(plan_tag_delete(&store, TagNamePayload { tag: "  ".to_string() }, at(500))), "tag must not be empty");
}

#[test]
fn sweep_is_due_after_the_interval() {
    assert!(sweep_due(None, at(0)));
    assert!(!sweep_due(Some(at(1_000)), at(1_000)));
    assert!(!sweep_due(Some(at(1_000)), at(1_000 + SWEEP_INTERVAL_SECS - 1)));
    assert!(sweep_due(Some(at(1_000)), at(1_000 + SWEEP_INTERVAL_SECS)));
    assert!(!sweep_due(Some(at(1_000)), at(0)));
    assert!(sweep_due(Some(at(i64::MIN)), at(i64::MAX)));
    assert!(!sweep_due(Some(at(i64::MAX)), at(i64::MIN)));
}

/// A durable store that keeps rows in memory, as the gateway's handlers see one.
struct Table {
    rows: Vec<kvstore::db::Row>,
}

impl Table {
    fn load_all(&self) -> Store {
        Store::from_entries(entries_from_rows(&self.rows).unwrap())
    }

    fn commit(&mut self, change: Mutation) {
        let mut store = self.load_all();
        store.apply(change);
        let entries: Vec<(String, Entry)> = store.ordered().into_iter().map(|(k, e)| (k.clone(), e.clone())).collect();
        self.rows = rows_from_entries(&entries).unwrap();
    }

    fn sweep(&mut self, now: Timestamp) -> usize {
        let entries = entries_from_rows(&self.rows).unwrap();
        let dead = expired_keys(&entries, now);
        for key in &dead {
            self.commit(Mutation::Delete { key: key.clone() });
        }
        dead.len()
    }
}

fn request(lines: &[&str]) -> Route {
    let mut reader = Reader::RequestLine;
    for line in lines {
        match read_line(reader, line).unwrap() {
            Progress::Continue(next) => reader = next,
            Progress::Complete(head) => return route(head.method, &head.path),
        }
    }
    panic!("incomplete head");
}

#[test]
fn end_to_end_upsert_extend_and_sweep() {
    let mut table = Table { rows: Vec::new() };
    let t0 = at(1_700_000_000);

    assert_eq!(request(&["POST /api/records/upsert HTTP/1.1\r\n", "Content-Length: 25\r\n", "\r\n"]), Route::Upsert);
    let outcome = plan_upsert(&table.load_all(), upsert("x", "1", None, None), t0).map(|plan| {
        table.commit(plan.change);
        plan.message
    });
    assert_eq!(Response::for_outcome(&outcome).status, 200);

    assert_eq!(request(&["GET /data HTTP/1.1\r\n", "\r\n"]), Route::Data);
    let records = export_records(&table.load_all()).unwrap();
    assert_eq!(records.len(), 1);
    assert_eq!(records[0].0, "x");
    assert_eq!(records[0].1.value, "1");

    assert_eq!(request(&["POST /api/records/ttl/extend HTTP/1.1\r\n", "\r\n"]), Route::TtlExtend);
    let plan = plan_ttl_extend(&table.load_all(), TtlPayload { key: "x".to_string(), ttl_minutes: 5 }, t0).unwrap();
    table.commit(plan.change);
    assert_eq!(table.sweep(t0), 0);
    assert_eq!(export_records(&table.load_all()).unwrap().len(), 1);
    assert_eq!(table.sweep(at(t0.secs + 299)), 0);

    let later = at(t0.secs + 300 + SWEEP_GRACE_SECS);
    assert_eq!(table.sweep(later), 1);
    assert!(export_records(&table.load_all()).unwrap().is_empty());
    assert_eq!(table.sweep(later), 0);
}

#[test]
fn a_failed_plan_changes_nothing() {
    let mut table = Table { rows: Vec::new() };
    table.commit(Mutation::Upsert { key: "x".to_string(), entry: entry("1", &[]) });
    let outcome = plan_delete(&table.load_all(), KeyPayload { key: "y".to_string() }).map(|plan| {
        table.commit(plan.change);
        plan.message
    });
    let response = Response::for_outcome(&outcome);
    assert_eq!(response.status, 404);
    assert_eq!(response.body, "key not found: y");
    assert_eq!(table.load_all().len(), 1);
    assert_eq!(request(&["GET /nowhere HTTP/1.1\r\n", "\r\n"]), Route::Unknown);
    assert_eq!(request(&["PUT /data HTTP/1.1\r\n", "\r\n"]), Route::Unknown);
    let _ = Method::Get;
}
