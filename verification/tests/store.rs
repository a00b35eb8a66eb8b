use fuzzy_matcher::skim::SkimMatcherV2;
use fuzzy_matcher::FuzzyMatcher;
use kvstore::history::index_of;
use kvstore::ranking::{
    best_tag, better_score, combined_score, fuzzy_score, rank_scores, MATCH_LIMIT,
};
use kvstore::store::{
    matches_keys, matches_tags, Entry, Mutation, RecentConfig, SearchScope, Store,
};
use kvstore::tags::normalize_tags;
use kvstore::text::clone_strings;
use kvstore::time::Timestamp;
use kvstore::KvError;

fn strings(items: &[&str]) -> Vec<String> {
    items.iter().map(|s| s.to_string()).collect()
}

fn at(secs: i64) -> Timestamp {
    Timestamp::new(secs, 0)
}

fn entry(value: &str, tags: &[&str]) -> Entry {
    Entry::with_timestamps(value.to_string(), strings(tags), at(1_700_000_000), at(1_700_000_100))
}

fn store_of(keys: &[&str]) -> Store {
    Store::from_entries(keys.iter().map(|k| (k.to_string(), entry(k, &[]))).collect())
}

fn keys_of(store: &Store) -> Vec<String> {
    store.ordered().into_iter().map(|(k, _)| k.clone()).collect()
}

#[test]
fn normalize_tags_trims_sorts_and_dedupes() {
    let tags = normalize_tags(strings(&["  beta ", "alpha", "", "   ", "beta", "Alpha"]));
    assert_eq!(tags, strings(&["Alpha", "alpha", "beta"]));
}

#[test]
fn normalize_tags_is_idempotent() {
    let once = normalize_tags(strings(&[" z", "a ", "m", "a", "\tz\n"]));
    let twice = normalize_tags(once.clone());
    assert_eq!(once, twice);
    assert_eq!(once, strings(&["a", "m", "z"]));
}

#[test]
fn normalize_tags_of_the_store_is_the_same() {
    let raw = strings(&[" b", "a ", "b", ""]);
    assert_eq!(Store::normalize_tags(raw.clone()), normalize_tags(raw));
    assert_eq!(Store::normalize_tags(strings(&["y", " x "])), strings(&["x", "y"]));
}

#[test]
fn normalize_tags_of_nothing_is_nothing() {
    assert!(normalize_tags(Vec::new()).is_empty());
    assert!(normalize_tags(strings(&["", " ", "\u{3000}"])).is_empty());
}

#[test]
fn normalize_tags_orders_by_code_point() {
    let tags = normalize_tags(strings(&["b", "a", "B", "é", "ab", "a"]));
    assert_eq!(tags, strings(&["B", "a", "ab", "b", "é"]));
}

#[test]
fn normalize_tags_trims_unicode_whitespace() {
    let tags = normalize_tags(strings(&["\u{a0}x\u{2003}", "\u{200b}y"]));
    assert_eq!(tags, strings(&["x", "\u{200b}y"]));
}

#[test]
fn clone_strings_copies_every_string() {
    let source = strings(&["a", "", "c"]);
    assert_eq!(clone_strings(&source), source);
}

#[test]
fn entry_with_timestamps_keeps_what_it_is_given() {
    let e = entry("hello", &["x", "y"]);
    assert_eq!(e.value(), "hello");
    assert_eq!(e.tags().to_vec(), strings(&["x", "y"]));
    assert_eq!(e.created_at(), at(1_700_000_000));
    assert_eq!(e.updated_at(), at(1_700_000_100));
    assert_eq!(e.expires_at(), None);
}

#[test]
fn entry_new_stamps_one_instant() {
    let e = Entry::new("v".to_string(), strings(&["t"]));
    assert_eq!(e.value(), "v");
    assert_eq!(e.tags().to_vec(), strings(&["t"]));
    assert_eq!(e.created_at(), e.updated_at());
    assert!(e.created_at().secs > 1_600_000_000);
    assert_eq!(e.expires_at(), None);
}

#[test]
fn entry_clone_is_equal_in_every_field() {
    let e = entry("hello", &["x"]).with_expiry(Some(at(5)));
    let c = e.clone();
    assert_eq!(c.value(), e.value());
    assert_eq!(c.tags(), e.tags());
    assert_eq!(c.created_at(), e.created_at());
    assert_eq!(c.updated_at(), e.updated_at());
    assert_eq!(c.expires_at(), Some(at(5)));
}

#[test]
fn entry_with_tags_and_expiry_change_only_that() {
    let e = entry("v", &["a"]).with_tags(strings(&["b"])).with_expiry(Some(at(9)));
    assert_eq!(e.value(), "v");
    assert_eq!(e.tags().to_vec(), strings(&["b"]));
    assert_eq!(e.expires_at(), Some(at(9)));
    assert_eq!(e.created_at(), at(1_700_000_000));
    let back = e.with_expiry(None);
    assert_eq!(back.expires_at(), None);
}

#[test]
fn entry_revised_keeps_value_and_first_write() {
    let e = entry("v", &["a"]);
    let r = e.revised(strings(&["z"]), Some(at(77)), at(50));
    assert_eq!(r.value(), "v");
    assert_eq!(r.tags().to_vec(), strings(&["z"]));
    assert_eq!(r.created_at(), at(1_700_000_000));
    assert_eq!(r.updated_at(), at(50));
    assert_eq!(r.expires_at(), Some(at(77)));
}

#[test]
fn summary_without_tags() {
    assert_eq!(entry("hello", &[]).summary("greeting"), "greeting = hello");
}

#[test]
fn summary_with_tags() {
    assert_eq!(entry("hello", &["a", "b"]).summary("k"), "k = hello [tags: a, b]");
}

#[test]
fn tags_json_is_a_json_array() {
    assert_eq!(entry("v", &["a", "b\"c"]).tags_json().unwrap(), "[\"a\",\"b\\\"c\"]");
    assert_eq!(entry("v", &[]).tags_json().unwrap(), "[]");
}

#[test]
fn from_persisted_reads_all_fields() {
    let e = Entry::from_persisted(
        "v".to_string(),
        "[\"x\", \"y\"]",
        "2024-01-02T03:04:05Z",
        "2024-01-02T04:04:05.5+01:00",
    )
    .unwrap();
    assert_eq!(e.value(), "v");
    assert_eq!(e.tags().to_vec(), strings(&["x", "y"]));
    assert_eq!(e.created_at(), Timestamp::new(1_704_164_645, 0));
    assert_eq!(e.updated_at(), Timestamp::new(1_704_164_645, 500_000_000));
    assert_eq!(e.expires_at(), None);
}

#[test]
fn from_persisted_takes_blank_tags_as_none() {
    let e = Entry::from_persisted("v".to_string(), "  ", "2024-01-02T03:04:05Z", "2024-01-02T03:04:05Z")
        .unwrap();
    assert!(e.tags().is_empty());
}

#[test]
fn from_persisted_rejects_bad_tags_first() {
    let r = Entry::from_persisted("v".to_string(), "{not json", "never", "never");
    assert!(matches!(r, Err(KvError::DataFormat(_))));
}

#[test]
fn from_persisted_rejects_bad_instants() {
    let r = Entry::from_persisted("v".to_string(), "[]", "yesterday", "2024-01-02T03:04:05Z");
    assert!(matches!(r, Err(KvError::Time(_))));
    let r = Entry::from_persisted("v".to_string(), "[]", "2024-01-02T03:04:05Z", "2024-13-02T03:04:05Z");
    assert!(matches!(r, Err(KvError::Time(_))));
}

#[test]
fn update_keeps_created_at_and_expiry() {
    let old = entry("v1", &["a"]).with_expiry(Some(at(9_000_000_000)));
    let new = Entry::updated_at_instant(Some(&old), "v2".to_string(), strings(&["b"]), at(1_800_000_000));
    assert_eq!(new.value(), "v2");
    assert_eq!(new.tags().to_vec(), strings(&["b"]));
    assert_eq!(new.created_at(), old.created_at());
    assert_eq!(new.updated_at(), at(1_800_000_000));
    assert_eq!(new.expires_at(), Some(at(9_000_000_000)));
}

#[test]
fn update_of_nothing_is_a_first_write() {
    let new = Entry::updated_at_instant(None, "v".to_string(), Vec::new(), at(42));
    assert_eq!(new.created_at(), at(42));
    assert_eq!(new.updated_at(), at(42));
    assert_eq!(new.expires_at(), None);
}

#[test]
fn repeated_updates_never_move_created_at() {
    let mut current = Entry::updated_at_instant(None, "v0".to_string(), Vec::new(), at(10));
    for step in 1..5 {
        let next = Entry::updated_at_instant(Some(&current), "v".to_string(), Vec::new(), at(10 + step));
        assert_eq!(next.created_at(), at(10));
        assert_eq!(next.updated_at(), at(10 + step));
        assert_eq!(next.expires_at(), None);
        current = next;
    }
}

#[test]
fn for_update_uses_the_clock_for_updated_at_only() {
    let old = entry("v1", &[]);
    let new = Entry::for_update(Some(&old), "v2".to_string(), Vec::new());
    assert_eq!(new.created_at(), old.created_at());
    assert!(new.updated_at().secs > old.updated_at().secs);
    let first = Entry::for_update(None, "v".to_string(), Vec::new());
    assert_eq!(first.created_at(), first.updated_at());
}

#[test]
fn scope_predicates() {
    assert!(matches_keys(SearchScope::All));
    assert!(matches_keys(SearchScope::KeysOnly));
    assert!(!matches_keys(SearchScope::TagsOnly));
    assert!(matches_tags(SearchScope::All));
    assert!(!matches_tags(SearchScope::KeysOnly));
    assert!(matches_tags(SearchScope::TagsOnly));
}

#[test]
fn new_store_is_empty() {
    let store = Store::new();
    assert_eq!(store.len(), 0);
    assert!(store.ordered().is_empty());
    assert!(store.get("a").is_none());
    assert!(store.recent(10).is_empty());
    assert!(store.recent_config().is_none());
}

#[test]
fn from_entries_orders_keys_and_lets_the_later_win() {
    let store = Store::from_entries(vec![
        ("b".to_string(), entry("1", &[])),
        ("a".to_string(), entry("2", &[])),
        ("c".to_string(), entry("3", &[])),
        ("a".to_string(), entry("4", &[])),
    ]);
    assert_eq!(store.len(), 3);
    assert_eq!(keys_of(&store), strings(&["a", "b", "c"]));
    assert_eq!(store.get("a").unwrap().value(), "4");
}

#[test]
fn insert_returns_the_previous_entry() {
    let mut store = Store::new();
    assert!(store.insert("k".to_string(), entry("1", &[])).is_none());
    let previous = store.insert("k".to_string(), entry("2", &[])).unwrap();
    assert_eq!(previous.value(), "1");
    assert_eq!(store.get("k").unwrap().value(), "2");
    assert_eq!(store.len(), 1);
}

#[test]
fn insert_keeps_the_listing_sorted() {
    let mut store = Store::new();
    for key in ["m", "z", "a", "q", "b", "", "mm"] {
        store.insert(key.to_string(), entry(key, &[]));
    }
    assert_eq!(keys_of(&store), strings(&["", "a", "b", "m", "mm", "q", "z"]));
    for key in ["m", "z", "a", "q", "b", "", "mm"] {
        assert_eq!(store.get(key).unwrap().value(), key);
        assert!(store.contains_key(key));
    }
    assert!(!store.contains_key("n"));
}

#[test]
fn remove_returns_the_entry_and_forgets_the_key() {
    let mut store = store_of(&["a", "b", "c"]);
    assert_eq!(store.remove("b").unwrap().value(), "b");
    assert!(store.get("b").is_none());
    assert!(store.remove("b").is_none());
    assert_eq!(keys_of(&store), strings(&["a", "c"]));
}

#[test]
fn reset_replaces_everything() {
    let mut store = store_of(&["a", "b"]);
    store.reset(vec![("x".to_string(), entry("1", &[])), ("c".to_string(), entry("2", &[]))]);
    assert_eq!(keys_of(&store), strings(&["c", "x"]));
    assert!(store.get("a").is_none());
}

#[test]
fn reset_with_nothing_clears_the_store() {
    let mut store = store_of(&["a", "b"]);
    store.reset(Vec::new());
    assert_eq!(store.len(), 0);
    assert!(store.ordered().is_empty());
}

#[test]
fn apply_does_what_the_change_says() {
    let mut store = store_of(&["a"]);
    store.apply(Mutation::Upsert { key: "b".to_string(), entry: entry("B", &[]) });
    assert_eq!(store.get("b").unwrap().value(), "B");
    store.apply(Mutation::Delete { key: "a".to_string() });
    assert!(store.get("a").is_none());
    store.apply(Mutation::ReplaceAll { entries: vec![("z".to_string(), entry("Z", &[]))] });
    assert_eq!(keys_of(&store), strings(&["z"]));
    store.apply(Mutation::ReplaceAll { entries: Vec::new() });
    assert_eq!(store.len(), 0);
}

#[test]
fn index_of_finds_the_first_place() {
    let list = strings(&["a", "b", "a"]);
    assert_eq!(index_of(&list, "a"), Some(0));
    assert_eq!(index_of(&list, "b"), Some(1));
    assert_eq!(index_of(&list, "c"), None);
}

#[test]
fn record_access_is_ignored_without_a_log() {
    let mut store = store_of(&["a"]);
    assert!(!store.record_access("a"));
    assert!(store.recent(5).is_empty());
}

#[test]
fn record_access_ignores_unknown_keys() {
    let mut store = store_of(&["a"]);
    store.enable_recent_history(RecentConfig::new("r.log".to_string(), 3), "");
    assert!(!store.record_access("nope"));
    assert!(store.recent(5).is_empty());
}

#[test]
fn record_access_moves_the_key_to_the_front() {
    let mut store = store_of(&["a", "b", "c"]);
    store.enable_recent_history(RecentConfig::new("r.log".to_string(), 5), "");
    assert!(store.record_access("a"));
    assert!(store.record_access("b"));
    assert!(store.record_access("c"));
    assert!(store.record_access("a"));
    assert_eq!(store.recent(10), strings(&["a", "c", "b"]));
    assert_eq!(store.recent(2), strings(&["a", "c"]));
    assert!(store.recent(0).is_empty());
}

#[test]
fn recent_history_holds_exactly_its_capacity() {
    let keys = ["k1", "k2", "k3", "k4"];
    let mut store = store_of(&keys);
    store.enable_recent_history(RecentConfig::new("r.log".to_string(), 3), "");
    for key in ["k1", "k2", "k3"] {
        store.record_access(key);
    }
    assert_eq!(store.recent(10), strings(&["k3", "k2", "k1"]));
    store.record_access("k4");
    assert_eq!(store.recent(10), strings(&["k4", "k3", "k2"]));
    let saved = store.recent_text();
    assert_eq!(saved, "k4\nk3\nk2\n");
    let mut reloaded = store_of(&keys);
    reloaded.enable_recent_history(RecentConfig::new("r.log".to_string(), 3), &saved);
    assert_eq!(reloaded.recent(10), strings(&["k4", "k3", "k2"]));
}

#[test]
fn loading_history_dedupes_prunes_and_caps() {
    let mut store = store_of(&["a", "b", "c", "d"]);
    store.enable_recent_history(RecentConfig::new("r.log".to_string(), 3), "b\ngone\na\nb\n\nc\nd");
    assert_eq!(store.recent(10), strings(&["b", "a", "c"]));
    let config = store.recent_config().unwrap();
    assert_eq!(config.path(), "r.log");
    assert_eq!(config.limit(), 3);
}

#[test]
fn remove_evicts_the_key_from_the_history() {
    let mut store = store_of(&["a", "b"]);
    store.enable_recent_history(RecentConfig::new("r.log".to_string(), 5), "a\nb\n");
    store.remove("a");
    assert_eq!(store.recent(10), strings(&["b"]));
    assert_eq!(store.recent_text(), "b\n");
}

#[test]
fn reset_prunes_the_history() {
    let mut store = store_of(&["a", "b", "c"]);
    store.enable_recent_history(RecentConfig::new("r.log".to_string(), 5), "c\na\nb\n");
    store.reset(vec![("b".to_string(), entry("1", &[])), ("c".to_string(), entry("2", &[]))]);
    assert_eq!(store.recent(10), strings(&["c", "b"]));
}

#[test]
fn history_of_capacity_zero_stays_empty() {
    let mut store = store_of(&["a"]);
    store.enable_recent_history(RecentConfig::new("r.log".to_string(), 0), "a\n");
    assert!(store.recent(10).is_empty());
    assert!(!store.record_access("a"));
    assert!(store.recent(10).is_empty());
}

#[test]
fn better_score_is_the_maximum_with_none_least() {
    assert_eq!(better_score(None, None), None);
    assert_eq!(better_score(Some(3), None), Some(3));
    assert_eq!(better_score(None, Some(-4)), Some(-4));
    assert_eq!(better_score(Some(3), Some(7)), Some(7));
    assert_eq!(better_score(Some(7), Some(3)), Some(7));
}

#[test]
fn combined_score_follows_the_scope() {
    assert_eq!(combined_score(SearchScope::All, Some(1), Some(2)), Some(2));
    assert_eq!(combined_score(SearchScope::All, None, Some(2)), Some(2));
    assert_eq!(combined_score(SearchScope::KeysOnly, Some(1), Some(2)), Some(1));
    assert_eq!(combined_score(SearchScope::KeysOnly, None, Some(2)), None);
    assert_eq!(combined_score(SearchScope::TagsOnly, Some(1), Some(2)), Some(2));
    assert_eq!(combined_score(SearchScope::TagsOnly, Some(1), None), None);
}

#[test]
fn rank_scores_orders_by_score_then_place() {
    let scores = vec![Some(5), None, Some(9), Some(5), Some(-1)];
    assert_eq!(rank_scores(&scores, 10), vec![(2, 9), (0, 5), (3, 5), (4, -1)]);
    assert_eq!(rank_scores(&scores, 2), vec![(2, 9), (0, 5)]);
    assert!(rank_scores(&scores, 0).is_empty());
    assert!(rank_scores(&Vec::new(), 3).is_empty());
}

#[test]
fn fuzzy_score_is_the_matchers_score() {
    let matcher = SkimMatcherV2::default();
    for (choice, pattern) in [("axbycz", "abc"), ("project-notes", "note"), ("abc", "abx"), ("", "a"), ("Hello", "hl")] {
        assert_eq!(fuzzy_score(choice, pattern), matcher.fuzzy_match(choice, pattern));
    }
    assert!(fuzzy_score("axbycz", "abc").is_some());
    assert_eq!(fuzzy_score("abc", "abx"), None);
}

#[test]
fn fuzzy_score_leaves_out_overlong_texts() {
    let long = "a".repeat(MATCH_LIMIT + 1);
    assert_eq!(fuzzy_score(&long, "a"), None);
    assert_eq!(fuzzy_score("a", &long), None);
}

#[test]
fn best_tag_is_the_best_of_the_tags() {
    let tags = strings(&["zzz", "work", "homework"]);
    let expected = fuzzy_score("work", "work").max(fuzzy_score("homework", "work"));
    assert_eq!(best_tag(&tags, "work"), expected);
    assert_eq!(best_tag(&tags, "qqq"), None);
    assert_eq!(best_tag(&Vec::new(), "work"), None);
}

#[test]
fn search_scoping_follows_the_scope() {
    let store = Store::from_entries(vec![("project-notes".to_string(), entry("v", &["@work"]))]);
    let by_key = store.search("note", 10, SearchScope::KeysOnly);
    assert_eq!(by_key.len(), 1);
    assert_eq!(by_key[0].key, "project-notes");
    assert_eq!(by_key[0].entry.value(), "v");
    assert_eq!(Some(by_key[0].score), fuzzy_score("project-notes", "note"));
    assert!(store.search("work", 10, SearchScope::KeysOnly).is_empty());
    let by_tag = store.search("work", 10, SearchScope::TagsOnly);
    assert_eq!(by_tag.len(), 1);
    assert_eq!(by_tag[0].key, "project-notes");
    assert!(store.search("note", 10, SearchScope::TagsOnly).is_empty());
    assert_eq!(store.search("work", 10, SearchScope::All).len(), 1);
    assert_eq!(store.search("note", 10, SearchScope::All).len(), 1);
}

#[test]
fn search_short_circuits_on_empty_pattern_and_zero_limit() {
    let store = store_of(&["a", "b"]);
    assert!(store.search("", 10, SearchScope::All).is_empty());
    assert!(store.search("a", 0, SearchScope::All).is_empty());
}

#[test]
fn search_ranks_by_score_and_truncates() {
    let store = store_of(&["xaxbxc", "abc", "zzz", "abcabc", "a-b-c"]);
    let hits = store.search("abc", 10, SearchScope::KeysOnly);
    assert_eq!(hits.len(), 4);
    for pair in hits.windows(2) {
        assert!(pair[0].score >= pair[1].score);
        if pair[0].score == pair[1].score {
            assert!(pair[0].key < pair[1].key);
        }
    }
    for hit in &hits {
        assert_eq!(Some(hit.score), fuzzy_score(hit.key, "abc"));
    }
    let top = store.search("abc", 2, SearchScope::KeysOnly);
    assert_eq!(top.len(), 2);
    assert_eq!(top[0].key, hits[0].key);
    assert_eq!(top[1].key, hits[1].key);
}

#[test]
fn search_takes_the_better_of_key_and_tags() {
    let store = Store::from_entries(vec![("k".to_string(), entry("v", &["alpha", "al"]))]);
    let hits = store.search("al", 5, SearchScope::All);
    assert_eq!(hits.len(), 1);
    let expected = fuzzy_score("alpha", "al").max(fuzzy_score("al", "al")).max(fuzzy_score("k", "al"));
    assert_eq!(Some(hits[0].score), expected);
}
