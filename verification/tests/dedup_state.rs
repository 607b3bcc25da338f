use list_monitor::dedup::DedupCache;
use list_monitor::state::RunState;

#[test]
fn insert_is_idempotent() {
    let mut cache = DedupCache::new(200);
    cache.insert("a tweet about rain".to_string());
    assert_eq!(cache.len(), 1);
    cache.insert("a tweet about rain".to_string());
    assert_eq!(cache.len(), 1);
    assert!(cache.contains(&"a tweet about rain".to_string()));
}

#[test]
fn overflow_evicts_oldest_first() {
    let cap = 5;
    let k = 3;
    let mut cache = DedupCache::new(cap);
    let fps: Vec<String> = (0..cap + k).map(|i| format!("fp-{}", i)).collect();
    for fp in &fps {
        cache.insert(fp.clone());
    }
    assert_eq!(cache.len(), cap);
    for (i, fp) in fps.iter().enumerate() {
        assert_eq!(cache.contains(fp), i >= k, "fingerprint {} presence", i);
    }
    let expected: Vec<String> = fps[k..].to_vec();
    assert_eq!(cache.entries(), &expected);
}

#[test]
fn reinserting_present_fingerprint_keeps_order() {
    let mut cache = DedupCache::new(3);
    cache.insert("one".to_string());
    cache.insert("two".to_string());
    cache.insert("one".to_string());
    let expected = vec!["one".to_string(), "two".to_string()];
    assert_eq!(cache.entries(), &expected);
}

#[test]
fn from_entries_truncates_oldest() {
    let entries: Vec<String> = (0..7).map(|i| format!("e{}", i)).collect();
    let cache = DedupCache::from_entries(entries.clone(), 4);
    assert_eq!(cache.len(), 4);
    let expected: Vec<String> = entries[3..].to_vec();
    assert_eq!(cache.entries(), &expected);

    let short = DedupCache::from_entries(vec!["x".to_string()], 4);
    assert_eq!(short.len(), 1);
}

#[test]
fn first_run_state_is_zeroed() {
    let s = RunState::first_run();
    assert_eq!(s.last_run_time, 0);
    assert_eq!(s.last_item_id, None);
    assert_eq!(s.last_item_time, None);
}

#[test]
fn missing_persisted_state_degrades_to_first_run() {
    let s = RunState::from_loaded(None);
    assert_eq!(s.last_run_time, 0);
    assert_eq!(s.last_item_id, None);
    assert_eq!(s.last_item_time, None);

    let loaded = RunState {
        last_run_time: 77,
        last_item_id: Some("id9".to_string()),
        last_item_time: Some("2024-01-01T00:00:00Z".to_string()),
    };
    let s2 = RunState::from_loaded(Some(loaded));
    assert_eq!(s2.last_run_time, 77);
    assert_eq!(s2.last_item_id, Some("id9".to_string()));
}
