use list_monitor::config::{RunConfig, CATCH_UP_THRESHOLD_MINUTES, MAX_CACHE_SIZE};
use list_monitor::dedup::DedupCache;
use list_monitor::engine::{
    catch_up_cycle, decide_cycle, fingerprint, gap_minutes, make_outbound, scan_cycle,
    sort_items_by_time_desc, CycleKind, Item,
};
use list_monitor::state::RunState;

fn item(id: &str, time: &str, text: &str) -> Item {
    Item {
        id: Some(id.to_string()),
        author: "author".to_string(),
        text: text.to_string(),
        url: Some(format!("https://x.com/author/status/{}", id)),
        posted_at: Some(time.to_string()),
    }
}

fn config(keywords: &[&str]) -> RunConfig {
    RunConfig {
        feed_id: "52021139".to_string(),
        keywords: keywords.iter().map(|k| k.to_string()).collect(),
        catch_up_threshold_minutes: CATCH_UP_THRESHOLD_MINUTES,
        max_cache_size: MAX_CACHE_SIZE,
    }
}

#[test]
fn fingerprint_keeps_first_120_characters() {
    let long: String = "x".repeat(130);
    assert_eq!(fingerprint(&long).len(), 120);
    assert_eq!(fingerprint("short"), "short");
}

#[test]
fn gap_and_dispatch_follow_threshold() {
    // Exactly five minutes is a catch-up; one millisecond less is a scan.
    assert_eq!(gap_minutes(300_000, 0), 5);
    assert_eq!(decide_cycle(300_000, 0, 5), CycleKind::CatchingUp);
    assert_eq!(decide_cycle(299_999, 0, 5), CycleKind::Scanning);
    // A clock that moved backwards counts as no gap.
    assert_eq!(gap_minutes(100, 200), 0);
    assert_eq!(decide_cycle(100, 200, 5), CycleKind::Scanning);
}

#[test]
fn synthetic_id_for_item_without_one() {
    let mut it = item("1", "2024-01-01T00:00:00Z", "rain today");
    it.id = None;
    let ob = make_outbound(&it, 1234567);
    assert_eq!(ob.tweet_id, "1234567");
    assert_eq!(ob.author_handle, "author");
}

#[test]
fn sort_is_descending_with_timeless_last_and_stable() {
    let a = item("a", "2024-01-03T00:00:00Z", "a");
    let b = item("b", "2024-01-05T00:00:00Z", "b");
    let mut c = item("c", "", "c");
    c.posted_at = None;
    let d = item("d", "2024-01-03T00:00:00Z", "d");
    let sorted = sort_items_by_time_desc(vec![a, b, c, d]);
    let ids: Vec<&str> = sorted.iter().map(|i| i.id.as_deref().unwrap()).collect();
    // b is newest; a and d tie and keep encounter order; timeless c is last.
    assert_eq!(ids, vec!["b", "a", "d", "c"]);
}

#[test]
fn scan_forwards_matches_and_dedups() {
    let cfg = config(&["rain"]);
    let mut cache = DedupCache::new(cfg.max_cache_size);
    let mut st = RunState::first_run();
    let items = vec![
        item("1", "2024-01-01T00:00:01Z", "rain delay announced"),
        item("2", "2024-01-01T00:00:02Z", "sunny skies"),
        item("3", "2024-01-01T00:00:03Z", "rain delay announced"),
        item("4", "2024-01-01T00:00:04Z", "more rain coming"),
    ];
    let out = scan_cycle(&cfg, true, &items, &mut cache, &mut st, 9_000);
    // Item 2 fails the keyword test; item 3 shares item 1's fingerprint.
    let ids: Vec<&str> = out.iter().map(|o| o.tweet_id.as_str()).collect();
    assert_eq!(ids, vec!["1", "4"]);
    assert_eq!(cache.len(), 2);
    assert_eq!(st.last_run_time, 9_000);
    assert_eq!(st.last_item_id, Some("4".to_string()));
    assert_eq!(st.last_item_time, Some("2024-01-01T00:00:04Z".to_string()));
}

#[test]
fn scan_without_filter_accepts_everything_new() {
    let cfg = config(&[]);
    let mut cache = DedupCache::new(cfg.max_cache_size);
    let mut st = RunState::first_run();
    let items = vec![
        item("1", "2024-01-01T00:00:01Z", "sunny skies"),
        item("2", "2024-01-01T00:00:02Z", "cloudy"),
    ];
    let out = scan_cycle(&cfg, false, &items, &mut cache, &mut st, 50);
    assert_eq!(out.len(), 2);
    assert_eq!(cache.len(), 2);
}

#[test]
fn scan_updates_last_run_time_even_without_matches() {
    let cfg = config(&["rain"]);
    let mut cache = DedupCache::new(cfg.max_cache_size);
    let mut st = RunState::first_run();
    let items = vec![item("1", "2024-01-01T00:00:01Z", "sunny skies")];
    let out = scan_cycle(&cfg, true, &items, &mut cache, &mut st, 777);
    assert!(out.is_empty());
    assert_eq!(cache.len(), 0);
    assert_eq!(st.last_run_time, 777);
    assert_eq!(st.last_item_id, None);
}

#[test]
fn catch_up_stops_at_last_seen_id() {
    let cfg = config(&[]);
    let mut cache = DedupCache::new(cfg.max_cache_size);
    let mut st = RunState {
        last_run_time: 0,
        last_item_id: Some("5".to_string()),
        last_item_time: None,
    };
    let items = vec![
        item("9", "2024-01-01T00:00:09Z", "nine"),
        item("7", "2024-01-01T00:00:07Z", "seven"),
        item("5", "2024-01-01T00:00:05Z", "five"),
        item("3", "2024-01-01T00:00:03Z", "three"),
    ];
    let out = catch_up_cycle(&cfg, false, items, &mut cache, &mut st, 60_000);
    let ids: Vec<&str> = out.iter().map(|o| o.tweet_id.as_str()).collect();
    assert_eq!(ids, vec!["9", "7"]);
    assert_eq!(cache.len(), 2);
    assert_eq!(st.last_run_time, 60_000);
    assert_eq!(st.last_item_id, Some("7".to_string()));
}

#[test]
fn catch_up_stops_at_last_seen_time() {
    let cfg = config(&[]);
    let mut cache = DedupCache::new(cfg.max_cache_size);
    let mut st = RunState {
        last_run_time: 0,
        last_item_id: None,
        last_item_time: Some("2024-01-01T00:00:05Z".to_string()),
    };
    let items = vec![
        item("5", "2024-01-01T00:00:05Z", "five"),
        item("9", "2024-01-01T00:00:09Z", "nine"),
        item("7", "2024-01-01T00:00:07Z", "seven"),
    ];
    let out = catch_up_cycle(&cfg, false, items, &mut cache, &mut st, 60_000);
    let ids: Vec<&str> = out.iter().map(|o| o.tweet_id.as_str()).collect();
    // Items are walked newest first; the one at the confirmed time stops the walk.
    assert_eq!(ids, vec!["9", "7"]);
}

#[test]
fn first_run_end_to_end() {
    // First run: no persisted state, three visible items, one keyword match.
    let cfg = config(&["rain"]);
    let mut cache = DedupCache::new(cfg.max_cache_size);
    let mut st = RunState::from_loaded(None);
    let now: u64 = 1_700_000_000_000;
    assert_eq!(
        decide_cycle(now, st.last_run_time, cfg.catch_up_threshold_minutes),
        CycleKind::CatchingUp
    );
    let items = vec![
        item("101", "2024-01-01T00:00:01Z", "pitching change"),
        item("102", "2024-01-01T00:00:02Z", "rain delay in effect"),
        item("103", "2024-01-01T00:00:03Z", "final score posted"),
    ];
    let out = catch_up_cycle(&cfg, true, items, &mut cache, &mut st, now);
    assert_eq!(out.len(), 1);
    assert_eq!(out[0].tweet_id, "102");
    assert_eq!(out[0].text, "rain delay in effect");
    assert_eq!(cache.len(), 1);
    assert_eq!(st.last_run_time, now);
    assert_eq!(st.last_item_id, Some("102".to_string()));
    assert_eq!(st.last_item_time, Some("2024-01-01T00:00:02Z".to_string()));
}
