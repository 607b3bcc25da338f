use list_monitor::client::{
    create_table_from_response, effective_limit, ingest_success, status_line,
    tables_from_response, tweets_from_response, TweetRow,
};
use list_monitor::config::{
    default_refresh_minutes, new_monitor, remove_monitor, run_config_from_monitor, Monitor,
};

#[test]
fn ingest_counts_only_2xx_as_success() {
    assert!(ingest_success(200));
    assert!(ingest_success(204));
    assert!(ingest_success(299));
    assert!(!ingest_success(300));
    assert!(!ingest_success(404));
    assert!(!ingest_success(199));
}

#[test]
fn fetch_limit_defaults_and_caps() {
    assert_eq!(effective_limit(None), 100);
    assert_eq!(effective_limit(Some(50)), 50);
    assert_eq!(effective_limit(Some(500)), 500);
    assert_eq!(effective_limit(Some(1_000)), 500);
}

#[test]
fn tables_response_cases() {
    let tables = vec!["mlb_tweets".to_string(), "golf_tweets".to_string()];
    assert_eq!(tables_from_response(200, Some(tables.clone()), None), Ok(tables));
    assert_eq!(
        tables_from_response(500, None, Some("down".to_string())),
        Err("down".to_string())
    );
    assert_eq!(tables_from_response(500, None, None), Err("API error".to_string()));
    assert_eq!(tables_from_response(200, None, None), Err("No tables key".to_string()));
}

#[test]
fn tweets_response_cases() {
    let row = TweetRow {
        id: Some(1),
        tweet_id: Some("t1".to_string()),
        author_handle: Some("a".to_string()),
        text: Some("hello".to_string()),
        url: None,
        posted_at: None,
        inserted_at: None,
    };
    let ok = tweets_from_response(200, Some(vec![row]), None).unwrap();
    assert_eq!(ok.len(), 1);
    assert_eq!(ok[0].tweet_id.as_deref(), Some("t1"));
    assert_eq!(
        tweets_from_response(404, None, None),
        Err("404 Not Found".to_string())
    );
    assert_eq!(
        tweets_from_response(599, None, None),
        Err("599 <unknown status code>".to_string())
    );
    assert_eq!(
        tweets_from_response(200, None, None),
        Err("No tweets key".to_string())
    );
}

#[test]
fn create_table_response_cases() {
    assert_eq!(
        create_table_from_response(200, Some("mlb_news_tweets".to_string()), None),
        Ok("mlb_news_tweets".to_string())
    );
    assert_eq!(
        create_table_from_response(400, None, Some("bad name".to_string())),
        Err("bad name".to_string())
    );
    assert_eq!(create_table_from_response(400, None, None), Err("Unknown error".to_string()));
    assert_eq!(
        create_table_from_response(200, None, None),
        Err("No table_name in response".to_string())
    );
}

#[test]
fn default_refresh_is_one_minute() {
    assert_eq!(default_refresh_minutes(), 1);
}

#[test]
fn new_monitor_normalizes_fields() {
    let m = new_monitor(
        "  MLB News ",
        " https://x.com/i/lists/52021139 ",
        vec!["  rain ".to_string(), "   ".to_string(), "delay".to_string()],
        None,
        Some(" GOLF ".to_string()),
    );
    assert_eq!(m.id.len(), 36);
    assert_eq!(m.name, "MLB News");
    assert_eq!(m.list_url, "https://x.com/i/lists/52021139");
    assert_eq!(m.keywords, vec!["rain".to_string(), "delay".to_string()]);
    assert_eq!(m.refresh_minutes, 1);
    assert_eq!(m.feed, "golf");
}

#[test]
fn new_monitor_defaults_feed_and_minutes() {
    let m = new_monitor("n", "u", vec![], Some(7), None);
    assert_eq!(m.refresh_minutes, 7);
    assert_eq!(m.feed, "mlb");
    let m2 = new_monitor("n", "u", vec![], None, Some("  ".to_string()));
    assert_eq!(m2.feed, "mlb");
}

#[test]
fn fresh_monitor_ids_differ() {
    let a = new_monitor("a", "u", vec![], None, None);
    let b = new_monitor("b", "u", vec![], None, None);
    assert_ne!(a.id, b.id);
}

#[test]
fn remove_monitor_deletes_by_id() {
    let mk = |id: &str| Monitor {
        id: id.to_string(),
        name: "n".to_string(),
        list_url: "u".to_string(),
        keywords: vec![],
        refresh_minutes: 1,
        feed: "mlb".to_string(),
    };
    let list = vec![mk("a"), mk("b"), mk("c")];
    let rest = remove_monitor(list, "b");
    let ids: Vec<&str> = rest.iter().map(|m| m.id.as_str()).collect();
    assert_eq!(ids, vec!["a", "c"]);
    let unchanged = remove_monitor(rest, "zz");
    assert_eq!(unchanged.len(), 2);
}

#[test]
fn run_config_resolves_feed_id_with_fallback() {
    let m = Monitor {
        id: "m1".to_string(),
        name: "MLB News".to_string(),
        list_url: "https://x.com/i/lists/52021139".to_string(),
        keywords: vec!["rain".to_string()],
        refresh_minutes: 1,
        feed: "mlb".to_string(),
    };
    let cfg = run_config_from_monitor(&m);
    assert_eq!(cfg.feed_id, "52021139");
    assert_eq!(cfg.keywords, vec!["rain".to_string()]);
    assert_eq!(cfg.catch_up_threshold_minutes, 5);
    assert_eq!(cfg.max_cache_size, 200);

    let bad = Monitor { list_url: "not a list".to_string(), ..m };
    let cfg2 = run_config_from_monitor(&bad);
    assert_eq!(cfg2.feed_id, "default");
}

#[test]
fn status_lines_follow_the_reason_table() {
    assert_eq!(status_line(200), "200 OK");
    assert_eq!(status_line(503), "503 Service Unavailable");
    assert_eq!(status_line(299), "299 <unknown status code>");
}
