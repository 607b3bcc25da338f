use list_monitor::identity::{list_match_urls, parse_list_id_from_url};
use list_monitor::router::{destination_path, feed_to_table_name, table_name_from_monitor_name, tweet_api_path_for_feed};

#[test]
fn resolves_i_lists_shape() {
    assert_eq!(
        parse_list_id_from_url("https://x.com/i/lists/52021139"),
        Some("52021139".to_string())
    );
    assert_eq!(
        parse_list_id_from_url("https://twitter.com/i/lists/52021139"),
        Some("52021139".to_string())
    );
}

#[test]
fn resolves_username_lists_shape() {
    assert_eq!(
        parse_list_id_from_url("https://x.com/username/lists/12345"),
        Some("12345".to_string())
    );
}

#[test]
fn resolves_bare_four_segment_shape() {
    assert_eq!(parse_list_id_from_url("x.com/owner/lists/99"), Some("99".to_string()));
}

#[test]
fn i_lists_rule_takes_priority() {
    // Both five-segment rules apply here; the first must win, and both
    // yield the fifth segment.
    assert_eq!(parse_list_id_from_url("https://x.com/i/lists/42"), Some("42".to_string()));
}

#[test]
fn resolves_trimmed_url() {
    assert_eq!(
        parse_list_id_from_url("  https://x.com/i/lists/7 "),
        Some("7".to_string())
    );
}

#[test]
fn rejects_empty_and_unmatched_urls() {
    assert_eq!(parse_list_id_from_url(""), None);
    assert_eq!(parse_list_id_from_url("   "), None);
    assert_eq!(parse_list_id_from_url("https://x.com/home"), None);
    assert_eq!(parse_list_id_from_url("https://x.com/i/lists"), None);
    assert_eq!(parse_list_id_from_url("x.com/lists/99"), None);
}

#[test]
fn routes_known_feeds() {
    assert_eq!(feed_to_table_name("mlb"), "mlb_tweets");
    assert_eq!(feed_to_table_name("golf"), "golf_tweets");
}

#[test]
fn routes_pass_through_and_append() {
    assert_eq!(feed_to_table_name("nba_tweets"), "nba_tweets");
    assert_eq!(feed_to_table_name("NFL"), "nfl_tweets");
}

#[test]
fn routes_empty_to_default() {
    assert_eq!(feed_to_table_name(""), "mlb_tweets");
    assert_eq!(feed_to_table_name("   "), "mlb_tweets");
}

#[test]
fn routes_are_trimmed_and_lowered() {
    assert_eq!(feed_to_table_name(" Golf "), "golf_tweets");
    assert_eq!(feed_to_table_name("MLB_TWEETS"), "mlb_tweets");
}

#[test]
fn api_path_carries_routed_table() {
    assert_eq!(tweet_api_path_for_feed("mlb"), "/api/tweet/into/mlb_tweets");
    assert_eq!(tweet_api_path_for_feed("NFL"), "/api/tweet/into/nfl_tweets");
    assert_eq!(tweet_api_path_for_feed(""), "/api/tweet/into/mlb_tweets");
}

#[test]
fn name_form_slugs_and_appends() {
    assert_eq!(table_name_from_monitor_name("MLB News"), "mlb_news_tweets");
}

#[test]
fn name_form_defaults_on_empty() {
    assert_eq!(table_name_from_monitor_name("  "), "monitor_tweets");
    assert_eq!(table_name_from_monitor_name("!!!"), "monitor_tweets");
}

#[test]
fn name_form_drops_other_punctuation() {
    assert_eq!(table_name_from_monitor_name("Golf!!"), "golf_tweets");
}

#[test]
fn name_form_collapses_separator_runs() {
    assert_eq!(table_name_from_monitor_name("A--B  C"), "a_b_c_tweets");
    assert_eq!(table_name_from_monitor_name(" - Left Edge"), "left_edge_tweets");
}

#[test]
fn match_urls_cover_both_hosts() {
    let (x, tw) = list_match_urls("https://x.com/i/lists/1");
    assert_eq!(x, "https://x.com/i/lists/1");
    assert_eq!(tw, "https://twitter.com/i/lists/1");
    let (x2, tw2) = list_match_urls(" https://twitter.com/i/lists/1 ");
    assert_eq!(x2, "https://x.com/i/lists/1");
    assert_eq!(tw2, "https://twitter.com/i/lists/1");
}

#[test]
fn match_urls_upgrade_plain_scheme() {
    let (x, tw) = list_match_urls("http://twitter.com/i/lists/1");
    assert_eq!(x, "https://x.com/i/lists/1");
    // The input names no x.com host, so the twitter form is the input itself.
    assert_eq!(tw, "http://twitter.com/i/lists/1");
}

#[test]
fn destination_path_depends_on_filtering() {
    assert_eq!(destination_path("golf", true), "/api/tweet/into/golf_tweets");
    assert_eq!(destination_path("golf", false), "/api/tweet/all");
}

#[test]
fn routes_fold_beyond_ascii() {
    assert_eq!(feed_to_table_name("\u{c9}LITE"), "\u{e9}lite_tweets");
}
