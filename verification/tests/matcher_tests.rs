use list_monitor::matcher::keyword_match;

fn kws(words: &[&str]) -> Vec<String> {
    words.iter().map(|w| w.to_string()).collect()
}

#[test]
fn keyword_does_not_match_inside_word() {
    assert!(!keyword_match("category update", &kws(&["cat"])));
}

#[test]
fn keyword_matches_whole_word() {
    assert!(keyword_match("my cat is happy", &kws(&["cat"])));
}

#[test]
fn match_is_case_insensitive_both_ways() {
    assert!(keyword_match("my cat is happy", &kws(&["CAT"])));
    assert!(keyword_match("BREAKING: Cat News", &kws(&["cat"])));
}

#[test]
fn punctuation_is_a_word_boundary() {
    assert!(keyword_match("cat!", &kws(&["cat"])));
    assert!(keyword_match("(cat)", &kws(&["cat"])));
    assert!(keyword_match("cat", &kws(&["cat"])));
}

#[test]
fn underscore_is_a_word_character() {
    assert!(!keyword_match("cat_videos", &kws(&["cat"])));
    assert!(!keyword_match("my_cat", &kws(&["cat"])));
}

#[test]
fn any_keyword_suffices() {
    assert!(keyword_match("rain delay in the game", &kws(&["snow", "rain"])));
    assert!(!keyword_match("sunny all day", &kws(&["snow", "rain"])));
}

#[test]
fn no_keywords_never_match() {
    assert!(!keyword_match("anything at all", &kws(&[])));
}

#[test]
fn multi_word_keyword_matches_phrase() {
    assert!(keyword_match("the home run was long", &kws(&["home run"])));
    assert!(!keyword_match("the home runs were long", &kws(&["home run"])));
}

#[test]
fn folding_covers_non_ascii_letters() {
    assert!(keyword_match("M\u{dc}LLER wins again", &kws(&["m\u{fc}ller"])));
    assert!(keyword_match("m\u{fc}ller wins again", &kws(&["M\u{dc}LLER"])));
    assert!(!keyword_match("m\u{fc}ller wins again", &kws(&["m\u{f6}ller"])));
}
