use mini_grep::config::Config;
use mini_grep::search::{search, search_case_insensitive, search_with_config};

#[test]
fn case_sensitive() {
    let query = "duct";
    let content = "\nRust:\n\nsafe, fast, productive.\n\nPick three.\n\nDuct tape.";
    assert_eq!(vec!["safe, fast, productive."], search(query, content))
}

#[test]
fn case_insensitive() {
    let query = "RuSt";
    let content = "\nRust:\n\nsafe, fast, productive.\n\nPick three.\n\ntrust me.";
    assert_eq!(vec!["Rust:", "trust me."], search_case_insensitive(query, content))
}

#[test]
fn lib_case_sensitive() {
    let query = "duct";
    let content = "\nRust:\n\nsafe, fast, productive.\n\nPick three.\n\nDuct tape.";
    assert_eq!(vec!["safe, fast, productive."], search(query, content))
}

#[test]
fn lib_case_insensitive() {
    let query = "RuSt";
    let content = "\nRust:\n\nsafe, fast, productive.\n\nPick three.\n\ntrust me.";
    assert_eq!(vec!["Rust:", "trust me."], search_case_insensitive(query, content))
}

#[test]
fn sensitive_skips_differently_cased_line() {
    let content = "Rust:\nsafe, fast, productive.\nPick three.\nDuct tape.";
    assert_eq!(vec!["safe, fast, productive."], search("duct", content));
}

#[test]
fn insensitive_finds_all_casings() {
    let content = "Rust:\nsafe, fast, productive.\nPick three.\ntrust me.";
    assert_eq!(vec!["Rust:", "trust me."], search_case_insensitive("RuSt", content));
}

#[test]
fn empty_query_matches_every_line_sensitive() {
    let content = "one\ntwo\nthree";
    assert_eq!(vec!["one", "two", "three"], search("", content));
}

#[test]
fn empty_query_matches_every_line_insensitive() {
    let content = "one\ntwo\nthree";
    assert_eq!(vec!["one", "two", "three"], search_case_insensitive("", content));
}

#[test]
fn empty_content_has_no_lines() {
    assert!(search("x", "").is_empty());
    assert!(search("", "").is_empty());
    assert!(search_case_insensitive("x", "").is_empty());
}

#[test]
fn trailing_newline_adds_no_empty_line() {
    let content = "alpha\nbeta\n";
    assert_eq!(vec!["alpha", "beta"], search("", content));
    let doubled = "alpha\n\nbeta\n";
    assert_eq!(vec!["alpha", "", "beta"], search("", doubled));
}

#[test]
fn lines_keep_order_and_repeats() {
    let content = "ab\ncd\nab\nef";
    assert_eq!(vec!["ab", "ab"], search("ab", content));
}

#[test]
fn full_line_query_round_trip() {
    let content = "alpha\nbeta\ngamma";
    assert_eq!(vec!["beta"], search("beta", content));
}

#[test]
fn query_spanning_lines_never_matches() {
    let content = "ab\ncd";
    assert!(search("b\nc", content).is_empty());
}

#[test]
fn insensitive_keeps_original_casing() {
    let content = "LOUD noise\nquiet";
    assert_eq!(vec!["LOUD noise"], search_case_insensitive("loud", content));
}

#[test]
fn config_selects_sensitive_search() {
    let config = Config {
        query: String::from("duct"),
        filename: String::from("poem.txt"),
        case_sensitive: true,
    };
    let content = "Rust:\nsafe, fast, productive.\nPick three.\nDuct tape.";
    assert_eq!(vec!["safe, fast, productive."], search_with_config(&config, content));
}

#[test]
fn config_selects_insensitive_search() {
    let config = Config {
        query: String::from("rUsT"),
        filename: String::from("poem.txt"),
        case_sensitive: false,
    };
    let content = "Rust:\nsafe, fast, productive.\nPick three.\ntrust me.";
    assert_eq!(vec!["Rust:", "trust me."], search_with_config(&config, content));
}
