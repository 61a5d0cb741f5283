use minigrep::run_search;
use minigrep::search;
use minigrep::search_case_insensitive;
use minigrep::Config;

#[test]
fn search_has_one_result() {
    let query = "duct";
    let contents = "\
Rust:
safe, fast, productive.
Pick three.
Duct tape.";

    assert_eq!(vec!["safe, fast, productive."], search(query, contents));
}

#[test]
fn case_insensitive() {
    let query = "rUsT";
    let contents = "\
Rust:
safe, fast, productive.
Pick three.
Trust me.";

    assert_eq!(
        vec!["Rust:", "Trust me."],
        search_case_insensitive(query, contents)
    );
}

#[test]
fn empty_query_returns_every_line() {
    let contents = "Rust:\nsafe, fast, productive.\nPick three.";
    let all = vec!["Rust:", "safe, fast, productive.", "Pick three."];
    assert_eq!(all, search("", contents));
    assert_eq!(all, search_case_insensitive("", contents));
}

#[test]
fn no_match_returns_nothing() {
    assert!(search("zzz", "alpha\nbeta").is_empty());
    assert!(search_case_insensitive("zzz", "alpha\nbeta").is_empty());
}

#[test]
fn empty_contents_has_no_lines() {
    assert!(search("a", "").is_empty());
    assert!(search("", "").is_empty());
}

#[test]
fn trailing_newline_adds_no_line() {
    assert_eq!(vec!["one", "two"], search("", "one\ntwo\n"));
}

#[test]
fn blank_lines_are_kept() {
    assert_eq!(vec!["one", "", "two"], search("", "one\n\ntwo"));
}

#[test]
fn crlf_terminator_is_stripped() {
    assert_eq!(vec!["alpha", "beta"], search("", "alpha\r\nbeta"));
    assert_eq!(vec!["alpha"], search("alpha", "alpha\r\nbeta"));
}

#[test]
fn lone_trailing_cr_is_kept() {
    assert_eq!(vec!["alpha\r"], search("alpha", "alpha\r"));
}

#[test]
fn query_spanning_lines_matches_nowhere() {
    assert!(search("one\ntwo", "one\ntwo").is_empty());
}

#[test]
fn insensitive_superset_of_sensitive() {
    let contents = "Rust:\nsafe, fast, productive.\nPick three.\nTrust me.";
    assert_eq!(vec!["Rust:"], search("Rust", contents));
    assert_eq!(
        vec!["Rust:", "Trust me."],
        search_case_insensitive("Rust", contents)
    );
}

#[test]
fn run_search_dispatches_by_mode() {
    let contents = "Rust:\nsafe, fast, productive.\nPick three.\nTrust me.";
    let sensitive = Config {
        query: String::from("rUsT"),
        filename: String::from("poem.txt"),
        case_sensitive: true,
    };
    assert!(run_search(&sensitive, contents).is_empty());
    let insensitive = Config {
        query: String::from("rUsT"),
        filename: String::from("poem.txt"),
        case_sensitive: false,
    };
    assert_eq!(vec!["Rust:", "Trust me."], run_search(&insensitive, contents));
}

#[test]
fn lowercasing_is_ascii_only() {
    let contents = "caf\u{e9} au lait\nplain milk";
    assert_eq!(vec!["caf\u{e9} au lait"], search("caf\u{e9}", contents));
    assert_eq!(
        vec!["caf\u{e9} au lait"],
        search_case_insensitive("CAF\u{e9}", contents)
    );
    assert!(search_case_insensitive("CAF\u{c9}", contents).is_empty());
}
