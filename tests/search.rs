use minigrep::{
    line_contains, search, search_insensitive, search_lines, select_folded, split_lines,
};

const POEM: &str = "\
Rust:
safe, fast, productive.
Pick three.";

#[test]
fn one_result() {
    let query = "duct";
    let contents = "\
Rust:
safe, fast, productive.
Pick three.";

    assert_eq!(vec!["safe, fast, productive."], search(query, contents));
}

#[test]
fn insensitive_finds_title_line() {
    assert_eq!(vec!["Rust:"], search_insensitive("RUST", POEM));
    assert_eq!(vec!["Rust:"], search_lines("RUST", POEM, true));
}

#[test]
fn exact_case_finds_nothing_for_lowercase_name() {
    let empty: Vec<&str> = Vec::new();
    assert_eq!(empty, search("rust", POEM));
    assert_eq!(empty, search_lines("rust", POEM, false));
}

#[test]
fn insensitive_keeps_original_casing() {
    let doc = "Rust:\nsafe, fast, productive.\nPick three.\nTrust me.";
    assert_eq!(vec!["Rust:", "Trust me."], search_insensitive("rUsT", doc));
}

#[test]
fn exact_matches_keep_document_order_and_duplicates() {
    let doc = "ab\ncd\nab\nxaby";
    assert_eq!(vec!["ab", "ab", "xaby"], search("ab", doc));
}

#[test]
fn empty_query_matches_every_line() {
    assert_eq!(vec!["Rust:", "safe, fast, productive.", "Pick three."], search("", POEM));
    assert_eq!(vec!["Rust:", "safe, fast, productive.", "Pick three."], search_insensitive("", POEM));
}

#[test]
fn empty_document_gives_no_lines() {
    let empty: Vec<&str> = Vec::new();
    assert_eq!(empty, search("x", ""));
    assert_eq!(empty, search("", ""));
    assert_eq!(empty, search_insensitive("X", ""));
}

#[test]
fn lone_newline_gives_no_lines() {
    let empty: Vec<&str> = Vec::new();
    assert_eq!(empty, search("a", "\n"));
    assert_eq!(empty, search("", "\n"));
    assert_eq!(empty, search_insensitive("A", "\n"));
    assert_eq!(empty, search_insensitive("", "\n"));
    assert_eq!(empty, search_lines("", "\n", true));
    assert_eq!(empty, search_lines("", "\n", false));
}

#[test]
fn trailing_newline_adds_no_line() {
    assert_eq!(search("", POEM), search("", "Rust:\nsafe, fast, productive.\nPick three.\n"));
    assert_eq!(vec!["a", ""], search("", "a\n\n"));
    assert_eq!(vec!["", ""], search("", "\n\n"));
}

#[test]
fn selection_by_folded_forms() {
    let lines = vec!["Rust:", "safe, fast, productive.", "Pick three."];
    let folded = vec![
        "rust:".to_string(),
        "safe, fast, productive.".to_string(),
        "pick three.".to_string(),
    ];
    assert_eq!(vec!["Rust:"], select_folded(&lines, &folded, "rust"));
    assert_eq!(vec!["Pick three."], select_folded(&lines, &folded, "ick"));
    assert_eq!(lines, select_folded(&lines, &folded, ""));
    let none: Vec<&str> = Vec::new();
    assert_eq!(none, select_folded(&lines, &folded, "RUST"));
}

#[test]
fn lines_split_on_newlines_and_drop_carriage_returns() {
    assert_eq!(vec!["one", "two", "", "three"], split_lines("one\r\ntwo\n\nthree\n"));
    let no_lines: Vec<&str> = Vec::new();
    assert_eq!(no_lines, split_lines("\n"));
    assert_eq!(vec![""], split_lines("\r\n"));
    let none: Vec<&str> = Vec::new();
    assert_eq!(none, split_lines(""));
    assert_eq!(vec!["a\rb"], split_lines("a\rb"));
    assert_eq!(vec!["x", "y\r"], split_lines("x\r\ny\r"));
}

#[test]
fn query_does_not_span_lines() {
    let empty: Vec<&str> = Vec::new();
    assert_eq!(empty, search("a\nb", "a\nb"));
}

#[test]
fn substring_test() {
    assert!(line_contains("safe, fast, productive.", "duct"));
    assert!(line_contains("abc", ""));
    assert!(line_contains("abc", "abc"));
    assert!(!line_contains("abc", "abcd"));
    assert!(!line_contains("abc", "ac"));
    assert!(line_contains("grüße", "üß"));
}

#[test]
fn insensitive_folds_non_ascii_letters() {
    let doc = "ÄPFEL\nbirnen";
    assert_eq!(vec!["ÄPFEL"], search_insensitive("äpf", doc));
}

#[test]
fn repeated_search_is_identical() {
    assert_eq!(search_lines("e", POEM, true), search_lines("e", POEM, true));
    assert_eq!(search("e", POEM), search("e", POEM));
}
