use rust_grep::{contains_substr, search, search_case_insensitive, search_with_config, Config};

#[test]
fn one_result() {
    let query = "duct";
    let contents = "\
Rust:
safe, fast, productive.
Pick three.";

    assert_eq!(vec!["safe, fast, productive."], search(query, contents));
}

#[test]
fn case_insensitive() {
    let query = "rUsT";
    let contents = "\
Rust:
safe, fast, productive.
Pick three
Trust me.";

    assert_eq!(
        vec!["Rust:", "Trust me."],
        search_case_insensitive(query, contents)
    );
}

#[test]
fn finds_lines_in_original_order() {
    let results = search("alpha", "alpha\nbeta\nalphabet\ngamma");
    assert_eq!(results, vec!["alpha", "alphabet"]);
}

#[test]
fn insensitive_superset_of_sensitive() {
    let contents = "rust is here\nno match\ntrust\nRUST";
    let sensitive = search("rust", contents);
    let insensitive = search_case_insensitive("rust", contents);
    for line in &sensitive {
        assert!(insensitive.contains(line));
    }
    assert_eq!(sensitive, vec!["rust is here", "trust"]);
    assert_eq!(insensitive, vec!["rust is here", "trust", "RUST"]);
}

#[test]
fn searching_twice_gives_identical_results() {
    let contents = "one\ntwo\nthree";
    assert_eq!(search("t", contents), search("t", contents));
    assert_eq!(
        search_case_insensitive("T", contents),
        search_case_insensitive("T", contents)
    );
}

#[test]
fn empty_content_yields_empty_result() {
    assert_eq!(search("anything", ""), Vec::<&str>::new());
    assert_eq!(search_case_insensitive("anything", ""), Vec::<&str>::new());
}

#[test]
fn empty_query_matches_every_line() {
    assert_eq!(search("", "a\nb\nc"), vec!["a", "b", "c"]);
    assert_eq!(search_case_insensitive("", "a\nb\nc"), vec!["a", "b", "c"]);
}

#[test]
fn trailing_newline_gives_no_extra_line() {
    assert_eq!(search("", "a\nb\n"), vec!["a", "b"]);
}

#[test]
fn carriage_return_before_newline_is_stripped() {
    assert_eq!(search("", "one\r\ntwo\r\n"), vec!["one", "two"]);
    assert_eq!(search("ne", "one\r\ntwo"), vec!["one"]);
}

#[test]
fn lone_carriage_return_stays_in_line() {
    assert_eq!(search("", "a\rb\nc"), vec!["a\rb", "c"]);
}

#[test]
fn insensitive_search_really_lowercases() {
    assert_eq!(
        search_case_insensitive("RUST", "rust is good\nnothing"),
        vec!["rust is good"]
    );
    assert_eq!(search("RUST", "rust is good\nnothing"), Vec::<&str>::new());
}

#[test]
fn search_with_config_selects_variant() {
    let sensitive = Config {
        query: "rUsT".to_string(),
        filename: "unused".to_string(),
        case_sensitive: true,
    };
    let insensitive = Config {
        query: "rUsT".to_string(),
        filename: "unused".to_string(),
        case_sensitive: false,
    };
    let contents = "Rust:\nTrust me.";
    assert_eq!(search_with_config(&sensitive, contents), Vec::<&str>::new());
    assert_eq!(
        search_with_config(&insensitive, contents),
        vec!["Rust:", "Trust me."]
    );
}

#[test]
fn contains_substr_finds_substrings() {
    assert!(contains_substr("hello world", "o w"));
    assert!(!contains_substr("hello", "world"));
    assert!(contains_substr("abc", ""));
    assert!(!contains_substr("", "a"));
    assert!(contains_substr("aab", "ab"));
}
