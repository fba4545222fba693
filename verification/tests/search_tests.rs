use minigrep::{search, search_case_insesitive};

#[test]
fn case_sensitive() {
    let query = "duct";
    let contents = "\
Rust:
safe, fast, productive.
Pick three.
Duct tape.
Trust me.";
    assert_eq!(vec!["safe, fast, productive."], search(query, contents));
}

#[test]
fn case_insensitive() {
    let query = "rUsT";
    let contents = "\
Rust:
safe, fast, productive.
Pick three.
Duct tape.
Trust me.";
    assert_eq!(vec!["Rust:", "Trust me."], search_case_insesitive(query, contents));
}

#[test]
fn empty_query_returns_every_line() {
    let contents = "one\ntwo\nthree";
    assert_eq!(vec!["one", "two", "three"], search("", contents));
}

#[test]
fn empty_contents_give_no_lines() {
    assert_eq!(Vec::<&str>::new(), search("", ""));
    assert_eq!(Vec::<&str>::new(), search("x", ""));
}

#[test]
fn trailing_newline_opens_no_empty_line() {
    let contents = "alpha\nbeta\n";
    assert_eq!(vec!["alpha", "beta"], search("", contents));
}

#[test]
fn inner_empty_lines_are_kept() {
    let contents = "alpha\n\nbeta";
    assert_eq!(vec!["alpha", "", "beta"], search("", contents));
}

#[test]
fn no_match_returns_empty() {
    let contents = "alpha\nbeta";
    assert_eq!(Vec::<&str>::new(), search("gamma", contents));
}

#[test]
fn duplicate_lines_appear_once_per_occurrence() {
    let contents = "echo\nother\necho";
    assert_eq!(vec!["echo", "echo"], search("echo", contents));
}

#[test]
fn case_insensitive_returns_original_casing() {
    let contents = "LOUD LINE\nquiet line";
    assert_eq!(vec!["LOUD LINE"], search_case_insesitive("loud", contents));
}

#[test]
fn case_insensitive_includes_every_sensitive_match() {
    let query = "Rust";
    let contents = "\
Rust:
safe, fast, productive.
Pick three.
Duct tape.
Trust me.";
    let sensitive = search(query, contents);
    let insensitive = search_case_insesitive(query, contents);
    for line in sensitive {
        assert!(insensitive.contains(&line));
    }
}
