use minigrep::{Arguments, Config};

fn args_of(parts: &[&str]) -> Vec<String> {
    parts.iter().map(|p| p.to_string()).collect()
}

#[test]
fn arguments_case_insensitive() {
    let args = "i".to_string();
    let result = Arguments::CaseInsensitive;
    assert_eq!(Config::check_arguments(&args), result)
}

#[test]
fn check_arguments_without_signal() {
    let args = "abc".to_string();
    assert_eq!(Config::check_arguments(&args), Arguments::CaseSensitive);
}

#[test]
fn build_fails_without_positional_arguments() {
    let args = args_of(&["prog"]);
    assert_eq!(Config::build(&args).err(), Some("not enough arguments"));
}

#[test]
fn build_fails_with_only_a_query() {
    let args = args_of(&["prog", "needle"]);
    assert_eq!(Config::build(&args).err(), Some("not enough arguments"));
}

#[test]
fn build_sets_query_and_file_path() {
    let args = args_of(&["prog", "needle", "haystack.txt"]);
    let config = Config::build(&args).unwrap();
    assert_eq!(config.query, "needle");
    assert_eq!(config.file_path, "haystack.txt");
    assert_eq!(config.arguments, Arguments::CaseSensitive);
}

#[test]
fn build_flag_enables_case_insensitivity() {
    let args = args_of(&["prog", "needle", "haystack.txt", "-i"]);
    let config = Config::build(&args).unwrap();
    assert_eq!(config.arguments, Arguments::CaseInsensitive);
}

#[test]
fn build_flag_without_signal_stays_case_sensitive() {
    let args = args_of(&["prog", "needle", "haystack.txt", "-x"]);
    let config = Config::build(&args).unwrap();
    assert_eq!(config.arguments, Arguments::CaseSensitive);
}

#[test]
fn search_lines_case_sensitive_scenario() {
    let contents = "Rust:\nsafe, fast, productive.\nPick three.\nDuct tape.\nTrust me.";
    let config = Config {
        query: "duct".to_string(),
        file_path: "poem.txt".to_string(),
        arguments: Arguments::CaseSensitive,
    };
    assert_eq!(vec!["safe, fast, productive."], config.search_lines(contents));
}

#[test]
fn search_lines_case_insensitive_scenario() {
    let contents = "Rust:\nsafe, fast, productive.\nPick three.\nDuct tape.\nTrust me.";
    let config = Config {
        query: "rUsT".to_string(),
        file_path: "poem.txt".to_string(),
        arguments: Arguments::CaseInsensitive,
    };
    assert_eq!(vec!["Rust:", "Trust me."], config.search_lines(contents));
}
