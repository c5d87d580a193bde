use lightgrep::config::{CASE_VARIABLE, MISSING_FILENAME, MISSING_QUERY};
use lightgrep::{run, Config};

fn arguments(words: &[&str]) -> std::vec::IntoIter<String> {
    let owned: Vec<String> = words.iter().map(|word| word.to_string()).collect();
    owned.into_iter()
}

fn unset(_name: &str) -> Option<String> {
    None
}

fn set(_name: &str) -> Option<String> {
    Some("1".to_string())
}

#[test]
fn query_and_filename_follow_the_program_name() {
    let config = Config::new(arguments(&["lgrep", "duct", "poem.txt"]), unset).unwrap();
    assert_eq!("duct", config.query());
    assert_eq!("poem.txt", config.filename());
    assert!(config.case_sensitive());
}

#[test]
fn missing_filename_is_an_error() {
    let outcome = Config::new(arguments(&["lgrep", "duct"]), unset);
    assert_eq!("Did not get a file name", outcome.unwrap_err());
}

#[test]
fn missing_query_is_an_error() {
    let outcome = Config::new(arguments(&["lgrep"]), unset);
    assert_eq!("Did not get a query string", outcome.unwrap_err());
}

#[test]
fn no_argument_at_all_is_an_error() {
    let outcome = Config::new(arguments(&[]), unset);
    assert_eq!(MISSING_QUERY, outcome.unwrap_err());
    assert_ne!(MISSING_QUERY, MISSING_FILENAME);
}

#[test]
fn further_arguments_are_not_looked_at() {
    let config = Config::new(arguments(&["lgrep", "duct", "poem.txt", "more", ""]), unset)
        .unwrap();
    assert_eq!("duct", config.query());
    assert_eq!("poem.txt", config.filename());
}

#[test]
fn empty_query_is_no_query() {
    let outcome = Config::new(arguments(&["lgrep", "", "poem.txt"]), unset);
    assert_eq!(MISSING_QUERY, outcome.unwrap_err());
    let outcome = Config::new(arguments(&["lgrep", ""]), unset);
    assert_eq!(MISSING_QUERY, outcome.unwrap_err());
}

#[test]
fn empty_filename_is_no_filename() {
    let outcome = Config::new(arguments(&["lgrep", "duct", ""]), unset);
    assert_eq!(MISSING_FILENAME, outcome.unwrap_err());
    let outcome = Config::new(arguments(&["lgrep", "duct", "", "poem.txt"]), unset);
    assert_eq!(MISSING_FILENAME, outcome.unwrap_err());
}

#[test]
fn empty_program_name_does_not_matter() {
    let config = Config::new(arguments(&["", "duct", "poem.txt"]), unset).unwrap();
    assert_eq!("duct", config.query());
}

#[test]
fn variable_that_is_set_makes_the_search_case_insensitive() {
    let config = Config::new(arguments(&["lgrep", "duct", "poem.txt"]), set).unwrap();
    assert!(!config.case_sensitive());
}

#[test]
fn variable_set_to_the_empty_string_counts_as_set() {
    let config = Config::new(arguments(&["lgrep", "duct", "poem.txt"]), |_name: &str| {
        Some(String::new())
    })
    .unwrap();
    assert!(!config.case_sensitive());
}

#[test]
fn the_variable_asked_for_is_lgrep_case_insensitive() {
    assert_eq!("LGREP_CASE_INSENSITIVE", CASE_VARIABLE);
    let environment = |name: &str| {
        if name == "LGREP_CASE_INSENSITIVE" {
            Some(String::new())
        } else {
            None
        }
    };
    let config = Config::new(arguments(&["lgrep", "duct", "poem.txt"]), environment).unwrap();
    assert!(!config.case_sensitive());

    let other = |name: &str| {
        if name == "CASE_INSENSITIVE" {
            Some("1".to_string())
        } else {
            None
        }
    };
    let config = Config::new(arguments(&["lgrep", "duct", "poem.txt"]), other).unwrap();
    assert!(config.case_sensitive());
}

#[test]
fn run_searches_as_the_configuration_says() {
    let contents = "Rust:\nsafe, fast, productive.\nPick three.\nTrust me.";
    let exact = Config::new(arguments(&["lgrep", "rUsT", "poem.txt"]), unset).unwrap();
    assert!(run(exact, contents).is_empty());

    let loose = Config::new(arguments(&["lgrep", "rUsT", "poem.txt"]), set).unwrap();
    assert_eq!(vec!["Rust:", "Trust me."], run(loose, contents));
}

#[test]
fn run_with_no_match_writes_nothing() {
    let config = Config::new(arguments(&["lgrep", "duct", "poem.txt"]), unset).unwrap();
    assert!(run(config, "Pick three.\nDuct tape.").is_empty());
}

#[test]
fn run_keeps_the_order_of_the_lines() {
    let config = Config::new(arguments(&["lgrep", "duct", "poem.txt"]), unset).unwrap();
    let contents = "Rust:\nsafe, fast, productive.\nPick three.\nDuct tape.\nmore ducts";
    assert_eq!(vec!["safe, fast, productive.", "more ducts"], run(config, contents));
}
