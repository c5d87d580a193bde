use lightgrep::{exit_code, Config, Failure};

#[test]
fn missing_filename_is_reported_as_a_problem_with_the_arguments() {
    let words = vec!["lgrep".to_string(), "duct".to_string()];
    let outcome = Config::new(words.into_iter(), |_name: &str| None);
    let failure = Failure::Arguments(outcome.unwrap_err());
    let line = failure.message();
    assert_eq!("Problem parsing arguments: Did not get a file name", line);
    assert!(line.contains("arguments"));
    assert_eq!(1, exit_code(&Err(failure)));
}

#[test]
fn missing_query_is_reported_as_a_problem_with_the_arguments() {
    let failure = Failure::Arguments("Did not get a query string");
    assert_eq!("Problem parsing arguments: Did not get a query string", failure.message());
}

#[test]
fn failed_read_is_reported_as_an_application_error() {
    let failure = Failure::Application("No such file or directory (os error 2)".to_string());
    let line = failure.message();
    assert_eq!("Application error: No such file or directory (os error 2)", line);
    assert!(line.contains("error"));
    assert_eq!(1, exit_code(&Err(failure)));
}

#[test]
fn empty_message_leaves_the_prefix() {
    assert_eq!("Application error: ", Failure::Application(String::new()).message());
    assert_eq!("Problem parsing arguments: ", Failure::Arguments("").message());
}

#[test]
fn run_that_went_through_exits_with_zero() {
    assert_eq!(0, exit_code(&Ok(())));
}
