use rust_grep::{parse_args, AppError, Config, MissingPart};

#[test]
fn no_arguments_misses_query() {
    let args: Vec<String> = vec![];
    let result = parse_args(&args, false);
    assert!(matches!(
        result,
        Err(AppError::MissingArgument(MissingPart::Query))
    ));
}

#[test]
fn one_argument_misses_filename() {
    let args = vec!["needle".to_string()];
    let result = parse_args(&args, false);
    assert!(matches!(
        result,
        Err(AppError::MissingArgument(MissingPart::Filename))
    ));
}

#[test]
fn two_arguments_resolve_case_sensitive() {
    let args = vec!["needle".to_string(), "haystack.txt".to_string()];
    let config = parse_args(&args, false).unwrap();
    assert_eq!(config.query, "needle");
    assert_eq!(config.filename, "haystack.txt");
    assert!(config.case_sensitive);
}

#[test]
fn environment_presence_disables_case_sensitivity() {
    let args = vec!["needle".to_string(), "haystack.txt".to_string()];
    let config = Config::new(&args, true).unwrap();
    assert_eq!(config.query, "needle");
    assert_eq!(config.filename, "haystack.txt");
    assert!(!config.case_sensitive);
}

#[test]
fn extra_arguments_are_ignored() {
    let args = vec!["q".to_string(), "f".to_string(), "extra".to_string()];
    let config = parse_args(&args, false).unwrap();
    assert_eq!(config.query, "q");
    assert_eq!(config.filename, "f");
}

#[test]
fn missing_argument_messages_name_the_argument() {
    assert_eq!(
        AppError::MissingArgument(MissingPart::Query).message(),
        "Didn't get a query string"
    );
    assert_eq!(
        AppError::MissingArgument(MissingPart::Filename).message(),
        "Didn't get a file name"
    );
}

#[test]
fn io_error_message_carries_reason() {
    assert_eq!(
        AppError::IoError("No such file".to_string()).message(),
        "No such file"
    );
}
