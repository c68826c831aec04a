use mini_grep::config::{parse_i32, Config, RunError};

fn two_args() -> Vec<String> {
    vec![String::from("needle"), String::from("haystack.txt")]
}

#[test]
fn missing_argument_with_one_arg() {
    let args = vec![String::from("needle")];
    let r = Config::new(&args, Some(String::from("1")));
    assert_eq!(Err(RunError::MissingArgument), r.map(|_| ()));
}

#[test]
fn missing_argument_with_no_args() {
    let args: Vec<String> = Vec::new();
    let r = Config::new(&args, Some(String::from("1")));
    assert_eq!(Err(RunError::MissingArgument), r.map(|_| ()));
}

#[test]
fn missing_argument_wins_over_missing_environment() {
    let args = vec![String::from("needle")];
    let r = Config::new(&args, None);
    assert_eq!(Err(RunError::MissingArgument), r.map(|_| ()));
}

#[test]
fn missing_environment_with_valid_args() {
    let r = Config::new(&two_args(), None);
    assert_eq!(Err(RunError::MissingEnvironment), r.map(|_| ()));
}

#[test]
fn invalid_environment_value_not_numeric() {
    let r = Config::new(&two_args(), Some(String::from("yes")));
    assert_eq!(Err(RunError::InvalidEnvironmentValue), r.map(|_| ()));
}

#[test]
fn invalid_environment_value_empty() {
    let r = Config::new(&two_args(), Some(String::from("")));
    assert_eq!(Err(RunError::InvalidEnvironmentValue), r.map(|_| ()));
}

#[test]
fn invalid_environment_value_fractional() {
    let r = Config::new(&two_args(), Some(String::from("1.5")));
    assert_eq!(Err(RunError::InvalidEnvironmentValue), r.map(|_| ()));
}

#[test]
fn environment_one_means_case_sensitive() {
    let config = Config::new(&two_args(), Some(String::from("1"))).unwrap();
    assert!(config.case_sensitive);
    assert_eq!("needle", config.query);
    assert_eq!("haystack.txt", config.filename);
}

#[test]
fn environment_plus_one_means_case_sensitive() {
    let config = Config::new(&two_args(), Some(String::from("+1"))).unwrap();
    assert!(config.case_sensitive);
}

#[test]
fn environment_zero_means_case_insensitive() {
    let config = Config::new(&two_args(), Some(String::from("0"))).unwrap();
    assert!(!config.case_sensitive);
}

#[test]
fn environment_negative_means_case_insensitive() {
    let config = Config::new(&two_args(), Some(String::from("-7"))).unwrap();
    assert!(!config.case_sensitive);
}

#[test]
fn extra_arguments_are_ignored() {
    let args = vec![
        String::from("needle"),
        String::from("haystack.txt"),
        String::from("extra"),
    ];
    let config = Config::new(&args, Some(String::from("1"))).unwrap();
    assert_eq!("needle", config.query);
    assert_eq!("haystack.txt", config.filename);
}

#[test]
fn parse_accepts_plain_and_signed_integers() {
    assert_eq!(Some(7), parse_i32("7"));
    assert_eq!(Some(7), parse_i32("007"));
    assert_eq!(Some(-42), parse_i32("-42"));
    assert_eq!(Some(42), parse_i32("+42"));
    assert_eq!(Some(0), parse_i32("0"));
}

#[test]
fn parse_accepts_the_extremes() {
    assert_eq!(Some(2147483647), parse_i32("2147483647"));
    assert_eq!(Some(-2147483648), parse_i32("-2147483648"));
}

#[test]
fn parse_rejects_out_of_range_values() {
    assert_eq!(None, parse_i32("2147483648"));
    assert_eq!(None, parse_i32("-2147483649"));
    assert_eq!(None, parse_i32("99999999999999999999"));
}

#[test]
fn parse_rejects_malformed_text() {
    assert_eq!(None, parse_i32(""));
    assert_eq!(None, parse_i32("+"));
    assert_eq!(None, parse_i32("-"));
    assert_eq!(None, parse_i32("--5"));
    assert_eq!(None, parse_i32("1 "));
    assert_eq!(None, parse_i32(" 1"));
    assert_eq!(None, parse_i32("12a"));
}

#[test]
fn error_messages_name_the_failure() {
    assert_eq!("not enough arguments", RunError::MissingArgument.message());
    assert_eq!(
        "the CASE_SENSITIVE environment variable is not set",
        RunError::MissingEnvironment.message()
    );
    assert_eq!(
        "the CASE_SENSITIVE environment variable is not an integer",
        RunError::InvalidEnvironmentValue.message()
    );
    assert_eq!("could not read the file", RunError::FileReadError.message());
}
