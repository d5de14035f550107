use j2e::command::{is_option, parse_args, ParseOutcome};

#[test]
fn zero_arguments_ask_for_usage() {
    let args: Vec<String> = vec![];
    assert!(matches!(parse_args(&args), ParseOutcome::Help));
}

#[test]
fn lone_help_flag_asks_for_usage() {
    let args = vec!["--help".to_string()];
    assert!(matches!(parse_args(&args), ParseOutcome::Help));
    let args = vec!["-h".to_string()];
    assert!(matches!(parse_args(&args), ParseOutcome::Help));
}

#[test]
fn lone_version_flag_asks_for_version() {
    let args = vec!["--version".to_string()];
    assert!(matches!(parse_args(&args), ParseOutcome::Version));
    let args = vec!["-v".to_string()];
    assert!(matches!(parse_args(&args), ParseOutcome::Version));
}

#[test]
fn unknown_option_is_unexpected() {
    let args = vec!["-x".to_string()];
    assert!(matches!(parse_args(&args), ParseOutcome::UnexpectedOption));
    let args = vec!["--verbose".to_string()];
    assert!(matches!(parse_args(&args), ParseOutcome::UnexpectedOption));
}

#[test]
fn one_path_is_too_few_arguments() {
    let args = vec!["input.json".to_string()];
    assert!(matches!(parse_args(&args), ParseOutcome::InvalidArgs));
}

#[test]
fn two_paths_run_the_converter() {
    let args = vec!["in.json".to_string(), "out.env".to_string()];
    match parse_args(&args) {
        ParseOutcome::Run(a) => {
            assert_eq!(a.input, "in.json");
            assert_eq!(a.output, "out.env");
        }
        _ => panic!("expected a run"),
    }
}

#[test]
fn extra_arguments_are_ignored() {
    let args = vec!["in.json".to_string(), "out.env".to_string(), "extra".to_string()];
    match parse_args(&args) {
        ParseOutcome::Run(a) => {
            assert_eq!(a.input, "in.json");
            assert_eq!(a.output, "out.env");
        }
        _ => panic!("expected a run"),
    }
}

#[test]
fn option_flags_start_with_a_dash() {
    assert!(is_option("-v"));
    assert!(is_option("--anything"));
    assert!(!is_option("plain"));
    assert!(!is_option(""));
}

#[test]
fn an_option_first_of_two_is_still_a_path() {
    let args = vec!["-h".to_string(), "out.env".to_string()];
    match parse_args(&args) {
        ParseOutcome::Run(a) => {
            assert_eq!(a.input, "-h");
            assert_eq!(a.output, "out.env");
        }
        _ => panic!("expected a run"),
    }
}
