use mihomo_tui::cli::{api_url_for, parse_args, CliRequest};

fn args(list: &[&str]) -> Vec<String> {
    list.iter().map(|s| s.to_string()).collect()
}

#[test]
fn no_arguments_use_the_default_address() {
    match parse_args(&args(&[])) {
        CliRequest::Run { api_addr, secret } => {
            assert_eq!(api_addr, "127.0.0.1:9090");
            assert_eq!(secret, None);
        }
        _ => panic!("expected Run"),
    }
}

#[test]
fn api_and_secret_are_read() {
    match parse_args(&args(&["--api", "10.0.0.1:9999", "--secret", "tok"])) {
        CliRequest::Run { api_addr, secret } => {
            assert_eq!(api_addr, "10.0.0.1:9999");
            assert_eq!(secret, Some("tok".to_string()));
        }
        _ => panic!("expected Run"),
    }
}

#[test]
fn later_option_overrides_earlier() {
    match parse_args(&args(&["--api", "a:1", "--api", "b:2"])) {
        CliRequest::Run { api_addr, .. } => assert_eq!(api_addr, "b:2"),
        _ => panic!("expected Run"),
    }
}

#[test]
fn help_stops_reading() {
    assert!(matches!(parse_args(&args(&["--help", "--bogus"])), CliRequest::Help));
    assert!(matches!(parse_args(&args(&["-h"])), CliRequest::Help));
}

#[test]
fn missing_values_are_reported() {
    match parse_args(&args(&["--api"])) {
        CliRequest::MissingValue(f) => assert_eq!(f, "--api"),
        _ => panic!("expected MissingValue"),
    }
    match parse_args(&args(&["--api", "x:1", "--secret"])) {
        CliRequest::MissingValue(f) => assert_eq!(f, "--secret"),
        _ => panic!("expected MissingValue"),
    }
}

#[test]
fn unknown_argument_is_reported() {
    match parse_args(&args(&["--verbose"])) {
        CliRequest::Unknown(a) => assert_eq!(a, "--verbose"),
        _ => panic!("expected Unknown"),
    }
}

#[test]
fn api_url_prefixes_http() {
    assert_eq!(api_url_for("127.0.0.1:9090"), "http://127.0.0.1:9090");
}
