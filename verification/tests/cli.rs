use rologlyphex::cli::{parse_args, CliError, Invocation, ValueFlag};

fn args(a: &[&str]) -> Vec<String> {
    a.iter().map(|s| s.to_string()).collect()
}

#[test]
fn client_subcommands() {
    assert!(matches!(parse_args(&args(&["show"])), Invocation::Show));
    assert!(matches!(parse_args(&args(&["type", "→"])), Invocation::Type { ch: '→', verbose: false, extra: false }));
    assert!(matches!(parse_args(&args(&["type", "-v", "abc"])), Invocation::Type { ch: 'a', verbose: true, extra: true }));
    assert!(matches!(parse_args(&args(&["type"])), Invocation::Fail(CliError::TypeMissingChar)));
    assert!(matches!(parse_args(&args(&["type", "--verbose"])), Invocation::Fail(CliError::TypeMissingChar)));
    assert!(matches!(parse_args(&args(&["type", ""])), Invocation::Fail(CliError::TypeNotOneChar)));
}

#[test]
fn daemon_flags_are_collected() {
    match parse_args(&args(&["-c", "/tmp/layers.toml", "--timeout", "2000", "-s", "800", "-v", "-m", "DP-1", "--corner", "bl"])) {
        Invocation::Daemon(f) => {
            assert_eq!(f.layers, Some("/tmp/layers.toml".to_string()));
            assert_eq!(f.timeout, Some(2000));
            assert_eq!(f.size, Some("800".to_string()));
            assert_eq!(f.verbose, Some(true));
            assert_eq!(f.monitor, Some("DP-1".to_string()));
            assert_eq!(f.corner, Some("bl".to_string()));
        }
        _ => panic!("expected daemon mode"),
    }
    match parse_args(&args(&[])) {
        Invocation::Daemon(f) => {
            assert_eq!(f.layers, None);
            assert_eq!(f.verbose, None);
        }
        _ => panic!("expected daemon mode"),
    }
}

#[test]
fn daemon_flag_errors() {
    assert!(matches!(parse_args(&args(&["--config"])), Invocation::Fail(CliError::MissingValue(ValueFlag::Config))));
    assert!(matches!(parse_args(&args(&["-t", "soon"])), Invocation::Fail(CliError::TimeoutNotNumber)));
    assert!(matches!(parse_args(&args(&["--corner"])), Invocation::Fail(CliError::MissingValue(ValueFlag::Corner))));
    match parse_args(&args(&["--bogus"])) {
        Invocation::Fail(CliError::UnknownArgument(a)) => assert_eq!(a, "--bogus"),
        _ => panic!("expected an unknown-argument error"),
    }
    assert!(matches!(parse_args(&args(&["-v", "--help", "--bogus"])), Invocation::Help));
}
