use port_scanner::args::{contains, parse_u16, usage, ArgError, Arguments, ArgsOutcome};

fn argv(items: &[&str]) -> Vec<String> {
    items.iter().map(|s| s.to_string()).collect()
}

fn error_of(items: &[&str]) -> Option<ArgError> {
    match Arguments::new(&argv(items)) {
        ArgsOutcome::InvalidArguments(e) => Some(e),
        _ => None,
    }
}

#[test]
fn threads_and_target() {
    match Arguments::new(&argv(&["scan", "-j", "4", "127.0.0.1"])) {
        ArgsOutcome::ParsedOk(a) => {
            assert_eq!(a.threads, 4);
            assert_eq!(a.target, "127.0.0.1");
        }
        _ => panic!("expected a scan"),
    }
}

#[test]
fn help_flags() {
    assert!(matches!(Arguments::new(&argv(&["scan", "-h"])), ArgsOutcome::HelpRequested));
    assert!(matches!(
        Arguments::new(&argv(&["scan", "--help", "x"])),
        ArgsOutcome::HelpRequested
    ));
    assert!(matches!(
        Arguments::new(&argv(&["scan", "-h", "not a host!!"])),
        ArgsOutcome::HelpRequested
    ));
    assert!(usage().starts_with("Usage:"));
}

#[test]
fn argument_errors() {
    assert_eq!(error_of(&[]), Some(ArgError::NotEnoughArguments));
    assert_eq!(error_of(&["scan"]), Some(ArgError::NotEnoughArguments));
    assert_eq!(error_of(&["scan", "-j", "4", "a", "b", "c"]), Some(ArgError::TooManyArguments));
    assert_eq!(error_of(&["scan", "-j", "many", "host"]), Some(ArgError::BadThreadCount));
    assert_eq!(error_of(&["scan", "-j", "65536", "host"]), Some(ArgError::BadThreadCount));
    assert_eq!(error_of(&["scan", "-j"]), Some(ArgError::BadThreadCount));
    assert_eq!(error_of(&["scan", "-x", "4", "host"]), Some(ArgError::UnrecognizedFlag));
    assert_eq!(ArgError::TooManyArguments.message(), "Too many arguments");
}

#[test]
fn thread_count_parsing() {
    assert_eq!(parse_u16("0"), Some(0));
    assert_eq!(parse_u16("65535"), Some(65535));
    assert_eq!(parse_u16("+12"), Some(12));
    assert_eq!(parse_u16("007"), Some(7));
    assert_eq!(parse_u16("65536"), None);
    assert_eq!(parse_u16("99999999999"), None);
    assert_eq!(parse_u16(""), None);
    assert_eq!(parse_u16("+"), None);
    assert_eq!(parse_u16("-1"), None);
    assert_eq!(parse_u16(" 1"), None);
    for s in ["0", "1", "80", "443", "65535", "65536", "+5", "-5", "1a", "", "+"] {
        assert_eq!(parse_u16(s), s.parse::<u16>().ok(), "{}", s);
    }
}

#[test]
fn substring_search() {
    assert!(contains("--help", "-h"));
    assert!(contains("x-jy", "-j"));
    assert!(contains("abc", ""));
    assert!(!contains("-", "-j"));
    assert!(!contains("j-", "-j"));
}
