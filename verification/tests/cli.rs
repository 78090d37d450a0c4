use serve::cli::{parse_args, parse_port, Command};

fn args(v: &[&str]) -> Vec<String> {
    v.iter().map(|s| s.to_string()).collect()
}

fn serve(v: &[&str]) -> (String, u16, bool, bool) {
    match parse_args(&args(v)) {
        Command::Serve(c) => (c.root, c.port, c.https, c.ignore_index),
        Command::Usage => panic!("usage"),
        Command::Version => panic!("version"),
    }
}

#[test]
fn ports_parse_like_u16() {
    assert_eq!(parse_port("8080"), Some(8080));
    assert_eq!(parse_port("+80"), Some(80));
    assert_eq!(parse_port("0065535"), Some(65535));
    assert_eq!(parse_port("0"), Some(0));
    assert_eq!(parse_port("65536"), None);
    assert_eq!(parse_port("99999999999999999999"), None);
    assert_eq!(parse_port("+"), None);
    assert_eq!(parse_port(""), None);
    assert_eq!(parse_port("-1"), None);
    assert_eq!(parse_port("12a"), None);
    assert_eq!(parse_port(" 1"), None);
    assert_eq!(parse_port("++1"), None);
}

#[test]
fn usage_and_version() {
    assert!(matches!(parse_args(&args(&["serve"])), Command::Usage));
    assert!(matches!(parse_args(&args(&[])), Command::Usage));
    assert!(matches!(parse_args(&args(&["serve", ".", "--help"])), Command::Usage));
    assert!(matches!(parse_args(&args(&["--help"])), Command::Usage));
    assert!(matches!(parse_args(&args(&["serve", "--version"])), Command::Version));
    assert!(matches!(parse_args(&args(&["serve", "--version", "--help"])), Command::Usage));
    assert!(matches!(parse_args(&args(&["serve", "--https", "-i"])), Command::Usage));
}

#[test]
fn defaults() {
    assert_eq!(serve(&["serve", "."]), (".".to_string(), 8000, false, false));
}

#[test]
fn flags_and_port() {
    assert_eq!(serve(&["serve", "public", "3000"]), ("public".to_string(), 3000, false, false));
    assert_eq!(serve(&["serve", "site", "8443", "--https"]), ("site".to_string(), 8443, true, false));
    assert_eq!(serve(&["serve", ".", "-i"]), (".".to_string(), 8000, false, true));
    assert_eq!(serve(&["serve", ".", "5000", "--http"]), (".".to_string(), 5000, false, false));
    assert_eq!(serve(&["serve", "--https", "--http", "x"]), ("x".to_string(), 8000, false, false));
    assert_eq!(serve(&["serve", "--http", "--https", "x"]), ("x".to_string(), 8000, true, false));
}

#[test]
fn later_arguments() {
    assert_eq!(serve(&["serve", "a", "b", "4000", "nope", "5000"]), ("a".to_string(), 5000, false, false));
    assert_eq!(serve(&["serve", "7000"]), ("7000".to_string(), 8000, false, false));
    assert_eq!(serve(&["serve", "a", "70000"]), ("a".to_string(), 8000, false, false));
}
