use blink::{parse_pid, PythonExecutionResult};

#[test]
fn zero_exit_code_is_success() {
    let r = PythonExecutionResult::from_exit(Some(0), "out".to_string(), String::new());
    assert!(r.success);
    assert_eq!(r.exit_code, Some(0));
    assert_eq!(r.stdout, "out");
    assert_eq!(r.stderr, "");
}

#[test]
fn other_exit_is_failure() {
    assert!(!PythonExecutionResult::from_exit(Some(1), String::new(), "err".to_string()).success);
    assert!(!PythonExecutionResult::from_exit(Some(-1), String::new(), String::new()).success);
    assert!(!PythonExecutionResult::from_exit(None, String::new(), String::new()).success);
}

#[test]
fn pid_text_with_surrounding_white_space() {
    assert_eq!(parse_pid(" 1234\n"), Some(1234));
    assert_eq!(parse_pid("\t42\r\n"), Some(42));
    assert_eq!(parse_pid("\u{a0}42\u{2003}"), Some(42));
    assert_eq!(parse_pid("7"), Some(7));
}

#[test]
fn pid_text_with_plus_sign() {
    assert_eq!(parse_pid("+7"), Some(7));
    assert_eq!(parse_pid("+"), None);
    assert_eq!(parse_pid("++7"), None);
}

#[test]
fn pid_text_that_is_no_number() {
    assert_eq!(parse_pid(""), None);
    assert_eq!(parse_pid("   "), None);
    assert_eq!(parse_pid("-1"), None);
    assert_eq!(parse_pid("12a"), None);
    assert_eq!(parse_pid("1 2"), None);
    assert_eq!(parse_pid("\u{ff11}\u{ff12}"), None);
}

#[test]
fn pid_text_at_the_limit() {
    assert_eq!(parse_pid("4294967295"), Some(u32::MAX));
    assert_eq!(parse_pid("4294967296"), None);
    assert_eq!(parse_pid("99999999999999999999999"), None);
    assert_eq!(parse_pid("0004294967295"), Some(u32::MAX));
    assert_eq!(parse_pid("0"), Some(0));
}
