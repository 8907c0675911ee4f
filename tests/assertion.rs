use dek::assertion::{AssertError, AssertMode, Assertion};
use dek::item::CheckResult;

fn detail(r: Result<CheckResult, AssertError>) -> Option<String> {
    match r {
        Ok(CheckResult::Satisfied) => None,
        Ok(CheckResult::Missing { detail }) => Some(detail),
        Err(_) => panic!("unexpected pattern error"),
    }
}

#[test]
fn parses_encoded_value() {
    let a = Assertion::parse("test -d /x\0check\0^ok\0\0disk missing");
    assert_eq!(a.cmd, "test -d /x");
    assert_eq!(a.mode, AssertMode::Check);
    assert_eq!(a.stdout_pattern.as_deref(), Some("^ok"));
    assert_eq!(a.stderr_pattern, None);
    assert_eq!(a.message.as_deref(), Some("disk missing"));
    let f = Assertion::parse("ls\0foreach");
    assert_eq!(f.mode, AssertMode::Foreach);
    assert_eq!(f.message, None);
    let bare = Assertion::parse("true");
    assert_eq!((bare.cmd.as_str(), bare.mode), ("true", AssertMode::Check));
    let extra = Assertion::parse("a\0check\0\0\0m\0n");
    assert_eq!(extra.message.as_deref(), Some("m\0n"));
}

#[test]
fn foreach_lines_are_findings() {
    let a = Assertion::parse("find\0foreach");
    assert_eq!(detail(a.judge(true, 0, "", "")), None);
    assert_eq!(detail(a.judge(true, 0, "\n\r\n", "")), None);
    assert_eq!(detail(a.judge(true, 0, "a\r\n\nb\n", "")), Some("a, b".to_string()));
}

#[test]
fn failing_command_reports_exit_or_message() {
    let a = Assertion::parse("false\0check");
    assert_eq!(detail(a.judge(false, 2, "", "  boom \n")), Some("exit 2: boom".to_string()));
    assert_eq!(detail(a.judge(false, -1, "", "")), Some("exit -1: ".to_string()));
    let m = Assertion::parse("false\0check\0\0\0custom");
    assert_eq!(detail(m.judge(false, 1, "", "x")), Some("custom".to_string()));
}

#[test]
fn output_patterns_must_match() {
    let a = Assertion::parse("v\0check\0^1\\.\0warn");
    assert_eq!(detail(a.judge(true, 0, "1.2\n", "warning")), None);
    assert_eq!(
        detail(a.judge(true, 0, " 2.0 \n", "warning")),
        Some("stdout '2.0' doesn't match '^1\\.'".to_string())
    );
    assert_eq!(detail(a.judge(true, 0, "1.2", "")), Some("stderr '' doesn't match 'warn'".to_string()));
    let bad = Assertion::parse("v\0check\0(");
    assert!(matches!(bad.judge(true, 0, "", ""), Err(AssertError::InvalidPattern { pattern }) if pattern == "("));
}
