use cliche::command::{with_ext, CommandResult, CommandSpec, ExitCode};
use cliche::error::Error;
use cliche::verify::{check_empty_stdout, check_result};

fn spec_with(
    stdout: Option<&[u8]>,
    stdout_pat: Option<&[u8]>,
    stderr: Option<&[u8]>,
    exit_code: Option<&[u8]>,
) -> CommandSpec {
    CommandSpec::new(
        "foo.sh".to_string(),
        stdout.map(|b| ("foo.out".to_string(), b.to_vec())),
        stdout_pat.map(|b| ("foo.out.pattern".to_string(), b.to_vec())),
        stderr.map(|b| ("foo.err".to_string(), b.to_vec())),
        exit_code.map(|b| ("foo.exit".to_string(), b.to_vec())),
    )
}

#[test]
fn test_no_expected_exit_code() {
    let cmd = spec_with(None, None, None, None);
    let res = CommandResult::new(0.into(), &[], &[]);
    assert!(check_result(&cmd, &res).is_ok())
}

#[test]
fn exit_code_fixture_is_trimmed_and_parsed() {
    let cmd = spec_with(None, None, None, Some(b"  42\n"));
    assert_eq!(cmd.exit_code().unwrap().as_i32(), 42);

    let cmd = spec_with(None, None, None, Some(b"-7"));
    assert_eq!(cmd.exit_code().unwrap().as_i32(), -7);

    let cmd = spec_with(None, None, None, Some(b"+0"));
    assert_eq!(cmd.exit_code().unwrap().as_i32(), 0);

    let cmd = spec_with(None, None, None, None);
    assert_eq!(cmd.exit_code().unwrap().as_i32(), 0);
}

#[test]
fn unreadable_exit_code_fixture_is_an_error() {
    let cmd = spec_with(None, None, None, Some(b"abc"));
    assert_eq!(
        cmd.exit_code(),
        Err(Error::FileNotInteger {
            path: "foo.exit".to_string()
        })
    );

    let cmd = spec_with(None, None, None, Some(b""));
    assert!(cmd.exit_code().is_err());

    // far past the i32 range
    let cmd = spec_with(None, None, None, Some(b"99999999999999999999"));
    assert_eq!(
        cmd.exit_code(),
        Err(Error::FileNotInteger {
            path: "foo.exit".to_string()
        })
    );

    let cmd = spec_with(None, None, None, Some(&[0xff, 0xfe]));
    assert_eq!(
        cmd.exit_code(),
        Err(Error::FileNotUtf8 {
            path: "foo.exit".to_string()
        })
    );
}

#[test]
fn exit_code_mismatch_is_reported() {
    let cmd = spec_with(None, None, None, Some(b"3"));
    let res = CommandResult::new(1.into(), &[], b"boom\n");
    let err = check_result(&cmd, &res).unwrap_err();
    assert_eq!(
        err,
        Error::CheckExitCode {
            cmd_path: "foo.sh".to_string(),
            expected: ExitCode::from(3),
            actual: ExitCode::from(1),
            stderr: b"boom\n".to_vec(),
        }
    );
}

#[test]
fn stdout_fixture_is_checked_exactly() {
    let cmd = spec_with(Some(b"hello\n"), None, None, None);
    let good = CommandResult::new(0.into(), b"hello\n", &[]);
    assert!(check_result(&cmd, &good).is_ok());

    let bad = CommandResult::new(0.into(), b"hellp\n", &[]);
    let err = check_result(&cmd, &bad).unwrap_err();
    assert_eq!(
        err,
        Error::CheckStdoutLine {
            cmd_path: "foo.sh".to_string(),
            expected: Some("hello\n".to_string()),
            actual: Some("hellp\n".to_string()),
            row: 1,
        }
    );
}

#[test]
fn stdout_pattern_fixture_is_checked() {
    let cmd = spec_with(None, Some(b"ok <<<[0-9]+>>>\n"), None, None);
    let good = CommandResult::new(0.into(), b"ok 123\n", &[]);
    assert!(check_result(&cmd, &good).is_ok());

    let bad = CommandResult::new(0.into(), b"ok x\n", &[]);
    let err = check_result(&cmd, &bad).unwrap_err();
    assert_eq!(
        err,
        Error::CheckStdoutPattern {
            cmd_path: "foo.sh".to_string(),
            expected: Some("ok [0-9]+\n".to_string()),
            actual: Some("ok x\n".to_string()),
            row: 1,
        }
    );
}

#[test]
fn invalid_pattern_fixture_is_fatal() {
    let cmd = spec_with(None, Some(b"fine\n<<< open forever"), None, None);
    let res = CommandResult::new(0.into(), b"fine\nrest\n", &[]);
    let err = check_result(&cmd, &res).unwrap_err();
    assert_eq!(
        err,
        Error::StdoutPatternFileInvalid {
            cmd_path: "foo.sh".to_string(),
            reason: "pattern is invalid".to_string(),
            row: 2,
        }
    );
}

#[test]
fn stderr_fixture_is_checked_exactly() {
    let cmd = spec_with(None, None, Some(b"warn\n"), None);
    let good = CommandResult::new(0.into(), &[], b"warn\n");
    assert!(check_result(&cmd, &good).is_ok());

    let bad = CommandResult::new(0.into(), &[], b"warn\nmore\n");
    let err = check_result(&cmd, &bad).unwrap_err();
    assert_eq!(
        err,
        Error::CheckStderrLine {
            cmd_path: "foo.sh".to_string(),
            expected: None,
            actual: Some("more\n".to_string()),
            row: 2,
        }
    );
}

#[test]
fn missing_stdout_fixtures_accept_any_stdout() {
    let cmd = spec_with(None, None, None, None);
    let res = CommandResult::new(0.into(), b"anything\n", &[]);
    assert!(check_empty_stdout(&cmd, &res).is_ok());
    assert!(check_result(&cmd, &res).is_ok());
}

#[test]
fn command_result_keeps_its_streams() {
    let res = CommandResult::new(ExitCode::from(5), b"out", b"err");
    assert_eq!(res.exit_code().as_i32(), 5);
    assert_eq!(res.stdout(), b"out");
    assert_eq!(res.stderr(), b"err");
}

#[test]
fn command_spec_reports_its_fixtures() {
    let cmd = spec_with(Some(b"a"), None, Some(b"c"), None);
    assert!(cmd.has_stdout());
    assert!(!cmd.has_stdout_pat());
    assert!(cmd.has_stderr());
    assert_eq!(cmd.cmd_path(), "foo.sh");
    assert_eq!(cmd.stdout().unwrap(), b"a".to_vec());
    assert_eq!(cmd.stderr().unwrap(), b"c".to_vec());
    assert_eq!(cmd.stdout_pat().unwrap(), "".to_string());
}

#[test]
fn with_ext_replaces_the_final_extension() {
    assert_eq!(with_ext("foo.sh", "out"), "foo.out");
    assert_eq!(with_ext("/a/b/foo.sh", "out.pattern"), "/a/b/foo.out.pattern");
    assert_eq!(with_ext("/a/b.c/foo.tar.gz", "exit"), "/a/b.c/foo.tar.exit");
    assert_eq!(with_ext("noext", "err"), "noext.err");
    assert_eq!(with_ext("/a.b/noext", "err"), "/a.b/noext.err");
    assert_eq!(with_ext("/home/.bashrc", "out"), "/home/.bashrc.out");
}
