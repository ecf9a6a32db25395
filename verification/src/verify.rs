//! The comparison engine: comparators that locate the first divergence
//! between an actual output and an expected fixture, and the checks that
//! hold a command's run against its fixtures.

pub mod chunked;
pub mod diff;
pub mod exact;
pub mod pattern;

use crate::command::{lemma_exit_code_eq, parse_i32, CommandResult, CommandSpec};
use crate::error::Error;
use crate::verify::diff::{Diff, DiffModel};
use crate::verify::exact::{eval_exact_diff, exact_diff_model};
use crate::verify::pattern::{eval_pat_diff, pat_diff_model, PatOutcome};
use vstd::prelude::*;
use vstd::slice::slice_to_vec;
use vstd::utf8::{decode_utf8, valid_utf8};

verus! {

/// The bytes the exact stdout check compares against: the fixture's
/// contents, or empty where no fixture exists.
pub open spec fn stdout_bytes(cmd: CommandSpec) -> Seq<u8> {
    match cmd.spec_stdout() {
        None => Seq::<u8>::empty(),
        Some((p, b)) => b,
    }
}

/// The bytes the stderr check compares against.
pub open spec fn stderr_bytes(cmd: CommandSpec) -> Seq<u8> {
    match cmd.spec_stderr() {
        None => Seq::<u8>::empty(),
        Some((p, b)) => b,
    }
}

/// Whether the actual exit code is the one the fixtures expect: 0 without an
/// exit-code fixture, else the readable integer the fixture holds.
pub open spec fn exit_accepts(cmd: CommandSpec, result: CommandResult) -> bool {
    match cmd.spec_exit_code() {
        None => result.spec_exit_code().spec_code() == 0,
        Some((p, b)) => valid_utf8(b) && parse_i32(decode_utf8(b)) == Some(
            result.spec_exit_code().spec_code(),
        ),
    }
}

/// Whether the exact stdout check passes.
pub open spec fn stdout_exact_accepts(cmd: CommandSpec, result: CommandResult) -> bool {
    exact_diff_model(stdout_bytes(cmd), result.spec_stdout()) is None
}

/// Whether the stdout pattern check passes.
pub open spec fn stdout_pat_accepts(cmd: CommandSpec, result: CommandResult) -> bool {
    match cmd.spec_stdout_pat() {
        None => true,
        Some((p, b)) => valid_utf8(b) && pat_diff_model(decode_utf8(b), result.spec_stdout())
            is Clean,
    }
}

/// Whether the exact stderr check passes.
pub open spec fn stderr_accepts(cmd: CommandSpec, result: CommandResult) -> bool {
    exact_diff_model(stderr_bytes(cmd), result.spec_stderr()) is None
}

/// What the exit-code check returns: success exactly where the fixture
/// accepts the actual code, an error naming the fixture file where it cannot
/// be read as an integer, and the two codes where they differ.
pub open spec fn exit_check_post(
    cmd: CommandSpec,
    result: CommandResult,
    r: Result<(), Error>,
) -> bool {
    match cmd.spec_exit_code() {
        None => {
            if result.spec_exit_code().spec_code() == 0 {
                r is Ok
            } else {
                exit_mismatch_err(cmd, result, r, 0)
            }
        },
        Some((p, b)) => {
            if !valid_utf8(b) {
                r matches Err(Error::FileNotUtf8 { path }) && path@ == p
            } else {
                match parse_i32(decode_utf8(b)) {
                    None => r matches Err(Error::FileNotInteger { path }) && path@ == p,
                    Some(v) => {
                        if v == result.spec_exit_code().spec_code() {
                            r is Ok
                        } else {
                            exit_mismatch_err(cmd, result, r, v)
                        }
                    },
                }
            }
        },
    }
}

/// An exit-code mismatch error, with the expected code `v`.
pub open spec fn exit_mismatch_err(
    cmd: CommandSpec,
    result: CommandResult,
    r: Result<(), Error>,
    v: int,
) -> bool {
    &&& r matches Err(Error::CheckExitCode { cmd_path, expected, actual, stderr })
    &&& cmd_path@ == cmd.spec_cmd_path()
    &&& expected.spec_code() == v
    &&& actual == result.spec_exit_code()
    &&& stderr@ == result.spec_stderr()
}

/// What the exact stdout check returns: success exactly where the streams
/// agree, else the first divergence as a stdout-line error. A byte-level
/// mismatch has no line to show: both sides are absent and the row is 1.
pub open spec fn stdout_check_post(
    cmd: CommandSpec,
    result: CommandResult,
    r: Result<(), Error>,
) -> bool {
    match exact_diff_model(stdout_bytes(cmd), result.spec_stdout()) {
        None => r is Ok,
        Some(DiffModel::Line { expected, actual, row }) => {
            &&& r matches Err(Error::CheckStdoutLine { cmd_path, expected: e, actual: a, row: w })
            &&& cmd_path@ == cmd.spec_cmd_path()
            &&& e.deep_view() == expected
            &&& a.deep_view() == actual
            &&& w as int == row
        },
        Some(DiffModel::Byte) => {
            &&& r matches Err(Error::CheckStdoutLine { cmd_path, expected: e, actual: a, row: w })
            &&& cmd_path@ == cmd.spec_cmd_path()
            &&& e is None
            &&& a is None
            &&& w == 1
        },
        Some(DiffModel::PatternLine { .. }) => false,
    }
}

/// What the exact stderr check returns, like the stdout one.
pub open spec fn stderr_check_post(
    cmd: CommandSpec,
    result: CommandResult,
    r: Result<(), Error>,
) -> bool {
    match exact_diff_model(stderr_bytes(cmd), result.spec_stderr()) {
        None => r is Ok,
        Some(DiffModel::Line { expected, actual, row }) => {
            &&& r matches Err(Error::CheckStderrLine { cmd_path, expected: e, actual: a, row: w })
            &&& cmd_path@ == cmd.spec_cmd_path()
            &&& e.deep_view() == expected
            &&& a.deep_view() == actual
            &&& w as int == row
        },
        Some(DiffModel::Byte) => {
            &&& r matches Err(Error::CheckStderrLine { cmd_path, expected: e, actual: a, row: w })
            &&& cmd_path@ == cmd.spec_cmd_path()
            &&& e is None
            &&& a is None
            &&& w == 1
        },
        Some(DiffModel::PatternLine { .. }) => false,
    }
}

/// What the stdout pattern check returns: an error naming the fixture file
/// where it is not UTF-8, the scanner's error where the fixture is invalid,
/// the first mismatch as a stdout line or pattern error, and success exactly
/// where the pattern walk runs clean.
pub open spec fn stdout_pat_check_post(
    cmd: CommandSpec,
    result: CommandResult,
    r: Result<(), Error>,
) -> bool {
    match cmd.spec_stdout_pat() {
        None => pat_walk_post(cmd, result, Seq::<char>::empty(), r),
        Some((p, b)) => {
            if !valid_utf8(b) {
                r matches Err(Error::FileNotUtf8 { path }) && path@ == p
            } else {
                pat_walk_post(cmd, result, decode_utf8(b), r)
            }
        },
    }
}

/// The outcome of walking a pattern text against the actual stdout, mapped
/// to this crate's errors.
pub open spec fn pat_walk_post(
    cmd: CommandSpec,
    result: CommandResult,
    text: Seq<char>,
    r: Result<(), Error>,
) -> bool {
    match pat_diff_model(text, result.spec_stdout()) {
        PatOutcome::Clean => r is Ok,
        PatOutcome::Found { pat, expected, actual, row } => {
            if pat {
                &&& r matches Err(
                    Error::CheckStdoutPattern { cmd_path, expected: e, actual: a, row: w },
                )
                &&& cmd_path@ == cmd.spec_cmd_path()
                &&& e.deep_view() == expected
                &&& a.deep_view() == actual
                &&& w as int == row
            } else {
                &&& r matches Err(
                    Error::CheckStdoutLine { cmd_path, expected: e, actual: a, row: w },
                )
                &&& cmd_path@ == cmd.spec_cmd_path()
                &&& e.deep_view() == expected
                &&& a.deep_view() == actual
                &&& w as int == row
            }
        },
        PatOutcome::Invalid { unterminated, row } => {
            &&& r matches Err(
                Error::StdoutPatternFileInvalid { cmd_path, reason, row: w },
            )
            &&& cmd_path@ == cmd.spec_cmd_path()
            &&& w as int == row
            &&& (unterminated ==> reason@ == "pattern is invalid"@)
        },
    }
}

/// The machine limit the checks ask of fixtures: a pattern fixture leaves
/// room for one more byte below the address-space bound.
pub open spec fn fixtures_fit(cmd: CommandSpec) -> bool {
    match cmd.spec_stdout_pat() {
        None => true,
        Some((p, b)) => b.len() < usize::MAX,
    }
}

/// What the whole check returns: the first failing check's error, in the
/// order exit code, stdout — exact, then pattern — and stderr, or success
/// where every applicable check passes.
pub open spec fn check_result_post(
    cmd: CommandSpec,
    result: CommandResult,
    r: Result<(), Error>,
) -> bool {
    if !exit_accepts(cmd, result) {
        exit_check_post(cmd, result, r)
    } else if cmd.spec_stdout() is Some && !stdout_exact_accepts(cmd, result) {
        stdout_check_post(cmd, result, r)
    } else if cmd.spec_stdout_pat() is Some && !stdout_pat_accepts(cmd, result) {
        stdout_pat_check_post(cmd, result, r)
    } else if cmd.spec_stderr() is Some && !stderr_accepts(cmd, result) {
        stderr_check_post(cmd, result, r)
    } else {
        r is Ok
    }
}

/// Check the exit code of the `cmd` against a `result` exit code.
fn check_exit_code(cmd: &CommandSpec, result: &CommandResult) -> (r: Result<(), Error>)
    ensures
        exit_check_post(*cmd, *result, r),
        r is Ok <==> exit_accepts(*cmd, *result),
{
    let expected_exit_code = match cmd.exit_code() {
        Ok(c) => c,
        Err(e) => {
            return Err(e);
        },
    };
    let actual_exit_code = result.exit_code();
    proof {
        lemma_exit_code_eq(expected_exit_code, actual_exit_code);
    }
    if !(expected_exit_code == actual_exit_code) {
        let err = Error::CheckExitCode {
            cmd_path: cmd.cmd_path().to_owned(),
            expected: expected_exit_code,
            actual: actual_exit_code,
            stderr: slice_to_vec(result.stderr()),
        };
        return Err(err);
    }
    Ok(())
}

fn check_equal_stdout(cmd: &CommandSpec, result: &CommandResult) -> (r: Result<(), Error>)
    ensures
        stdout_check_post(*cmd, *result, r),
        r is Ok <==> stdout_exact_accepts(*cmd, *result),
{
    let expected = match cmd.stdout() {
        Ok(v) => v,
        Err(e) => {
            return Err(e);
        },
    };
    let actual = result.stdout();

    let diff = eval_exact_diff(expected.as_slice(), actual);
    match diff {
        None => Ok(()),
        Some(Diff::Line { expected, actual, row }) => Err(
            Error::CheckStdoutLine { cmd_path: cmd.cmd_path().to_owned(), expected, actual, row },
        ),
        Some(Diff::Byte) => Err(
            Error::CheckStdoutLine {
                cmd_path: cmd.cmd_path().to_owned(),
                expected: None,
                actual: None,
                row: 1,
            },
        ),
        Some(Diff::PatternLine { .. }) => vstd::pervasive::unreached(),
    }
}

fn check_equal_stderr(cmd: &CommandSpec, result: &CommandResult) -> (r: Result<(), Error>)
    ensures
        stderr_check_post(*cmd, *result, r),
        r is Ok <==> stderr_accepts(*cmd, *result),
{
    let expected = match cmd.stderr() {
        Ok(v) => v,
        Err(e) => {
            return Err(e);
        },
    };
    let actual = result.stderr();

    let diff = eval_exact_diff(expected.as_slice(), actual);
    match diff {
        None => Ok(()),
        Some(Diff::Line { expected, actual, row }) => Err(
            Error::CheckStderrLine { cmd_path: cmd.cmd_path().to_owned(), expected, actual, row },
        ),
        Some(Diff::Byte) => Err(
            Error::CheckStderrLine {
                cmd_path: cmd.cmd_path().to_owned(),
                expected: None,
                actual: None,
                row: 1,
            },
        ),
        Some(Diff::PatternLine { .. }) => vstd::pervasive::unreached(),
    }
}

fn check_equal_stdout_pat(cmd: &CommandSpec, result: &CommandResult) -> (r: Result<(), Error>)
    requires
        fixtures_fit(*cmd),
    ensures
        stdout_pat_check_post(*cmd, *result, r),
        r is Ok <==> stdout_pat_accepts(*cmd, *result) && (cmd.spec_stdout_pat() is None
            ==> pat_diff_model(Seq::<char>::empty(), result.spec_stdout()) is Clean),
{
    let expected_stdout_pat = match cmd.stdout_pat() {
        Ok(s) => s,
        Err(e) => {
            return Err(e);
        },
    };
    let actual_stdout = result.stdout();
    let diff = eval_pat_diff(expected_stdout_pat.as_str(), actual_stdout);
    let diff = match diff {
        Ok(d) => d,
        Err(crate::verify::diff::Error::InvalidPattern { reason, row }) => {
            return Err(
                Error::StdoutPatternFileInvalid {
                    cmd_path: cmd.cmd_path().to_owned(),
                    reason,
                    row,
                },
            );
        },
    };

    match diff {
        None => Ok(()),
        Some(Diff::Line { expected, actual, row }) => Err(
            Error::CheckStdoutLine { cmd_path: cmd.cmd_path().to_owned(), expected, actual, row },
        ),
        Some(Diff::PatternLine { expected, actual, row }) => Err(
            Error::CheckStdoutPattern {
                cmd_path: cmd.cmd_path().to_owned(),
                expected,
                actual,
                row,
            },
        ),
        Some(Diff::Byte) => vstd::pervasive::unreached(),
    }
}

/// Accepts any stdout where no fixture constrains it.
pub fn check_empty_stdout(_cmd: &CommandSpec, _result: &CommandResult) -> (r: Result<(), Error>)
    ensures
        r is Ok,
{
    Ok(())
}

/// Holds a command's run against its fixtures: the exit code first, then the
/// stdout — against the exact fixture, the pattern fixture, both, or nothing
/// where neither exists — and the stderr last. The first failing check's
/// error is returned.
pub fn check_result(cmd: &CommandSpec, result: &CommandResult) -> (r: Result<(), Error>)
    requires
        fixtures_fit(*cmd),
    ensures
        check_result_post(*cmd, *result, r),
{
    match check_exit_code(cmd, result) {
        Ok(_) => {},
        Err(e) => {
            return Err(e);
        },
    }

    // Possible cases:
    // - only the stdout fixture exists: the expected stdout is checked
    //   against the actual stdout,
    // - only the pattern fixture exists: the expected pattern is checked
    //   against the actual stdout,
    // - both exist: both checks run,
    // - neither exists: the actual stdout is checked to be empty.
    if cmd.has_stdout() && cmd.has_stdout_pat() {
        match check_equal_stdout(cmd, result) {
            Ok(_) => {},
            Err(e) => {
                return Err(e);
            },
        }
        match check_equal_stdout_pat(cmd, result) {
            Ok(_) => {},
            Err(e) => {
                return Err(e);
            },
        }
    } else if cmd.has_stdout() {
        match check_equal_stdout(cmd, result) {
            Ok(_) => {},
            Err(e) => {
                return Err(e);
            },
        }
    } else if cmd.has_stdout_pat() {
        match check_equal_stdout_pat(cmd, result) {
            Ok(_) => {},
            Err(e) => {
                return Err(e);
            },
        }
    } else {
        match check_empty_stdout(cmd, result) {
            Ok(_) => {},
            Err(e) => {
                return Err(e);
            },
        }
    }

    // The same check applies to stderr:
    if cmd.has_stderr() {
        match check_equal_stderr(cmd, result) {
            Ok(_) => {},
            Err(e) => {
                return Err(e);
            },
        }
    }

    Ok(())
}

} // verus!
