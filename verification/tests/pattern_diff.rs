use cliche::verify::diff::{Diff, Error};
use cliche::verify::pattern::eval_pat_diff;

#[test]
fn test_pat_none_diff() {
    // Diff with no pattern
    let expected = "foo\nbar\nbaz\n";
    let actual = "foo\nbar\nbaz\n".as_bytes();
    let diff = eval_pat_diff(expected, actual).unwrap();
    assert!(diff.is_none());

    // Diff with simple pattern
    let expected = "foo\n<<<.*>>>\nbaz\n";
    let actual = "foo\nbar\nbaz\n".as_bytes();
    let diff = eval_pat_diff(expected, actual).unwrap();
    assert!(diff.is_none());

    let expected = "foo\n<<<.*>>>\n<<<[ab]{2}>>>z\n";
    let actual = "foo\nbar\nbaz\n".as_bytes();
    let diff = eval_pat_diff(expected, actual).unwrap();
    assert!(diff.is_none());
}

#[test]
fn test_pat_diff() {
    // Diff with a line diff
    let expected = "foo\nbar";
    let actual = "foo\nbaz".as_bytes();
    let diff = eval_pat_diff(expected, actual).unwrap();
    assert_eq!(
        diff,
        Some(Diff::Line {
            expected: Some("bar".to_string()),
            actual: Some("baz".to_string()),
            row: 2,
        })
    );

    // Diff with a non match pattern
    let expected = "foo\n<<<.*>>>\n<<<[ab]{2}>>>\n";
    let actual = "foo\nbar\nbaz\n".as_bytes();
    let diff = eval_pat_diff(expected, actual).unwrap();
    assert_eq!(
        diff,
        Some(Diff::PatternLine {
            expected: Some("[ab]{2}\n".to_string()),
            actual: Some("baz\n".to_string()),
            row: 3,
        })
    );
}

#[test]
fn pattern_match_must_start_at_the_first_character() {
    // `a+` matches inside "xxab" but not from its start
    let expected = "<<<a+>>>\n";
    let actual = "xxab\n".as_bytes();
    let diff = eval_pat_diff(expected, actual).unwrap();
    assert_eq!(
        diff,
        Some(Diff::PatternLine {
            expected: Some("a+\n".to_string()),
            actual: Some("xxab\n".to_string()),
            row: 1,
        })
    );
}

#[test]
fn unterminated_marker_aborts_the_comparison() {
    let expected = "abcd\n<<< not end pattern";
    let actual = "abcd\nwhatever".as_bytes();
    let diff = eval_pat_diff(expected, actual);
    assert_eq!(
        diff,
        Err(Error::InvalidPattern {
            reason: "pattern is invalid".to_string(),
            row: 2,
        })
    );
}

#[test]
fn missing_actual_line_is_reported_absent() {
    let expected = "foo\nbar\n";
    let actual = "foo\n".as_bytes();
    let diff = eval_pat_diff(expected, actual).unwrap();
    assert_eq!(
        diff,
        Some(Diff::Line {
            expected: Some("bar\n".to_string()),
            actual: None,
            row: 2,
        })
    );
}

#[test]
fn leftover_actual_line_is_reported_absent() {
    let expected = "foo\n";
    let actual = "foo\nextra\n".as_bytes();
    let diff = eval_pat_diff(expected, actual).unwrap();
    assert_eq!(
        diff,
        Some(Diff::Line {
            expected: None,
            actual: Some("extra\n".to_string()),
            row: 2,
        })
    );
}

#[test]
fn pat_diff_runs_identically_twice() {
    let expected = "foo\n<<<.*>>>\n<<<[ab]{2}>>>\n";
    let actual = "foo\nbar\nbaz\n".as_bytes();
    let first = eval_pat_diff(expected, actual);
    let second = eval_pat_diff(expected, actual);
    assert_eq!(first, second);

    let bad = "<<<*>>>\n";
    let first = eval_pat_diff(bad, actual);
    let second = eval_pat_diff(bad, actual);
    assert!(first.is_err());
    assert_eq!(first, second);
}
