use cliche::verify::diff::Diff;
use cliche::verify::exact::{eval_exact_diff, eval_exact_diff_as_bytes, eval_exact_diff_as_str};

#[test]
fn test_diff_with_bad_encoding() {
    // the word in Latin-1, against its UTF-8 spelling
    let actual = [0x63, 0x61, 0x66, 0xe9];
    let expected = [0x63, 0x61, 0x66, 0xc3, 0xa9];
    let diff = eval_exact_diff(&expected, &actual).unwrap();
    assert_eq!(
        diff,
        Diff::Line {
            expected: Some("caf\u{e9}".to_string()),
            actual: Some("caf\u{fffd}".to_string()),
            row: 1
        }
    );
}

#[test]
fn test_diff_as_str() {
    let expected = "foo\nbar\nbaz\n";
    let actual = "foo\nbar\nbaz\n";
    assert!(eval_exact_diff_as_str(expected, actual).is_none());

    let expected = "aaaa\nbbbb\ncccc\n";
    let actual = "aaaa\nbbbb\ncc-c\n";
    let diff = eval_exact_diff_as_str(expected, actual).unwrap();
    assert_eq!(
        diff,
        Diff::Line {
            expected: Some("cccc\n".to_string()),
            actual: Some("cc-c\n".to_string()),
            row: 3
        }
    );

    // More actual lines than expected
    let expected = "aaaa\nbbbb\ncccc\n";
    let actual = "aaaa\nbbbb\ncccc\ndddd\n";
    let diff = eval_exact_diff_as_str(expected, actual).unwrap();
    assert_eq!(
        diff,
        Diff::Line {
            expected: None,
            actual: Some("dddd\n".to_string()),
            row: 4
        }
    );

    // A very long line
    let expected = "Lorem ipsum dolor sit amet, consectetur adipiscing elit, sed do eiusmod tempor incididunt ut labore et dolore magna aliqua. Ut enim ad minim veniam, quis xxx nostrud exercitation ullamco laboris";
    let actual = "Lorem ipsum dolor sit amet, consectetur adipiscing elit, sed do eiusmod tempor incididunt ut labore et dolore magna aliqua. Ut enim ad minim veniam, quis nostrud exercitation ullamco laboris";
    let diff = eval_exact_diff_as_str(expected, actual).unwrap();
    assert_eq!(
        diff,
        Diff::Line {
            expected: Some(
                "Lorem ipsum dolor sit amet, consectetur adipiscing elit, sed do eiusmod tempor incididunt ut labore et dolore magna aliqua. Ut enim ad minim veniam, quis xxx nostrud exercitation ullamco laboris".to_string()
            ),
            actual: Some(
                "Lorem ipsum dolor sit amet, consectetur adipiscing elit, sed do eiusmod tempor incididunt ut labore et dolore magna aliqua. Ut enim ad minim veniam, quis nostrud exercitation ullamco laboris".to_string()
            ),
            row: 1
        }
    );
}

#[test]
fn exact_diff_is_reflexive() {
    let valid: &[u8] = b"alpha\nbeta\n";
    assert!(eval_exact_diff(valid, valid).is_none());

    // an expected side that is not UTF-8 still equals itself
    let invalid: &[u8] = &[0xff, 0xfe, 0x0a, 0x41];
    assert!(eval_exact_diff(invalid, invalid).is_none());

    let empty: &[u8] = &[];
    assert!(eval_exact_diff(empty, empty).is_none());
}

#[test]
fn invalid_expected_side_compares_bytes() {
    let expected: &[u8] = &[0xff, 0x01];
    let actual: &[u8] = &[0xff, 0x02];
    assert_eq!(eval_exact_diff(expected, actual), Some(Diff::Byte));
    assert_eq!(eval_exact_diff_as_bytes(expected, actual), Some(Diff::Byte));
    assert!(eval_exact_diff_as_bytes(expected, expected).is_none());
}

#[test]
fn exact_diff_runs_identically_twice() {
    let expected: &[u8] = b"aaaa\nbbbb\ncccc\n";
    let actual: &[u8] = b"aaaa\nbbbb\ncc-c\n";
    let first = eval_exact_diff(expected, actual);
    let second = eval_exact_diff(expected, actual);
    assert_eq!(first, second);
}
