use cliche::verify::chunked::eval_chunked_diff;
use cliche::verify::diff::Diff;

#[test]
fn long_single_line_diffs_at_the_failing_piece() {
    // one logical line far beyond the 64-byte bound, differing past it
    let mut expected = String::new();
    let mut actual = String::new();
    for i in 0..100 {
        expected.push('a');
        actual.push(if i == 70 { 'X' } else { 'a' });
    }
    let diff = eval_chunked_diff(expected.as_bytes(), actual.as_bytes()).unwrap();
    let expected_piece: String = expected.chars().skip(64).collect();
    let actual_piece: String = actual.chars().skip(64).collect();
    assert_eq!(
        diff,
        Diff::Line {
            expected: Some(expected_piece),
            actual: Some(actual_piece),
            row: 1
        }
    );
}

#[test]
fn chunked_diff_keeps_the_row_of_the_failing_chunk() {
    let expected = "one\ntwo\nthree\n";
    let actual = "one\ntwo\nthr-e\n";
    let diff = eval_chunked_diff(expected.as_bytes(), actual.as_bytes()).unwrap();
    assert_eq!(
        diff,
        Diff::Line {
            expected: Some("three\n".to_string()),
            actual: Some("thr-e\n".to_string()),
            row: 3
        }
    );
}

#[test]
fn chunked_diff_reports_exhaustion() {
    let expected = "one\n";
    let actual = "one\ntwo\n";
    let diff = eval_chunked_diff(expected.as_bytes(), actual.as_bytes()).unwrap();
    assert_eq!(
        diff,
        Diff::Line {
            expected: None,
            actual: Some("two\n".to_string()),
            row: 2
        }
    );
}

#[test]
fn chunked_diff_is_reflexive_and_deterministic() {
    let text = "a long line that exceeds the canonical sixty-four byte bound by some margin\nplus one\n";
    assert!(eval_chunked_diff(text.as_bytes(), text.as_bytes()).is_none());

    let other = "a long line that exceeds the canonical sixty-four byte bound by some margim\nplus one\n";
    let first = eval_chunked_diff(text.as_bytes(), other.as_bytes());
    let second = eval_chunked_diff(text.as_bytes(), other.as_bytes());
    assert_eq!(first, second);
}

#[test]
fn lossy_actual_side_still_compares() {
    let expected = "caf\u{fffd}\n";
    let actual: &[u8] = &[0x63, 0x61, 0x66, 0xe9, 0x0a];
    assert!(eval_chunked_diff(expected.as_bytes(), actual).is_none());
}
