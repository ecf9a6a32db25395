use cliche::chunk::{PatternLine, PatternLines, PatternRegex};

#[test]
fn test_valid_chunk() {
    let input = "Hello <<<.*>>>!\nabcdef\n<<<[abcd]>>>foo bar baz<<<1234567891\\d>>>dummy";
    let mut lines = PatternLines::new(input);
    assert!(
        lines.next() == Some(Ok(PatternLine::Pattern(PatternRegex::new("Hello .*!\n").unwrap())))
    );
    assert!(lines.next() == Some(Ok(PatternLine::NoPattern("abcdef\n".to_string()))));
    assert!(
        lines.next() == Some(Ok(PatternLine::Pattern(
            PatternRegex::new("[abcd]foo bar baz1234567891\\ddummy").unwrap()
        )))
    );
    assert!(lines.next() == None)
}

#[test]
fn test_invalid_pattern() {
    let input = "abcd\n<<< not end pattern";
    let mut lines = PatternLines::new(input);
    assert!(lines.next() == Some(Ok(PatternLine::NoPattern("abcd\n".to_string()))));
    assert!(lines.next() == Some(Err("pattern is invalid".to_string())));
    assert!(lines.next() == None);
}

#[test]
fn test_invalid_regex() {
    let input = "<<<*>>>";
    let mut lines = PatternLines::new(input);
    let line = lines.next().unwrap();
    assert!(line.is_err());
}

#[test]
fn scanner_is_a_fuse_after_a_bad_regex() {
    let input = "<<<*>>>\nmore text\n";
    let mut lines = PatternLines::new(input);
    assert!(lines.next().unwrap().is_err());
    assert!(lines.next().is_none());
    assert!(lines.next().is_none());
}

#[test]
fn marker_spans_splice_into_one_line() {
    let input = "a<<<b+>>>c\n";
    let mut lines = PatternLines::new(input);
    assert!(lines.next() == Some(Ok(PatternLine::Pattern(PatternRegex::new("ab+c\n").unwrap()))));
    assert!(lines.next() == None);
}
