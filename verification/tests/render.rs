use cliche::command::ExitCode;
use cliche::error::Error;
use cliche::text::{Color, Format, Style, StyledString};

fn ansi(codes: &str, text: &str) -> String {
    format!("\u{1b}[{}m{}\u{1b}[0m", codes, text)
}

#[test]
fn styled_string_renders_ansi_and_plain() {
    let mut s = StyledString::new();
    s.push_with("error", Style::new().red().bold());
    s.push(" plain ");
    s.push_with("note", Style::new().cyan());
    assert_eq!(
        s.to_string(Format::Ansi),
        format!("{} plain {}", ansi("1;31", "error"), ansi("36", "note"))
    );
    assert_eq!(s.to_string(Format::Plain), "error plain note");
}

#[test]
fn style_builders_set_their_fields() {
    let s = Style::new();
    assert_eq!(s.fg, None);
    assert!(!s.bold);
    assert_eq!(s.blue().fg, Some(Color::Blue));
    assert_eq!(s.bright_black().fg, Some(Color::BrightBlack));
    assert_eq!(s.cyan().fg, Some(Color::Cyan));
    assert_eq!(s.green().fg, Some(Color::Green));
    assert_eq!(s.magenta().fg, Some(Color::Magenta));
    assert_eq!(s.purple().fg, Some(Color::Purple));
    assert_eq!(s.red().fg, Some(Color::Red));
    assert_eq!(s.yellow().fg, Some(Color::Yellow));
    assert!(s.bold().bold);
    assert_eq!(s.yellow().bold().fg, Some(Color::Yellow));
}

#[test]
fn render_stdout_line_mismatch() {
    let err = Error::CheckStdoutLine {
        cmd_path: "/t.sh".to_string(),
        expected: Some("a\n".to_string()),
        actual: Some("b\tc".to_string()),
        row: 2,
    };
    let yellow_lf = ansi("33", "[\\n]");
    let yellow_tab = ansi("33", "[\\tab]");
    let mut want = String::new();
    want.push_str(&ansi("1;31", "error"));
    want.push_str(&ansi("1", ":"));
    want.push(' ');
    want.push_str(&ansi("1", "Stdout doesn't match at line 2"));
    want.push('\n');
    want.push_str(&ansi("1;34", "  script       :"));
    want.push_str(" /t.sh\n");
    want.push_str(&ansi("1;34", "  expected line:"));
    want.push(' ');
    want.push_str(&ansi("33", "<"));
    want.push_str(&format!("a{}", yellow_lf));
    want.push_str(&ansi("33", ">"));
    want.push('\n');
    want.push_str(&ansi("1;34", "  actual line  :"));
    want.push(' ');
    want.push_str(&ansi("33", "<"));
    want.push_str(&format!("b{}c", yellow_tab));
    want.push_str(&ansi("33", ">"));
    want.push('\n');
    assert_eq!(err.render(), want);
}

#[test]
fn render_exit_code_mismatch() {
    let err = Error::CheckExitCode {
        cmd_path: "/t.sh".to_string(),
        expected: ExitCode::from(-12),
        actual: ExitCode::from(130),
        stderr: Vec::new(),
    };
    let mut want = String::new();
    want.push_str(&ansi("1;31", "error"));
    want.push_str(&ansi("1", ":"));
    want.push(' ');
    want.push_str(&ansi("1", "Exit code doesn't match"));
    want.push('\n');
    want.push_str(&ansi("1;34", "  script  :"));
    want.push_str(" /t.sh\n");
    want.push_str(&ansi("1;34", "  expected:"));
    want.push_str(" -12\n");
    want.push_str(&ansi("1;34", "  actual  :"));
    want.push_str(" 130\n");
    assert_eq!(err.render(), want);
}

#[test]
fn render_absent_sides_as_empty() {
    let err = Error::CheckStderrLine {
        cmd_path: "x".to_string(),
        expected: None,
        actual: None,
        row: 10,
    };
    let rendered = err.render();
    assert!(rendered.contains("Stderr doesn't match at line 10"));
    assert!(rendered.contains("<"));
    assert!(rendered.contains(">"));
}

#[test]
fn render_file_errors_name_their_kind() {
    let read = Error::FileRead {
        path: "p".to_string(),
        cause: "c".to_string(),
    };
    assert_eq!(read.render(), "--> error FileRead");
    let utf8 = Error::FileNotUtf8 { path: "p".to_string() };
    assert_eq!(utf8.render(), "--> error FileNotUtf8");
    let int = Error::FileNotInteger { path: "p".to_string() };
    assert_eq!(int.render(), "--> error FileNotInteger");
    let pat = Error::StdoutPatternFileInvalid {
        cmd_path: "p".to_string(),
        reason: "r".to_string(),
        row: 1,
    };
    assert_eq!(pat.render(), "--> error StdoutPatternFileInvalid");
}

#[test]
fn exit_codes_convert_both_ways() {
    let code = ExitCode::from(-2147483648);
    assert_eq!(code.as_i32(), -2147483648);
    let zero: ExitCode = 0.into();
    assert_eq!(zero.as_i32(), 0);
}
