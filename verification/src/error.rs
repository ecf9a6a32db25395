use crate::command::ExitCode;
use crate::text::chars::{chars_of, push_char};
use crate::text::style::{Color, Style};
use crate::text::styled::{ansi_span, spans_text, Format, StyledString};
use vstd::prelude::*;
use vstd::string::StringExecFns;

verus! {

/// Everything that can go wrong while checking a command against its
/// fixtures: a fixture file that cannot be used, or a check that failed.
#[derive(Clone, Debug, PartialEq, Eq)]
pub enum Error {
    /// There is an issue reading a file.
    FileRead { path: String, cause: String },
    /// The file is not a valid UTF-8 string.
    FileNotUtf8 { path: String },
    /// The file cannot be read as an integer (used for the expected exit
    /// code).
    FileNotInteger { path: String },
    /// The expected exit code and the actual exit code are not equal.
    CheckExitCode { cmd_path: String, expected: ExitCode, actual: ExitCode, stderr: Vec<u8> },
    /// A line of the actual stdout does not equal the expected stdout line.
    CheckStdoutLine {
        cmd_path: String,
        expected: Option<String>,
        actual: Option<String>,
        /// 1-based line index.
        row: usize,
    },
    /// A line of the actual stdout does not match the expected stdout
    /// pattern.
    CheckStdoutPattern {
        cmd_path: String,
        expected: Option<String>,
        actual: Option<String>,
        /// 1-based line index.
        row: usize,
    },
    /// A pattern stdout file is not valid.
    StdoutPatternFileInvalid {
        cmd_path: String,
        reason: String,
        /// 1-based line index.
        row: usize,
    },
    /// A line of the actual stderr does not equal the expected stderr line.
    CheckStderrLine {
        cmd_path: String,
        expected: Option<String>,
        actual: Option<String>,
        /// 1-based line index.
        row: usize,
    },
}

/// The character of a decimal digit value.
pub open spec fn digit_char(d: int) -> char {
    if d == 0 {
        '0'
    } else if d == 1 {
        '1'
    } else if d == 2 {
        '2'
    } else if d == 3 {
        '3'
    } else if d == 4 {
        '4'
    } else if d == 5 {
        '5'
    } else if d == 6 {
        '6'
    } else if d == 7 {
        '7'
    } else if d == 8 {
        '8'
    } else {
        '9'
    }
}

/// The decimal digits of a number, most significant first.
pub open spec fn dec_digits(n: int) -> Seq<char>
    decreases n,
{
    if n < 10 {
        seq![digit_char(n)]
    } else {
        dec_digits(n / 10) + seq![digit_char(n % 10)]
    }
}

/// A signed number written in decimal.
pub open spec fn int_dec(v: int) -> Seq<char> {
    if v < 0 {
        seq!['-'] + dec_digits(-v)
    } else {
        dec_digits(v)
    }
}

fn push_digit(s: &mut String, d: u64)
    requires
        d < 10,
    ensures
        final(s)@ == old(s)@.push(digit_char(d as int)),
{
    if d == 0 {
        push_char(s, '0');
    } else if d == 1 {
        push_char(s, '1');
    } else if d == 2 {
        push_char(s, '2');
    } else if d == 3 {
        push_char(s, '3');
    } else if d == 4 {
        push_char(s, '4');
    } else if d == 5 {
        push_char(s, '5');
    } else if d == 6 {
        push_char(s, '6');
    } else if d == 7 {
        push_char(s, '7');
    } else if d == 8 {
        push_char(s, '8');
    } else {
        push_char(s, '9');
    }
}

/// Writes a number in decimal.
fn u64_to_string(n: u64) -> (r: String)
    ensures
        r@ == dec_digits(n as int),
    decreases n,
{
    if n < 10 {
        let mut s = String::new();
        push_digit(&mut s, n);
        proof {
            assert(s@ =~= seq![digit_char(n as int)]);
        }
        s
    } else {
        let mut s = u64_to_string(n / 10);
        push_digit(&mut s, n % 10);
        proof {
            assert(s@ =~= dec_digits(n as int / 10) + seq![digit_char(n as int % 10)]);
        }
        s
    }
}

/// Writes a signed number in decimal.
fn i32_to_string(v: i32) -> (r: String)
    ensures
        r@ == int_dec(v as int),
{
    if v < 0 {
        let magnitude = -(v as i64);
        let mut s = String::new();
        push_char(&mut s, '-');
        let digits = u64_to_string(magnitude as u64);
        s.append(digits.as_str());
        proof {
            assert(s@ =~= seq!['-'] + dec_digits(-(v as int)));
        }
        s
    } else {
        u64_to_string(v as u64)
    }
}

/// The style that marks replaced control characters.
pub open spec fn yellow_style() -> Style {
    Style { fg: Some(Color::Yellow), bold: false }
}

/// How one character shows in a diff message: newlines, carriage returns and
/// tabs become bracketed yellow escapes, everything else stays itself.
pub open spec fn visible_char(c: char) -> Seq<char> {
    if c == '\n' {
        ansi_span("[\\n]"@, Some(yellow_style()))
    } else if c == '\r' {
        ansi_span("[\\r]"@, Some(yellow_style()))
    } else if c == '\t' {
        ansi_span("[\\tab]"@, Some(yellow_style()))
    } else {
        seq![c]
    }
}

/// A text with every control character replaced by its visible form.
pub open spec fn replace_visible_spec(s: Seq<char>) -> Seq<char>
    decreases s.len(),
{
    if s.len() == 0 {
        Seq::empty()
    } else {
        replace_visible_spec(s.drop_last()) + visible_char(s.last())
    }
}

/// Makes newlines, carriage returns and tabs visible as bracketed yellow
/// escapes.
fn replace_visible(text: &str) -> (r: String)
    ensures
        r@ == replace_visible_spec(text@),
{
    let yellow = Style::new().yellow();

    let mut lf = StyledString::new();
    lf.push_with("[\\n]", yellow);
    let lf = lf.to_string(Format::Ansi);

    let mut cr = StyledString::new();
    cr.push_with("[\\r]", yellow);
    let cr = cr.to_string(Format::Ansi);

    let mut tab = StyledString::new();
    tab.push_with("[\\tab]", yellow);
    let tab = tab.to_string(Format::Ansi);

    proof {
        let empty = Seq::<(Seq<char>, Option<Style>)>::empty();
        assert(empty.push(("[\\n]"@, Some(yellow))).drop_last() =~= empty);
        assert(empty.push(("[\\r]"@, Some(yellow))).drop_last() =~= empty);
        assert(empty.push(("[\\tab]"@, Some(yellow))).drop_last() =~= empty);
        assert(yellow == yellow_style());
        assert(spans_text(empty, Format::Ansi) =~= Seq::<char>::empty());
        assert(lf@ =~= Seq::<char>::empty() + ansi_span("[\\n]"@, Some(yellow)));
        assert(Seq::<char>::empty() + ansi_span("[\\n]"@, Some(yellow)) =~= ansi_span(
            "[\\n]"@,
            Some(yellow),
        ));
        assert(lf@ =~= visible_char('\n'));
        assert(cr@ =~= visible_char('\r'));
        assert(tab@ =~= visible_char('\t'));
    }
    let chars = chars_of(text);
    let len = chars.len();
    let mut out = String::new();
    let mut i: usize = 0;
    while i < len
        invariant
            i <= len,
            len == chars@.len(),
            lf@ == visible_char('\n'),
            cr@ == visible_char('\r'),
            tab@ == visible_char('\t'),
            out@ == replace_visible_spec(chars@.take(i as int)),
        decreases len - i,
    {
        let ghost prefix = out@;
        let c = chars[i];
        if c == '\n' {
            out.append(lf.as_str());
        } else if c == '\r' {
            out.append(cr.as_str());
        } else if c == '\t' {
            out.append(tab.as_str());
        } else {
            push_char(&mut out, c);
        }
        proof {
            assert(chars@.take(i + 1).drop_last() =~= chars@.take(i as int));
            assert(chars@.take(i + 1).last() == chars@[i as int]);
            assert(out@ =~= prefix + visible_char(chars@[i as int]));
        }
        i = i + 1;
    }
    proof {
        assert(chars@.take(len as int) =~= chars@);
    }
    out
}

/// The bold red style of the `error` word.
pub open spec fn red_bold_style() -> Style {
    Style { fg: Some(Color::Red), bold: true }
}

/// The bold style of titles.
pub open spec fn bold_style() -> Style {
    Style { fg: None, bold: true }
}

/// The bold blue style of field labels.
pub open spec fn blue_bold_style() -> Style {
    Style { fg: Some(Color::Blue), bold: true }
}

/// The spans of a two-sided text diff message: an error line with the title,
/// the script path, and the expected and actual lines, each made visible and
/// framed in yellow angle brackets.
pub open spec fn diff_text_spans(
    title: Seq<char>,
    script_title: Seq<char>,
    script: Seq<char>,
    expected_title: Seq<char>,
    expected: Option<Seq<char>>,
    actual_title: Seq<char>,
    actual: Option<Seq<char>>,
) -> Seq<(Seq<char>, Option<Style>)> {
    let expected_text = match expected {
        None => Seq::<char>::empty(),
        Some(t) => t,
    };
    let actual_text = match actual {
        None => Seq::<char>::empty(),
        Some(t) => t,
    };
    seq![
        ("error"@, Some(red_bold_style())),
        (":"@, Some(bold_style())),
        (" "@, None),
        (title, Some(bold_style())),
        ("\n"@, None),
        (script_title, Some(blue_bold_style())),
        (" "@, None),
        (script, None),
        ("\n"@, None),
        (expected_title, Some(blue_bold_style())),
        (" "@, None),
        ("<"@, Some(yellow_style())),
        (replace_visible_spec(expected_text), None),
        (">"@, Some(yellow_style())),
        ("\n"@, None),
        (actual_title, Some(blue_bold_style())),
        (" "@, None),
        ("<"@, Some(yellow_style())),
        (replace_visible_spec(actual_text), None),
        (">"@, Some(yellow_style())),
        ("\n"@, None),
    ]
}

/// A two-sided text diff message, rendered.
pub open spec fn diff_text_rep(
    title: Seq<char>,
    script_title: Seq<char>,
    script: Seq<char>,
    expected_title: Seq<char>,
    expected: Option<Seq<char>>,
    actual_title: Seq<char>,
    actual: Option<Seq<char>>,
    format: Format,
) -> Seq<char> {
    spans_text(
        diff_text_spans(title, script_title, script, expected_title, expected, actual_title, actual),
        format,
    )
}

/// Lays out a mismatch between an expected and an actual line.
fn diff_text(
    title: &str,
    script_title: &str,
    script: &str,
    expected_title: &str,
    expected: Option<&str>,
    actual_title: &str,
    actual: Option<&str>,
    format: Format,
) -> (r: String)
    ensures
        r@ == diff_text_rep(
            title@,
            script_title@,
            script@,
            expected_title@,
            (match expected {
                None => None::<Seq<char>>,
                Some(t) => Some(t@),
            }),
            actual_title@,
            (match actual {
                None => None::<Seq<char>>,
                Some(t) => Some(t@),
            }),
            format,
        ),
{
    let red_bold = Style::new().red().bold();
    let bold = Style::new().bold();
    let blue_bold = Style::new().blue().bold();
    let yellow = Style::new().yellow();

    let mut s = StyledString::new();
    s.push_with("error", red_bold);
    s.push_with(":", bold);
    s.push(" ");
    s.push_with(title, bold);
    s.push("\n");
    s.push_with(script_title, blue_bold);
    s.push(" ");
    s.push(script);
    s.push("\n");

    let expected_str = match expected {
        None => "",
        Some(t) => t,
    };
    let expected_visible = replace_visible(expected_str);
    s.push_with(expected_title, blue_bold);
    s.push(" ");
    s.push_with("<", yellow);
    s.push(expected_visible.as_str());
    s.push_with(">", yellow);
    s.push("\n");

    let actual_str = match actual {
        None => "",
        Some(t) => t,
    };
    let actual_visible = replace_visible(actual_str);
    s.push_with(actual_title, blue_bold);
    s.push(" ");
    s.push_with("<", yellow);
    s.push(actual_visible.as_str());
    s.push_with(">", yellow);
    s.push("\n");
    proof {
        reveal_strlit("");
        assert(s.model() =~= diff_text_spans(
            title@,
            script_title@,
            script@,
            expected_title@,
            (match expected {
                None => None::<Seq<char>>,
                Some(t) => Some(t@),
            }),
            actual_title@,
            (match actual {
                None => None::<Seq<char>>,
                Some(t) => Some(t@),
            }),
        ));
    }
    s.to_string(format)
}

/// The spans of an exit-code mismatch message.
pub open spec fn diff_exit_spans(
    title: Seq<char>,
    script_title: Seq<char>,
    script: Seq<char>,
    expected_title: Seq<char>,
    expected: int,
    actual_title: Seq<char>,
    actual: int,
) -> Seq<(Seq<char>, Option<Style>)> {
    seq![
        ("error"@, Some(red_bold_style())),
        (":"@, Some(bold_style())),
        (" "@, None),
        (title, Some(bold_style())),
        ("\n"@, None),
        (script_title, Some(blue_bold_style())),
        (" "@, None),
        (script, None),
        ("\n"@, None),
        (expected_title, Some(blue_bold_style())),
        (" "@, None),
        (int_dec(expected), None),
        ("\n"@, None),
        (actual_title, Some(blue_bold_style())),
        (" "@, None),
        (int_dec(actual), None),
        ("\n"@, None),
    ]
}

/// An exit-code mismatch message, rendered.
pub open spec fn diff_exit_rep(
    title: Seq<char>,
    script_title: Seq<char>,
    script: Seq<char>,
    expected_title: Seq<char>,
    expected: int,
    actual_title: Seq<char>,
    actual: int,
    format: Format,
) -> Seq<char> {
    spans_text(
        diff_exit_spans(title, script_title, script, expected_title, expected, actual_title, actual),
        format,
    )
}

/// Lays out a mismatch between an expected and an actual exit code.
fn diff_exit(
    title: &str,
    script_title: &str,
    script: &str,
    expected_title: &str,
    expected: ExitCode,
    actual_title: &str,
    actual: ExitCode,
    format: Format,
) -> (r: String)
    ensures
        r@ == diff_exit_rep(
            title@,
            script_title@,
            script@,
            expected_title@,
            expected.spec_code(),
            actual_title@,
            actual.spec_code(),
            format,
        ),
{
    let red_bold = Style::new().red().bold();
    let bold = Style::new().bold();
    let blue_bold = Style::new().blue().bold();

    let mut s = StyledString::new();
    s.push_with("error", red_bold);
    s.push_with(":", bold);
    s.push(" ");
    s.push_with(title, bold);
    s.push("\n");
    s.push_with(script_title, blue_bold);
    s.push(" ");
    s.push(script);
    s.push("\n");

    let expected_text = i32_to_string(expected.as_i32());
    s.push_with(expected_title, blue_bold);
    s.push(" ");
    s.push(expected_text.as_str());
    s.push("\n");

    let actual_text = i32_to_string(actual.as_i32());
    s.push_with(actual_title, blue_bold);
    s.push(" ");
    s.push(actual_text.as_str());
    s.push("\n");
    proof {
        assert(s.model() =~= diff_exit_spans(
            title@,
            script_title@,
            script@,
            expected_title@,
            expected.spec_code(),
            actual_title@,
            actual.spec_code(),
        ));
    }
    s.to_string(format)
}

/// What `render` writes for each error, as a text with ANSI styling.
pub open spec fn render_spec(e: Error) -> Seq<char> {
    match e {
        Error::FileRead { .. } => "--> error FileRead"@,
        Error::FileNotUtf8 { .. } => "--> error FileNotUtf8"@,
        Error::FileNotInteger { .. } => "--> error FileNotInteger"@,
        Error::CheckExitCode { cmd_path, expected, actual, .. } => diff_exit_rep(
            "Exit code doesn't match"@,
            "  script  :"@,
            cmd_path@,
            "  expected:"@,
            expected.spec_code(),
            "  actual  :"@,
            actual.spec_code(),
            Format::Ansi,
        ),
        Error::CheckStdoutLine { cmd_path, expected, actual, row } => diff_text_rep(
            "Stdout doesn't match at line "@ + dec_digits(row as int),
            "  script       :"@,
            cmd_path@,
            "  expected line:"@,
            expected.deep_view(),
            "  actual line  :"@,
            actual.deep_view(),
            Format::Ansi,
        ),
        Error::CheckStdoutPattern { cmd_path, expected, actual, row } => diff_text_rep(
            "Stdout doesn't match at line "@ + dec_digits(row as int),
            "  script          :"@,
            cmd_path@,
            "  expected pattern:"@,
            expected.deep_view(),
            "  actual line     :"@,
            actual.deep_view(),
            Format::Ansi,
        ),
        Error::CheckStderrLine { cmd_path, expected, actual, row } => diff_text_rep(
            "Stderr doesn't match at line "@ + dec_digits(row as int),
            "  script       :"@,
            cmd_path@,
            "  expected line:"@,
            expected.deep_view(),
            "  actual line  :"@,
            actual.deep_view(),
            Format::Ansi,
        ),
        Error::StdoutPatternFileInvalid { .. } => "--> error StdoutPatternFileInvalid"@,
    }
}

impl Error {
    /// Writes the error as a human-readable, ANSI-styled message.
    pub fn render(&self) -> (r: String)
        ensures
            r@ == render_spec(*self),
    {
        match self {
            Error::FileRead { .. } => "--> error FileRead".to_owned(),
            Error::FileNotUtf8 { .. } => "--> error FileNotUtf8".to_owned(),
            Error::FileNotInteger { .. } => "--> error FileNotInteger".to_owned(),
            Error::CheckExitCode { cmd_path, expected, actual, .. } => {
                let title = "Exit code doesn't match";
                let script_title = "  script  :";
                let expected_title = "  expected:";
                let actual_title = "  actual  :";
                diff_exit(
                    title,
                    script_title,
                    cmd_path.as_str(),
                    expected_title,
                    *expected,
                    actual_title,
                    *actual,
                    Format::Ansi,
                )
            },
            Error::CheckStdoutLine { cmd_path, expected, actual, row } => {
                let title = row_title("Stdout doesn't match at line ", *row);
                let script_title = "  script       :";
                let expected_title = "  expected line:";
                let actual_title = "  actual line  :";
                diff_text(
                    title.as_str(),
                    script_title,
                    cmd_path.as_str(),
                    expected_title,
                    opt_str(expected),
                    actual_title,
                    opt_str(actual),
                    Format::Ansi,
                )
            },
            Error::CheckStdoutPattern { cmd_path, expected, actual, row } => {
                let title = row_title("Stdout doesn't match at line ", *row);
                let script_title = "  script          :";
                let expected_title = "  expected pattern:";
                let actual_title = "  actual line     :";
                diff_text(
                    title.as_str(),
                    script_title,
                    cmd_path.as_str(),
                    expected_title,
                    opt_str(expected),
                    actual_title,
                    opt_str(actual),
                    Format::Ansi,
                )
            },
            Error::CheckStderrLine { cmd_path, expected, actual, row } => {
                let title = row_title("Stderr doesn't match at line ", *row);
                let script_title = "  script       :";
                let expected_title = "  expected line:";
                let actual_title = "  actual line  :";
                diff_text(
                    title.as_str(),
                    script_title,
                    cmd_path.as_str(),
                    expected_title,
                    opt_str(expected),
                    actual_title,
                    opt_str(actual),
                    Format::Ansi,
                )
            },
            Error::StdoutPatternFileInvalid { .. } => "--> error StdoutPatternFileInvalid"
                .to_owned(),
        }
    }
}

/// A message title followed by a 1-based row number.
fn row_title(prefix: &str, row: usize) -> (r: String)
    ensures
        r@ == prefix@ + dec_digits(row as int),
{
    let mut title = prefix.to_owned();
    let digits = u64_to_string(row as u64);
    title.append(digits.as_str());
    title
}

/// The borrowed text of an optional line.
fn opt_str(o: &Option<String>) -> (r: Option<&str>)
    ensures
        (match r {
            None => None::<Seq<char>>,
            Some(t) => Some(t@),
        }) == o.deep_view(),
{
    match o {
        None => None,
        Some(t) => Some(t.as_str()),
    }
}

} // verus!
