use crate::text::chars::push_char;
use crate::text::style::{Color, Style};
use vstd::prelude::*;
use vstd::string::StringExecFns;

verus! {

/// How a styled string is rendered: with ANSI escape sequences, or as the
/// bare text.
#[derive(Copy, Clone, Debug, PartialEq, Eq, Structural)]
pub enum Format {
    Ansi,
    Plain,
}

/// The ANSI foreground code of a color.
pub open spec fn color_code(c: Color) -> Seq<char> {
    match c {
        Color::Blue => seq!['3', '4'],
        Color::BrightBlack => seq!['9', '0'],
        Color::Cyan => seq!['3', '6'],
        Color::Green => seq!['3', '2'],
        Color::Magenta => seq!['3', '5'],
        Color::Purple => seq!['3', '5'],
        Color::Red => seq!['3', '1'],
        Color::Yellow => seq!['3', '3'],
    }
}

/// The ANSI codes a style selects: bold first, then the color.
pub open spec fn style_codes(st: Style) -> Seq<char> {
    if st.bold {
        match st.fg {
            None => seq!['1'],
            Some(c) => seq!['1', ';'] + color_code(c),
        }
    } else {
        match st.fg {
            None => Seq::empty(),
            Some(c) => color_code(c),
        }
    }
}

/// A span of text rendered with ANSI escapes: unchanged under the neutral
/// style, else wrapped in the style's escape sequence and a reset.
pub open spec fn ansi_span(text: Seq<char>, style: Option<Style>) -> Seq<char> {
    match style {
        None => text,
        Some(st) => {
            if st.fg is None && !st.bold {
                text
            } else {
                seq!['\u{1b}', '['] + style_codes(st) + seq!['m'] + text + seq![
                    '\u{1b}',
                    '[',
                    '0',
                    'm',
                ]
            }
        },
    }
}

/// One span rendered in a format.
pub open spec fn span_text(text: Seq<char>, style: Option<Style>, format: Format) -> Seq<char> {
    match format {
        Format::Ansi => ansi_span(text, style),
        Format::Plain => text,
    }
}

/// The rendering of a whole span sequence, in order.
pub open spec fn spans_text(spans: Seq<(Seq<char>, Option<Style>)>, format: Format) -> Seq<char>
    decreases spans.len(),
{
    if spans.len() == 0 {
        Seq::empty()
    } else {
        spans_text(spans.drop_last(), format) + span_text(
            spans.last().0,
            spans.last().1,
            format,
        )
    }
}

/// A piece of text with the style it is shown in, if any.
struct Span {
    text: String,
    style: Option<Style>,
}

/// Text assembled from styled and unstyled spans, rendered on demand.
pub struct StyledString {
    spans: Vec<Span>,
}

fn push_color_code(s: &mut String, c: Color)
    ensures
        final(s)@ == old(s)@ + color_code(c),
{
    match c {
        Color::Blue => {
            push_char(s, '3');
            push_char(s, '4');
        },
        Color::BrightBlack => {
            push_char(s, '9');
            push_char(s, '0');
        },
        Color::Cyan => {
            push_char(s, '3');
            push_char(s, '6');
        },
        Color::Green => {
            push_char(s, '3');
            push_char(s, '2');
        },
        Color::Magenta => {
            push_char(s, '3');
            push_char(s, '5');
        },
        Color::Purple => {
            push_char(s, '3');
            push_char(s, '5');
        },
        Color::Red => {
            push_char(s, '3');
            push_char(s, '1');
        },
        Color::Yellow => {
            push_char(s, '3');
            push_char(s, '3');
        },
    }
    proof {
        assert(final(s)@ =~= old(s)@ + color_code(c));
    }
}

impl StyledString {
    /// The spans gathered so far, in order.
    pub closed spec fn model(&self) -> Seq<(Seq<char>, Option<Style>)> {
        Seq::new(self.spans@.len(), |i: int| (self.spans@[i].text@, self.spans@[i].style))
    }

    pub fn new() -> (r: StyledString)
        ensures
            r.model() == Seq::<(Seq<char>, Option<Style>)>::empty(),
    {
        let r = StyledString { spans: Vec::new() };
        proof {
            assert(r.model() =~= Seq::<(Seq<char>, Option<Style>)>::empty());
        }
        r
    }

    /// Appends unstyled text.
    pub fn push(&mut self, text: &str)
        ensures
            final(self).model() == old(self).model().push((text@, None::<Style>)),
    {
        self.spans.push(Span { text: text.to_owned(), style: None });
        proof {
            assert(self.model() =~= old(self).model().push((text@, None::<Style>)));
        }
    }

    /// Appends text shown in the given style.
    pub fn push_with(&mut self, text: &str, style: Style)
        ensures
            final(self).model() == old(self).model().push((text@, Some(style))),
    {
        self.spans.push(Span { text: text.to_owned(), style: Some(style) });
        proof {
            assert(self.model() =~= old(self).model().push((text@, Some(style))));
        }
    }

    /// Renders the gathered spans in the given format.
    pub fn to_string(&self, format: Format) -> (r: String)
        ensures
            r@ == spans_text(self.model(), format),
    {
        let mut out = String::new();
        let n = self.spans.len();
        let mut i: usize = 0;
        while i < n
            invariant
                i <= n,
                n == self.spans@.len(),
                out@ == spans_text(self.model().take(i as int), format),
            decreases n - i,
        {
            let ghost prefix = out@;
            let sp = &self.spans[i];
            let plain = match format {
                Format::Plain => true,
                Format::Ansi => match sp.style {
                    None => true,
                    Some(st) => st.fg.is_none() && !st.bold,
                },
            };
            if plain {
                out.append(sp.text.as_str());
            } else {
                let st = match sp.style {
                    Some(st) => st,
                    None => Style { fg: None, bold: false },
                };
                push_char(&mut out, '\u{1b}');
                push_char(&mut out, '[');
                if st.bold {
                    push_char(&mut out, '1');
                    if st.fg.is_some() {
                        push_char(&mut out, ';');
                    }
                }
                match st.fg {
                    Some(c) => push_color_code(&mut out, c),
                    None => {},
                }
                push_char(&mut out, 'm');
                out.append(sp.text.as_str());
                push_char(&mut out, '\u{1b}');
                push_char(&mut out, '[');
                push_char(&mut out, '0');
                push_char(&mut out, 'm');
            }
            proof {
                assert(out@ =~= prefix + span_text(
                    self.model()[i as int].0,
                    self.model()[i as int].1,
                    format,
                ));
                assert(self.model().take(i + 1).drop_last() =~= self.model().take(i as int));
                assert(self.model().take(i + 1).last() == self.model()[i as int]);
            }
            i = i + 1;
        }
        proof {
            assert(self.model().take(n as int) =~= self.model());
        }
        out
    }
}

} // verus!
