use vstd::prelude::*;

verus! {

/// A terminal text style: an optional foreground color and a bold flag.
#[derive(Copy, Clone, Debug, PartialEq, Eq)]
pub struct Style {
    pub fg: Option<Color>,
    pub bold: bool,
}

/// The foreground colors a styled span can carry.
#[derive(Copy, Clone, Debug, PartialEq, Eq)]
pub enum Color {
    Blue,
    BrightBlack,
    Cyan,
    Green,
    Magenta,
    Purple,
    Red,
    Yellow,
}

impl Style {
    /// The neutral style: no color, not bold.
    pub fn new() -> (s: Style)
        ensures
            s.fg is None,
            !s.bold,
    {
        let fg: Option<Color> = None;
        let bold = false;
        Style { fg, bold }
    }

    pub fn blue(self) -> (s: Style)
        ensures
            s == (Style { fg: Some(Color::Blue), bold: self.bold }),
    {
        Style { fg: Some(Color::Blue), bold: self.bold }
    }

    pub fn bright_black(self) -> (s: Style)
        ensures
            s == (Style { fg: Some(Color::BrightBlack), bold: self.bold }),
    {
        Style { fg: Some(Color::BrightBlack), bold: self.bold }
    }

    pub fn cyan(self) -> (s: Style)
        ensures
            s == (Style { fg: Some(Color::Cyan), bold: self.bold }),
    {
        Style { fg: Some(Color::Cyan), bold: self.bold }
    }

    pub fn green(self) -> (s: Style)
        ensures
            s == (Style { fg: Some(Color::Green), bold: self.bold }),
    {
        Style { fg: Some(Color::Green), bold: self.bold }
    }

    pub fn magenta(self) -> (s: Style)
        ensures
            s == (Style { fg: Some(Color::Magenta), bold: self.bold }),
    {
        Style { fg: Some(Color::Magenta), bold: self.bold }
    }

    pub fn purple(self) -> (s: Style)
        ensures
            s == (Style { fg: Some(Color::Purple), bold: self.bold }),
    {
        Style { fg: Some(Color::Purple), bold: self.bold }
    }

    pub fn red(self) -> (s: Style)
        ensures
            s == (Style { fg: Some(Color::Red), bold: self.bold }),
    {
        Style { fg: Some(Color::Red), bold: self.bold }
    }

    pub fn yellow(self) -> (s: Style)
        ensures
            s == (Style { fg: Some(Color::Yellow), bold: self.bold }),
    {
        Style { fg: Some(Color::Yellow), bold: self.bold }
    }

    pub fn bold(self) -> (s: Style)
        ensures
            s == (Style { fg: self.fg, bold: true }),
    {
        Style { fg: self.fg, bold: true }
    }
}

} // verus!
