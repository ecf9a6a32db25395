use crate::text::chars::{chars_of, push_char, string_of_range};
use vstd::prelude::*;
use vstd::string::StrSliceExecFns;

verus! {

/// Whether the regex crate accepts `pat` as a pattern under its default
/// configuration. Only named: which patterns compile is the regex crate's
/// own affair, and deciding it is what the crate is called for.
pub uninterp spec fn regex_compiles(pat: Seq<char>) -> bool;

/// The byte offset at which the leftmost match of `pat` in `hay` starts, if
/// a match exists; the leftmost match is a function of the pattern and the
/// haystack alone.
pub uninterp spec fn regex_find_start(pat: Seq<char>, hay: Seq<char>) -> Option<usize>;

/// The text that the regex crate's compile error displays for a rejected
/// pattern; a function of the pattern alone. Only named: the wording is the
/// regex crate's own.
pub uninterp spec fn regex_error_of(pat: Seq<char>) -> Seq<char>;

#[verifier::external_type_specification]
#[verifier::external_body]
pub struct ExRegex(regex::Regex);

/// A compiled regular expression that remembers its source text, so that
/// contracts and error reports can speak of the pattern it was built from.
pub struct PatternRegex {
    re: regex::Regex,
    source: String,
}

impl PatternRegex {
    /// The pattern text this regex was compiled from.
    pub closed spec fn spec_source(&self) -> Seq<char> {
        self.source@
    }

    /// Relies on regex::Regex::new: whether a pattern compiles depends on the
    /// pattern text alone (`regex_compiles` names that condition), and a
    /// compiled regex searches for the pattern it was built from. A rejected
    /// pattern's error is handed back through its display text, which
    /// `regex_error_of` names.
    #[verifier::external_body]
    pub fn new(s: &str) -> (r: Result<PatternRegex, String>)
        ensures
            r is Ok <==> regex_compiles(s@),
            r matches Ok(re) ==> re.spec_source() == s@,
            r matches Err(m) ==> m@ == regex_error_of(s@),
    {
        match regex::Regex::new(s) {
            Ok(re) => Ok(PatternRegex { re, source: s.to_string() }),
            Err(error) => Err(error.to_string()),
        }
    }

    /// Relies on regex::Regex::find and regex::Match::start: `find` returns
    /// the leftmost match, `start` its byte offset, and both are a function
    /// of the pattern and the haystack alone; `regex_find_start` names the
    /// offset. The fields are private and only `new` builds a value, so the
    /// regex here was compiled from `spec_source`.
    #[verifier::external_body]
    pub fn find(&self, haystack: &str) -> (r: Option<usize>)
        ensures
            r == regex_find_start(self.spec_source(), haystack@),
    {
        match self.re.find(haystack) {
            Some(m) => Some(m.start()),
            None => None,
        }
    }

    /// The source text the regex was compiled from.
    pub fn as_str(&self) -> (s: &str)
        ensures
            s@ == self.spec_source(),
    {
        self.source.as_str()
    }
}

impl PartialEq for PatternRegex {
    fn eq(&self, other: &Self) -> (r: bool) {
        self.source == other.source
    }
}

impl vstd::std_specs::cmp::PartialEqSpecImpl for PatternRegex {
    open spec fn obeys_eq_spec() -> bool {
        true
    }

    open spec fn eq_spec(&self, other: &PatternRegex) -> bool {
        self.spec_source() == other.spec_source()
    }
}

/// One logical line of a pattern fixture: plain text to compare literally,
/// or a compiled regex where the line held at least one marker span.
pub enum PatternLine {
    NoPattern(String),
    Pattern(PatternRegex),
}

impl PartialEq for PatternLine {
    fn eq(&self, other: &Self) -> (r: bool) {
        match (self, other) {
            (PatternLine::NoPattern(a), PatternLine::NoPattern(b)) => *a == *b,
            (PatternLine::Pattern(a), PatternLine::Pattern(b)) => *a == *b,
            _ => false,
        }
    }
}

impl vstd::std_specs::cmp::PartialEqSpecImpl for PatternLine {
    open spec fn obeys_eq_spec() -> bool {
        true
    }

    open spec fn eq_spec(&self, other: &PatternLine) -> bool {
        match (self, other) {
            (PatternLine::NoPattern(a), PatternLine::NoPattern(b)) => a@ == b@,
            (PatternLine::Pattern(a), PatternLine::Pattern(b)) => a.spec_source()
                == b.spec_source(),
            _ => false,
        }
    }
}

/// The scanner's four states: reading literal text, reading a line that has
/// touched a marker span, stopped on an error, or done.
#[derive(Copy, Clone, Debug, PartialEq, Eq, Structural)]
enum ReadState {
    WithoutPattern,
    WithPattern,
    Error,
    Eof,
}

/// The opening marker of a regex span.
pub open spec fn open_marker() -> Seq<char> {
    seq!['<', '<', '<']
}

/// The closing marker of a regex span.
pub open spec fn close_marker() -> Seq<char> {
    seq!['>', '>', '>']
}

/// Whether the three characters of `m` stand at position `i` of `s`.
pub open spec fn marker_at(s: Seq<char>, i: int, m: Seq<char>) -> bool {
    &&& 0 <= i
    &&& i + 3 <= s.len()
    &&& s[i] == m[0]
    &&& s[i + 1] == m[1]
    &&& s[i + 2] == m[2]
}

/// The position of the first closing marker in `t`, if one stands anywhere.
pub open spec fn find_close(t: Seq<char>) -> Option<int>
    decreases t.len(),
{
    if t.len() < 3 {
        None
    } else if marker_at(t, 0, close_marker()) {
        Some(0)
    } else {
        match find_close(t.drop_first()) {
            None => None,
            Some(j) => Some(1 + j),
        }
    }
}

pub proof fn lemma_find_close_range(t: Seq<char>)
    ensures
        match find_close(t) {
            Some(j) => 0 <= j && j + 3 <= t.len() && marker_at(t, j, close_marker()),
            None => true,
        },
    decreases t.len(),
{
    if t.len() < 3 {
    } else if marker_at(t, 0, close_marker()) {
    } else {
        lemma_find_close_range(t.drop_first());
        if let Some(j) = find_close(t.drop_first()) {
            assert(t.drop_first()[j] == t[1 + j]);
            assert(t.drop_first()[j + 1] == t[1 + j + 1]);
            assert(t.drop_first()[j + 2] == t[1 + j + 2]);
        }
    }
}

/// If no closing marker stands anywhere in `t`, none is found.
pub proof fn lemma_find_close_none(t: Seq<char>)
    requires
        forall|k: int| #![trigger t[k]] 0 <= k && k + 3 <= t.len() ==> !marker_at(
            t,
            k,
            close_marker(),
        ),
    ensures
        find_close(t) is None,
    decreases t.len(),
{
    if t.len() >= 3 {
        assert(!marker_at(t, 0, close_marker()));
        assert forall|k: int| 0 <= k && k + 3 <= t.drop_first().len() implies !marker_at(
            t.drop_first(),
            k,
            close_marker(),
        ) by {
            assert(t.drop_first()[k] == t[1 + k]);
            assert(t.drop_first()[k + 1] == t[1 + k + 1]);
            assert(t.drop_first()[k + 2] == t[1 + k + 2]);
            assert(!marker_at(t, 1 + k, close_marker()));
        }
        lemma_find_close_none(t.drop_first());
    }
}

/// The first closing marker of `t` stands at `m` if one stands there and none
/// stands before it.
pub proof fn lemma_find_close_first(t: Seq<char>, m: int)
    requires
        marker_at(t, m, close_marker()),
        forall|k: int| #![trigger t[k]] 0 <= k < m ==> !marker_at(t, k, close_marker()),
    ensures
        find_close(t) == Some(m),
    decreases t.len(),
{
    if m == 0 {
    } else {
        assert(!marker_at(t, 0, close_marker()));
        assert(marker_at(t.drop_first(), m - 1, close_marker())) by {
            assert(t.drop_first()[m - 1] == t[m]);
            assert(t.drop_first()[m] == t[m + 1]);
            assert(t.drop_first()[m + 1] == t[m + 2]);
        }
        assert forall|k: int| 0 <= k < m - 1 implies !marker_at(
            t.drop_first(),
            k,
            close_marker(),
        ) by {
            assert(t.drop_first()[k] == t[1 + k]);
            assert(t.drop_first()[k + 1] == t[1 + k + 1]);
            assert(t.drop_first()[k + 2] == t[1 + k + 2]);
            assert(!marker_at(t, 1 + k, close_marker()));
        }
        lemma_find_close_first(t.drop_first(), m - 1);
    }
}

/// The scan of one logical line: the text it accumulates (literal characters
/// and the raw contents of every marker span), whether it touched a marker
/// span, and how many characters of the input it consumed. A marker opened
/// but never closed scans to `Unterminated`.
pub enum LineScan {
    Line { text: Seq<char>, pat: bool, used: int },
    Unterminated,
}

pub open spec fn scan_line(s: Seq<char>) -> LineScan
    decreases s.len(),
{
    if s.len() == 0 {
        LineScan::Line { text: Seq::empty(), pat: false, used: 0 }
    } else if marker_at(s, 0, open_marker()) {
        match find_close(s.skip(3)) {
            None => LineScan::Unterminated,
            Some(j0) => {
                let j = if 0 <= j0 && j0 + 3 <= s.len() - 3 {
                    j0
                } else {
                    0
                };
                let content = s.skip(3).take(j);
                let rest = s.skip(3 + j + 3);
                if rest.len() == 0 {
                    LineScan::Line { text: content, pat: true, used: s.len() as int }
                } else {
                    match scan_line(rest) {
                        LineScan::Unterminated => LineScan::Unterminated,
                        LineScan::Line { text, pat: _, used } => LineScan::Line {
                            text: content + text,
                            pat: true,
                            used: 3 + j + 3 + used,
                        },
                    }
                }
            },
        }
    } else if s[0] == '\n' || s.len() == 1 {
        LineScan::Line { text: seq![s[0]], pat: false, used: 1 }
    } else {
        match scan_line(s.drop_first()) {
            LineScan::Unterminated => LineScan::Unterminated,
            LineScan::Line { text, pat, used } => LineScan::Line {
                text: seq![s[0]] + text,
                pat,
                used: 1 + used,
            },
        }
    }
}

/// A scanned line consumes at least one character and at most the whole text.
pub proof fn lemma_scan_line_used(s: Seq<char>)
    requires
        s.len() > 0,
    ensures
        match scan_line(s) {
            LineScan::Line { used, .. } => 1 <= used <= s.len(),
            LineScan::Unterminated => true,
        },
    decreases s.len(),
{
    if marker_at(s, 0, open_marker()) {
        lemma_find_close_range(s.skip(3));
        if let Some(j0) = find_close(s.skip(3)) {
            let rest = s.skip(3 + j0 + 3);
            if rest.len() > 0 {
                lemma_scan_line_used(rest);
            }
        }
    } else if s[0] == '\n' || s.len() == 1 {
    } else {
        lemma_scan_line_used(s.drop_first());
    }
}

/// One item the scanner yields, in the abstract: a literal line, a pattern
/// line whose accumulated text compiles, or one of the two fatal errors — an
/// unterminated marker, or a pattern line whose text the regex crate rejects.
pub enum PatItem {
    Lit(Seq<char>),
    Pat(Seq<char>),
    Unterminated,
    BadRegex(Seq<char>),
}

/// Everything the scanner yields for a text, in order. An error is always
/// the last item: the scanner is a fuse and resynchronizes never.
pub open spec fn scan_items(s: Seq<char>) -> Seq<PatItem>
    decreases s.len(),
{
    if s.len() == 0 {
        Seq::empty()
    } else {
        match scan_line(s) {
            LineScan::Unterminated => seq![PatItem::Unterminated],
            LineScan::Line { text, pat, used } => {
                let u = if 1 <= used <= s.len() {
                    used
                } else {
                    1
                };
                if pat {
                    if regex_compiles(text) {
                        seq![PatItem::Pat(text)] + scan_items(s.skip(u))
                    } else {
                        seq![PatItem::BadRegex(text)]
                    }
                } else {
                    seq![PatItem::Lit(text)] + scan_items(s.skip(u))
                }
            },
        }
    }
}

/// Scans a fixture text into logical lines, each either plain text or a
/// regex compiled from the line's literal characters and marker-span
/// contents. After an error nothing more is yielded.
pub struct PatternLines {
    chars: Vec<char>,
    pos: usize,
    read_state: ReadState,
    pattern_start: String,
    pattern_end: String,
}

impl PatternLines {
    pub closed spec fn wf(self) -> bool {
        &&& self.pos as int <= self.chars@.len()
        &&& self.read_state != ReadState::WithPattern
        &&& self.pattern_start@ == open_marker()
        &&& self.pattern_end@ == close_marker()
    }

    /// The items not yet yielded.
    pub closed spec fn remaining_items(self) -> Seq<PatItem> {
        if self.read_state == ReadState::Error || self.read_state == ReadState::Eof {
            Seq::empty()
        } else {
            scan_items(self.chars@.skip(self.pos as int))
        }
    }

    pub fn new(text: &str) -> (it: PatternLines)
        ensures
            it.wf(),
            it.remaining_items() == scan_items(text@),
    {
        let chars = chars_of(text);
        let pattern_start = "<<<".to_owned();
        let pattern_end = ">>>".to_owned();
        proof {
            reveal_strlit("<<<");
            reveal_strlit(">>>");
            assert(pattern_start@ =~= open_marker());
            assert(pattern_end@ =~= close_marker());
        }
        let it = PatternLines {
            chars,
            pos: 0,
            read_state: ReadState::WithoutPattern,
            pattern_start,
            pattern_end,
        };
        proof {
            assert(it.chars@.skip(0) =~= text@);
        }
        it
    }

    /// The next `n` characters of the input, or all that remain if fewer.
    fn peek_n(&self, n: usize) -> (r: String)
        requires
            self.pos as int <= self.chars@.len(),
        ensures
            r@ == self.chars@.subrange(
                self.pos as int,
                if self.pos as int + n as int <= self.chars@.len() {
                    self.pos as int + n as int
                } else {
                    self.chars@.len() as int
                },
            ),
    {
        let len = self.chars.len();
        let end = if n > len - self.pos {
            len
        } else {
            self.pos + n
        };
        string_of_range(&self.chars, self.pos, end)
    }

    /// Advances past the next `n` characters, or to the end if fewer remain.
    fn skip_n(&mut self, n: usize)
        requires
            old(self).pos as int <= old(self).chars@.len(),
        ensures
            final(self).chars == old(self).chars,
            final(self).read_state == old(self).read_state,
            final(self).pattern_start == old(self).pattern_start,
            final(self).pattern_end == old(self).pattern_end,
            final(self).pos as int == if old(self).pos as int + n as int <= old(
                self,
            ).chars@.len() {
                old(self).pos as int + n as int
            } else {
                old(self).chars@.len() as int
            },
    {
        let len = self.chars.len();
        if n > len - self.pos {
            self.pos = len;
        } else {
            self.pos = self.pos + n;
        }
    }

    /// Whether the opening marker stands at the cursor.
    fn is_pattern_start(&self) -> (r: bool)
        requires
            self.pos as int <= self.chars@.len(),
            self.pattern_start@ == open_marker(),
        ensures
            r == marker_at(self.chars@, self.pos as int, open_marker()),
    {
        let n = self.pattern_start.as_str().unicode_len();
        let next = self.peek_n(n);
        let r = next == self.pattern_start;
        proof {
            if marker_at(self.chars@, self.pos as int, open_marker()) {
                assert(next@ =~= self.pattern_start@);
            }
            if r {
                assert(next@.len() == 3);
                assert(self.pos as int + 3 <= self.chars@.len());
                assert(self.chars@[self.pos as int] == next@[0]);
                assert(self.chars@[self.pos as int + 1] == next@[1]);
                assert(self.chars@[self.pos as int + 2] == next@[2]);
            }
        }
        r
    }

    /// Advances past the opening marker.
    fn skip_pattern_start(&mut self)
        requires
            old(self).pos as int <= old(self).chars@.len(),
            old(self).pattern_start@ == open_marker(),
        ensures
            final(self).chars == old(self).chars,
            final(self).read_state == old(self).read_state,
            final(self).pattern_start == old(self).pattern_start,
            final(self).pattern_end == old(self).pattern_end,
            final(self).pos as int == if old(self).pos as int + 3 <= old(self).chars@.len() {
                old(self).pos as int + 3
            } else {
                old(self).chars@.len() as int
            },
    {
        let n = self.pattern_start.as_str().unicode_len();
        self.skip_n(n);
    }

    /// Whether the closing marker stands at the cursor.
    fn is_pattern_end(&self) -> (r: bool)
        requires
            self.pos as int <= self.chars@.len(),
            self.pattern_end@ == close_marker(),
        ensures
            r == marker_at(self.chars@, self.pos as int, close_marker()),
    {
        let n = self.pattern_end.as_str().unicode_len();
        let next = self.peek_n(n);
        let r = next == self.pattern_end;
        proof {
            if marker_at(self.chars@, self.pos as int, close_marker()) {
                assert(next@ =~= self.pattern_end@);
            }
            if r {
                assert(next@.len() == 3);
                assert(self.pos as int + 3 <= self.chars@.len());
                assert(self.chars@[self.pos as int] == next@[0]);
                assert(self.chars@[self.pos as int + 1] == next@[1]);
                assert(self.chars@[self.pos as int + 2] == next@[2]);
            }
        }
        r
    }

    /// Advances past the closing marker.
    fn skip_pattern_end(&mut self)
        requires
            old(self).pos as int <= old(self).chars@.len(),
            old(self).pattern_end@ == close_marker(),
        ensures
            final(self).chars == old(self).chars,
            final(self).read_state == old(self).read_state,
            final(self).pattern_start == old(self).pattern_start,
            final(self).pattern_end == old(self).pattern_end,
            final(self).pos as int == if old(self).pos as int + 3 <= old(self).chars@.len() {
                old(self).pos as int + 3
            } else {
                old(self).chars@.len() as int
            },
    {
        let n = self.pattern_end.as_str().unicode_len();
        self.skip_n(n);
    }

    /// Reads one marker span: skips the opening marker, collects the raw
    /// characters up to the first closing marker, and skips that marker.
    /// Reaching the end of the input first is the unterminated-marker error.
    fn read_pattern(&mut self) -> (r: Result<String, ()>)
        requires
            old(self).pos as int <= old(self).chars@.len(),
            old(self).pattern_start@ == open_marker(),
            old(self).pattern_end@ == close_marker(),
            marker_at(old(self).chars@, old(self).pos as int, open_marker()),
        ensures
            final(self).chars == old(self).chars,
            final(self).read_state == old(self).read_state,
            final(self).pattern_start == old(self).pattern_start,
            final(self).pattern_end == old(self).pattern_end,
            final(self).pos as int <= final(self).chars@.len(),
            match find_close(old(self).chars@.skip(old(self).pos as int + 3)) {
                None => r is Err && final(self).pos as int == old(self).chars@.len(),
                Some(j) => {
                    &&& r matches Ok(p)
                    &&& p@ == old(self).chars@.skip(old(self).pos as int + 3).take(j)
                    &&& final(self).pos as int == old(self).pos as int + 3 + j + 3
                },
            },
    {
        let mut pattern = String::new();
        let ghost cs = old(self).pos as int + 3;
        let ghost t = old(self).chars@.skip(cs);
        self.skip_pattern_start();
        let len = self.chars.len();
        loop
            invariant
                self.chars == old(self).chars,
                self.read_state == old(self).read_state,
                self.pattern_start == old(self).pattern_start,
                self.pattern_end == old(self).pattern_end,
                self.pattern_start@ == open_marker(),
                self.pattern_end@ == close_marker(),
                len == self.chars@.len(),
                cs == old(self).pos as int + 3,
                3 <= cs <= self.pos as int <= len,
                t == self.chars@.skip(cs),
                pattern@ == self.chars@.subrange(cs, self.pos as int),
                forall|k: int| #![trigger self.chars@[k]] cs <= k < self.pos as int
                    ==> !marker_at(self.chars@, k, close_marker()),
            ensures
                marker_at(self.chars@, self.pos as int, close_marker()),
            decreases len - self.pos,
        {
            if self.is_pattern_end() {
                break ;
            }
            if self.pos == len {
                proof {
                    assert forall|k: int| 0 <= k && k + 3 <= t.len() implies !marker_at(
                        t,
                        k,
                        close_marker(),
                    ) by {
                        assert(t[k] == self.chars@[cs + k]);
                        assert(t[k + 1] == self.chars@[cs + k + 1]);
                        assert(t[k + 2] == self.chars@[cs + k + 2]);
                        assert(!marker_at(self.chars@, cs + k, close_marker()));
                    }
                    lemma_find_close_none(t);
                }
                return Err(());
            }
            let c = self.chars[self.pos];
            self.pos = self.pos + 1;
            push_char(&mut pattern, c);
            proof {
                assert(pattern@ =~= self.chars@.subrange(cs, self.pos as int));
            }
        }
        let ghost m = self.pos as int - cs;
        proof {
            assert(marker_at(t, m, close_marker())) by {
                assert(t[m] == self.chars@[cs + m]);
                assert(t[m + 1] == self.chars@[cs + m + 1]);
                assert(t[m + 2] == self.chars@[cs + m + 2]);
            }
            assert forall|k: int| 0 <= k < m implies !marker_at(t, k, close_marker()) by {
                assert(t[k] == self.chars@[cs + k]);
                assert(t[k + 1] == self.chars@[cs + k + 1]);
                assert(t[k + 2] == self.chars@[cs + k + 2]);
                assert(!marker_at(self.chars@, cs + k, close_marker()));
            }
            lemma_find_close_first(t, m);
            assert(pattern@ =~= t.take(m));
        }
        self.skip_pattern_end();
        Ok(pattern)
    }

    /// Yields the next scanned line: `Ok` with a literal or pattern line, or
    /// `Err` on an unterminated marker or a pattern the regex crate rejects.
    /// After an error, or after the input's end, it yields nothing more.
    #[verifier::loop_isolation(false)]
    pub fn next(&mut self) -> (r: Option<Result<PatternLine, String>>)
        requires
            old(self).wf(),
        ensures
            final(self).wf(),
            old(self).remaining_items().len() == 0 ==> r is None && final(self)
                .remaining_items().len() == 0,
            old(self).remaining_items().len() > 0 ==> {
                &&& final(self).remaining_items() == old(self).remaining_items().drop_first()
                &&& match old(self).remaining_items()[0] {
                    PatItem::Lit(t) => r matches Some(Ok(PatternLine::NoPattern(l))) && l@ == t,
                    PatItem::Pat(t) => r matches Some(Ok(PatternLine::Pattern(re)))
                        && re.spec_source() == t,
                    PatItem::Unterminated => r matches Some(Err(m)) && m@
                        == "pattern is invalid"@,
                    PatItem::BadRegex(t) => r matches Some(Err(m)) && m@ == regex_error_of(t),
                }
            },
    {
        if self.read_state == ReadState::Error || self.read_state == ReadState::Eof {
            return None;
        }
        let len = self.chars.len();
        if self.pos == len {
            proof {
                assert(self.chars@.skip(self.pos as int) =~= Seq::<char>::empty());
            }
            return None;
        }
        let ghost ls = self.pos as int;
        let ghost s_line = self.chars@.skip(ls);
        let mut line = String::new();
        proof {
            lemma_scan_line_used(s_line);
        }
        loop
            invariant
                self.pos < len,
                self.read_state == ReadState::WithoutPattern || self.read_state
                    == ReadState::WithPattern,
                ({
                    let cur = scan_line(self.chars@.skip(self.pos as int));
                    let full = scan_line(s_line);
                    match cur {
                        LineScan::Unterminated => full is Unterminated,
                        LineScan::Line { text, pat, used } => full == (LineScan::Line {
                            text: line@ + text,
                            pat: (self.read_state == ReadState::WithPattern) || pat,
                            used: (self.pos - ls) + used,
                        }),
                    }
                }),
                len == self.chars@.len(),
                0 <= ls <= self.pos as int <= len,
                ls < len,
                s_line == self.chars@.skip(ls),
                self.chars == old(self).chars,
                self.pattern_start == old(self).pattern_start,
                self.pattern_end == old(self).pattern_end,
                self.pattern_start@ == open_marker(),
                self.pattern_end@ == close_marker(),
                old(self).remaining_items() == scan_items(s_line),
            decreases len - self.pos,
        {
            let ghost p0 = self.pos as int;
            let ghost s_p0 = self.chars@.skip(p0);
            let ghost line0 = line@;
            let mut flushed_nl = false;
            if self.is_pattern_start() {
                self.read_state = ReadState::WithPattern;
                proof {
                    assert(marker_at(s_p0, 0, open_marker())) by {
                        assert(s_p0[0] == self.chars@[p0]);
                        assert(s_p0[1] == self.chars@[p0 + 1]);
                        assert(s_p0[2] == self.chars@[p0 + 2]);
                    }
                    assert(s_p0.skip(3) =~= self.chars@.skip(p0 + 3));
                    lemma_find_close_range(s_p0.skip(3));
                }
                let pat = self.read_pattern();
                match pat {
                    Err(_) => {
                        self.read_state = ReadState::Error;
                        proof {
                            assert(scan_line(s_p0) is Unterminated);
                            assert(scan_line(s_line) is Unterminated);
                            assert(scan_items(s_line) =~= seq![PatItem::Unterminated]);
                            assert(old(self).remaining_items().drop_first()
                                =~= Seq::<PatItem>::empty());
                        }
                        return Some(Err("pattern is invalid".to_owned()));
                    },
                    Ok(p) => {
                        proof {
                            let j = find_close(s_p0.skip(3)).unwrap();
                            assert(p@ =~= s_p0.skip(3).take(j));
                            assert(s_p0.skip(3 + j + 3) =~= self.chars@.skip(p0 + 3 + j + 3));
                        }
                        line.append(p.as_str());
                        proof {
                            let j = find_close(s_p0.skip(3)).unwrap();
                            let content = s_p0.skip(3).take(j);
                            let rest = s_p0.skip(3 + j + 3);
                            assert(line@ == line0 + content);
                            if rest.len() == 0 {
                                assert(scan_line(s_p0) == (LineScan::Line {
                                    text: content,
                                    pat: true,
                                    used: s_p0.len() as int,
                                }));
                            } else {
                                match scan_line(rest) {
                                    LineScan::Unterminated => {
                                        assert(scan_line(s_p0) is Unterminated);
                                    },
                                    LineScan::Line { text, pat, used } => {
                                        assert(scan_line(s_p0) == (LineScan::Line {
                                            text: content + text,
                                            pat: true,
                                            used: 3 + j + 3 + used,
                                        }));
                                        assert(line0 + (content + text) =~= (line0 + content)
                                            + text);
                                    },
                                }
                            }
                        }
                    },
                }
            } else {
                let c = self.chars[self.pos];
                proof {
                    assert(s_p0[0] == self.chars@[p0]);
                    assert(s_p0.drop_first() =~= self.chars@.skip(p0 + 1));
                    assert(!marker_at(s_p0, 0, open_marker())) by {
                        if marker_at(s_p0, 0, open_marker()) {
                            assert(s_p0[1] == self.chars@[p0 + 1]);
                            assert(s_p0[2] == self.chars@[p0 + 2]);
                            assert(marker_at(self.chars@, p0, open_marker()));
                        }
                    }
                }
                self.pos = self.pos + 1;
                push_char(&mut line, c);
                proof {
                    assert(line@ =~= line0 + seq![c]);
                    if c == '\n' || p0 + 1 == len {
                        assert(scan_line(s_p0) == (LineScan::Line {
                            text: seq![c],
                            pat: false,
                            used: 1int,
                        }));
                    } else {
                        match scan_line(self.chars@.skip(p0 + 1)) {
                            LineScan::Unterminated => {
                                assert(scan_line(s_p0) is Unterminated);
                            },
                            LineScan::Line { text, pat, used } => {
                                assert(scan_line(s_p0) == (LineScan::Line {
                                    text: seq![c] + text,
                                    pat,
                                    used: 1 + used,
                                }));
                                assert(line0 + (seq![c] + text) =~= (line0 + seq![c]) + text);
                            },
                        }
                    }
                }
                if c == '\n' {
                    flushed_nl = true;
                }
            }
            let eof = self.pos == len;
            if flushed_nl || eof {
                proof {
                    lemma_scan_line_used(s_line);
                    if eof {
                        assert(self.chars@.skip(self.pos as int) =~= Seq::<char>::empty());
                        assert(scan_line(self.chars@.skip(self.pos as int)) == (LineScan::Line {
                            text: Seq::<char>::empty(),
                            pat: false,
                            used: 0int,
                        }));
                        assert(line@ + Seq::<char>::empty() =~= line@);
                    }
                    let full = scan_line(s_line);
                    assert(full == (LineScan::Line {
                        text: line@,
                        pat: self.read_state == ReadState::WithPattern,
                        used: self.pos - ls,
                    }));
                    assert(s_line.skip(self.pos - ls) =~= self.chars@.skip(self.pos as int));
                }
                let item = if self.read_state == ReadState::WithPattern {
                    match PatternRegex::new(line.as_str()) {
                        Err(e) => {
                            self.read_state = ReadState::Error;
                            proof {
                                assert(scan_items(s_line) =~= seq![PatItem::BadRegex(line@)]);
                                assert(old(self).remaining_items().drop_first()
                                    =~= Seq::<PatItem>::empty());
                            }
                            return Some(Err(e));
                        },
                        Ok(re) => PatternLine::Pattern(re),
                    }
                } else {
                    PatternLine::NoPattern(line)
                };
                self.read_state = if eof {
                    ReadState::Eof
                } else {
                    ReadState::WithoutPattern
                };
                proof {
                    assert(scan_items(s_line).drop_first() =~= scan_items(
                        self.chars@.skip(self.pos as int),
                    ));
                }
                return Some(Ok(item));
            }
        }
    }
}

} // verus!
