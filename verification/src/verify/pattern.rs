use crate::chunk::pattern::{
    lemma_scan_line_used, regex_error_of, regex_find_start, scan_items, scan_line, LineScan,
    PatItem, PatternLine, PatternLines,
};
use crate::text::chars::{chars_of, lossy_of, lossy_string};
use crate::verify::diff::{diff_rep, split_lines, split_lines_exec, Diff, DiffModel, Error};
use vstd::prelude::*;

verus! {

/// The outcome of walking expected pattern lines against actual lines:
/// a fatal scanner error at a row, the first mismatch — on a pattern line or
/// a literal one, with either side absent where it ran out — or a clean run.
pub enum PatOutcome {
    Invalid { unterminated: bool, row: int },
    Found { pat: bool, expected: Option<Seq<char>>, actual: Option<Seq<char>>, row: int },
    Clean,
}

/// Walks the scanned items against the actual lines in lock-step, starting
/// at `row`. A literal item must equal its actual line byte for byte; a
/// pattern item must match its actual line from the very first character,
/// though it need not reach the line's end. An actual line left over after
/// the items yields a mismatch with no expected side.
pub open spec fn pat_diff_from(items: Seq<PatItem>, alines: Seq<Seq<char>>, row: int) -> PatOutcome
    decreases items.len(),
{
    if items.len() == 0 {
        if alines.len() > 0 {
            PatOutcome::Found { pat: false, expected: None, actual: Some(alines[0]), row }
        } else {
            PatOutcome::Clean
        }
    } else {
        match items[0] {
            PatItem::Unterminated => PatOutcome::Invalid { unterminated: true, row },
            PatItem::BadRegex(_) => PatOutcome::Invalid { unterminated: false, row },
            PatItem::Lit(t) => {
                if alines.len() == 0 {
                    PatOutcome::Found { pat: false, expected: Some(t), actual: None, row }
                } else if t != alines[0] {
                    PatOutcome::Found {
                        pat: false,
                        expected: Some(t),
                        actual: Some(alines[0]),
                        row,
                    }
                } else {
                    pat_diff_from(items.drop_first(), alines.drop_first(), row + 1)
                }
            },
            PatItem::Pat(t) => {
                if alines.len() == 0 {
                    PatOutcome::Found { pat: true, expected: Some(t), actual: None, row }
                } else if regex_find_start(t, alines[0]) != Some(0usize) {
                    PatOutcome::Found {
                        pat: true,
                        expected: Some(t),
                        actual: Some(alines[0]),
                        row,
                    }
                } else {
                    pat_diff_from(items.drop_first(), alines.drop_first(), row + 1)
                }
            },
        }
    }
}

/// The pattern diff of a fixture text against an actual byte stream.
pub open spec fn pat_diff_model(expected: Seq<char>, actual: Seq<u8>) -> PatOutcome {
    pat_diff_from(scan_items(expected), split_lines(lossy_of(actual)), 1)
}

/// What the pattern comparator promises of its result: it reports exactly
/// the outcome that `pat_diff_model` gives for its two inputs. The reason of
/// an unterminated-marker error is the fixed message; the reason of a
/// rejected pattern is the regex crate's own compile-error text.
pub open spec fn pat_diff_post(
    expected: Seq<char>,
    actual: Seq<u8>,
    r: Result<Option<Diff>, Error>,
) -> bool {
    match pat_diff_model(expected, actual) {
        PatOutcome::Clean => r matches Ok(d) && d is None,
        PatOutcome::Found { pat, expected: ex, actual: ac, row } => {
            &&& r matches Ok(d)
            &&& r matches Ok(Some(diff)) && diff_rep(diff) == if pat {
                DiffModel::PatternLine { expected: ex, actual: ac, row }
            } else {
                DiffModel::Line { expected: ex, actual: ac, row }
            }
        },
        PatOutcome::Invalid { unterminated, row } => {
            &&& r matches Err(Error::InvalidPattern { reason, row: rr })
            &&& rr as int == row
            &&& reason@ == if unterminated {
                "pattern is invalid"@
            } else {
                bad_regex_reason(expected, row)
            }
        },
    }
}

/// The compile-error text of the pattern line at 1-based row `row` of the
/// scanned fixture text.
pub open spec fn bad_regex_reason(expected: Seq<char>, row: int) -> Seq<char> {
    regex_error_of(bad_regex_text(scan_items(expected), row))
}

/// The text of the item at 1-based row `row`, where it is a rejected
/// pattern.
pub open spec fn bad_regex_text(items: Seq<PatItem>, row: int) -> Seq<char> {
    if 0 <= row - 1 < items.len() && items[row - 1] is BadRegex {
        items[row - 1]->BadRegex_0
    } else {
        Seq::empty()
    }
}

/// A text scans to at most one item per character.
pub proof fn lemma_scan_items_len(s: Seq<char>)
    ensures
        scan_items(s).len() <= s.len(),
    decreases s.len(),
{
    if s.len() > 0 {
        lemma_scan_line_used(s);
        match scan_line(s) {
            LineScan::Unterminated => {},
            LineScan::Line { text, pat, used } => {
                lemma_scan_items_len(s.skip(used));
            },
        }
    }
}

/// Compares an expected pattern text against an actual byte stream: the
/// actual side is decoded lossily and split into logical lines, the expected
/// side is scanned into literal and pattern lines, and the two are walked in
/// lock-step as `pat_diff_model` says. A scanner error aborts the whole
/// comparison. The row counts consumed expected lines, starting at 1.
pub fn eval_pat_diff(expected: &str, actual: &[u8]) -> (r: Result<Option<Diff>, Error>)
    requires
        expected@.len() < usize::MAX,
    ensures
        pat_diff_post(expected@, actual@, r),
{
    let actual_string = lossy_string(actual);
    let actual_chars = chars_of(actual_string.as_str());
    let actual_lines = split_lines_exec(&actual_chars);
    let mut expected_lines = PatternLines::new(expected);
    let ghost items = scan_items(expected@);
    let ghost alines = split_lines(lossy_of(actual@));
    proof {
        lemma_scan_items_len(expected@);
    }
    let a_len = actual_lines.len();
    let mut row: usize = 1;
    proof {
        assert(items.skip(0) =~= items);
        assert(alines.skip(0) =~= alines);
    }
    loop
        invariant
            items == scan_items(expected@),
            alines == split_lines(lossy_of(actual@)),
            actual_lines.deep_view() == alines,
            a_len == alines.len(),
            items.len() <= expected@.len() < usize::MAX,
            expected_lines.wf(),
            expected_lines.remaining_items() == items.skip(row - 1),
            1 <= row,
            row - 1 <= items.len(),
            row - 1 <= alines.len(),
            pat_diff_from(items, alines, 1) == pat_diff_from(
                items.skip(row - 1),
                alines.skip(row - 1),
                row as int,
            ),
        ensures
            row - 1 == items.len(),
            row - 1 <= alines.len(),
            a_len == alines.len(),
            actual_lines.deep_view() == alines,
            pat_diff_from(items, alines, 1) == pat_diff_from(
                Seq::<PatItem>::empty(),
                alines.skip(row - 1),
                row as int,
            ),
        decreases expected_lines.remaining_items().len(),
    {
        let ghost k = row - 1int;
        proof {
            if items.skip(k).len() > 0 {
                assert(items.skip(k)[0] == items[k]);
                assert(items.skip(k).drop_first() =~= items.skip(k + 1));
            }
            if alines.skip(k).len() > 0 {
                assert(alines.skip(k)[0] == alines[k]);
                assert(alines.skip(k).drop_first() =~= alines.skip(k + 1));
            }
        }
        let next = expected_lines.next();
        match next {
            None => {
                proof {
                    assert(items.skip(k) =~= Seq::<PatItem>::empty());
                }
                break ;
            },
            Some(Err(reason)) => {
                return Err(Error::InvalidPattern { reason, row });
            },
            Some(Ok(PatternLine::NoPattern(expected_line))) => {
                if row - 1 >= a_len {
                    proof {
                        assert(alines.skip(k).len() == 0);
                    }
                    let diff = Diff::Line { expected: Some(expected_line), actual: None, row };
                    return Ok(Some(diff));
                }
                let actual_line = &actual_lines[row - 1];
                if !(expected_line == *actual_line) {
                    let diff = Diff::Line {
                        expected: Some(expected_line),
                        actual: Some(actual_line.clone()),
                        row,
                    };
                    return Ok(Some(diff));
                }
            },
            Some(Ok(PatternLine::Pattern(expected_line))) => {
                if row - 1 >= a_len {
                    proof {
                        assert(alines.skip(k).len() == 0);
                    }
                    let diff = Diff::PatternLine {
                        expected: Some(expected_line.as_str().to_owned()),
                        actual: None,
                        row,
                    };
                    return Ok(Some(diff));
                }
                let actual_line = &actual_lines[row - 1];
                let found = expected_line.find(actual_line.as_str());
                let matches_from_start = match found {
                    Some(start) => start == 0,
                    None => false,
                };
                if !matches_from_start {
                    let diff = Diff::PatternLine {
                        expected: Some(expected_line.as_str().to_owned()),
                        actual: Some(actual_line.clone()),
                        row,
                    };
                    return Ok(Some(diff));
                }
            },
        }
        row = row + 1;
    }
    if row - 1 < a_len {
        let actual_line = &actual_lines[row - 1];
        let diff = Diff::Line { expected: None, actual: Some(actual_line.clone()), row };
        return Ok(Some(diff));
    }
    proof {
        assert(alines.skip(row - 1).len() == 0);
    }
    Ok(None)
}

/// The observable content of a pattern-comparison result: the divergence it
/// reports, or the error text and row.
pub open spec fn pat_result_rep(r: Result<Option<Diff>, Error>) -> Result<
    Option<DiffModel>,
    (Seq<char>, int),
> {
    match r {
        Ok(None) => Ok(None),
        Ok(Some(d)) => Ok(Some(diff_rep(d))),
        Err(Error::InvalidPattern { reason, row }) => Err((reason@, row as int)),
    }
}

/// Law: the pattern comparator is a function of its two inputs — any two
/// results that its contract admits for the same fixture text and actual
/// stream hold identical content.
pub proof fn lemma_pat_diff_deterministic(
    expected: Seq<char>,
    actual: Seq<u8>,
    r1: Result<Option<Diff>, Error>,
    r2: Result<Option<Diff>, Error>,
)
    requires
        pat_diff_post(expected, actual, r1),
        pat_diff_post(expected, actual, r2),
    ensures
        pat_result_rep(r1) == pat_result_rep(r2),
{
}

} // verus!
