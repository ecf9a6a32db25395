use crate::text::chars::{chars_of, lossy_of, lossy_string, utf8_str};
use crate::verify::diff::{
    diff_index, lemma_diff_index_at, lemma_diff_index_none, opt_diff_rep, split_lines,
    split_lines_exec, Diff, DiffModel,
};
use vstd::prelude::*;
use vstd::slice::slice_index_get;
use vstd::utf8::{decode_utf8, valid_utf8};

verus! {

/// The exact line diff of two texts: `None` where their logical lines agree
/// whole, else the first differing line of each side — absent where that
/// side ran out — with its 1-based row.
pub open spec fn str_diff_model(es: Seq<char>, act: Seq<char>) -> Option<DiffModel> {
    let el = split_lines(es);
    let al = split_lines(act);
    let i = diff_index(el, al);
    if i == -1 {
        None
    } else {
        Some(
            DiffModel::Line {
                expected: if i < el.len() {
                    Some(el[i])
                } else {
                    None
                },
                actual: if i < al.len() {
                    Some(al[i])
                } else {
                    None
                },
                row: i + 1,
            },
        )
    }
}

/// The exact diff of two byte streams. An expected side in well-formed
/// UTF-8 is compared line by line against the lossily decoded actual side;
/// otherwise the streams are compared byte for byte, and a mismatch carries
/// no line to show.
pub open spec fn exact_diff_model(e: Seq<u8>, a: Seq<u8>) -> Option<DiffModel> {
    if valid_utf8(e) {
        str_diff_model(decode_utf8(e), lossy_of(a))
    } else if e == a {
        None
    } else {
        Some(DiffModel::Byte)
    }
}

/// Returns the first line difference between an `expected` and an `actual`
/// text, comparing logical lines pairwise.
pub fn eval_exact_diff_as_str(expected: &str, actual: &str) -> (r: Option<Diff>)
    ensures
        opt_diff_rep(r) == str_diff_model(expected@, actual@),
        expected@ == actual@ ==> r is None,
{
    let e_chars = chars_of(expected);
    let a_chars = chars_of(actual);
    let expected_lines = split_lines_exec(&e_chars);
    let actual_lines = split_lines_exec(&a_chars);
    let ghost el = split_lines(expected@);
    let ghost al = split_lines(actual@);
    let e_len = expected_lines.len();
    let a_len = actual_lines.len();
    let mut line: usize = 0;
    loop
        invariant
            el == split_lines(expected@),
            al == split_lines(actual@),
            expected_lines.deep_view() == el,
            actual_lines.deep_view() == al,
            e_len == el.len(),
            a_len == al.len(),
            line <= e_len,
            line <= a_len,
            forall|k: int| 0 <= k < line ==> el[k] == al[k],
        decreases e_len - line,
    {
        if line >= e_len && line >= a_len {
            proof {
                assert(el =~~= al);
                lemma_diff_index_none(el, al);
            }
            return None;
        }
        let row = line + 1;
        if line < e_len && line < a_len {
            let e_line = &expected_lines[line];
            let a_line = &actual_lines[line];
            if *e_line == *a_line {
                proof {
                    assert(el[line as int] == al[line as int]);
                }
                line = row;
            } else {
                proof {
                    assert(el.take(line as int) =~= al.take(line as int));
                    lemma_diff_index_at(el, al, line as int);
                }
                return Some(
                    Diff::Line {
                        expected: Some(e_line.clone()),
                        actual: Some(a_line.clone()),
                        row,
                    },
                );
            }
        } else if line < a_len {
            proof {
                assert(el.take(line as int) =~= al.take(line as int));
                lemma_diff_index_at(el, al, line as int);
            }
            let a_line = &actual_lines[line];
            return Some(Diff::Line { expected: None, actual: Some(a_line.clone()), row });
        } else {
            proof {
                assert(el.take(line as int) =~= al.take(line as int));
                lemma_diff_index_at(el, al, line as int);
            }
            let e_line = &expected_lines[line];
            return Some(Diff::Line { expected: Some(e_line.clone()), actual: None, row });
        }
    }
}

/// Returns the first difference between two byte streams compared byte for
/// byte. A mismatch carries no line text: only that the streams differ.
pub fn eval_exact_diff_as_bytes(expected: &[u8], actual: &[u8]) -> (r: Option<Diff>)
    ensures
        r is None <==> expected@ == actual@,
        r matches Some(d) ==> d is Byte,
{
    let e_len = expected.len();
    let a_len = actual.len();
    if e_len != a_len {
        return Some(Diff::Byte);
    }
    let mut i: usize = 0;
    while i < e_len
        invariant
            e_len == expected@.len(),
            a_len == actual@.len(),
            e_len == a_len,
            i <= e_len,
            forall|k: int| 0 <= k < i ==> expected@[k] == actual@[k],
        decreases e_len - i,
    {
        let eb = *slice_index_get(expected, i);
        let ab = *slice_index_get(actual, i);
        if eb != ab {
            return Some(Diff::Byte);
        }
        i = i + 1;
    }
    proof {
        assert(expected@ =~= actual@);
    }
    None
}

/// Compares an expected byte stream against an actual one. An expected side
/// in well-formed UTF-8 is split into logical lines and compared against the
/// lossily decoded actual side; any other expected side is compared byte for
/// byte. Comparing a stream with itself reports no divergence.
pub fn eval_exact_diff(expected: &[u8], actual: &[u8]) -> (r: Option<Diff>)
    ensures
        opt_diff_rep(r) == exact_diff_model(expected@, actual@),
        expected@ == actual@ ==> r is None,
{
    let expected_str = utf8_str(expected);
    let actual_str = lossy_string(actual);
    match expected_str {
        Some(e) => eval_exact_diff_as_str(e, actual_str.as_str()),
        None => eval_exact_diff_as_bytes(expected, actual),
    }
}

/// Law: the exact comparator is a function of its two inputs — any two
/// results that its contract admits for the same byte streams describe the
/// same divergence.
pub proof fn lemma_exact_diff_deterministic(
    e: Seq<u8>,
    a: Seq<u8>,
    r1: Option<Diff>,
    r2: Option<Diff>,
)
    requires
        opt_diff_rep(r1) == exact_diff_model(e, a),
        opt_diff_rep(r2) == exact_diff_model(e, a),
    ensures
        opt_diff_rep(r1) == opt_diff_rep(r2),
{
}

} // verus!
