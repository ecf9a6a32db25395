use crate::text::chars::string_of_range;
use vstd::prelude::*;

verus! {

/// The first divergence between an actual output and an expected fixture.
/// Either side of a line mismatch may be absent where that stream ran out
/// first. `Byte` reports a mismatch between streams compared byte for byte,
/// with no line to show.
#[derive(Clone, Debug, PartialEq, Eq)]
pub enum Diff {
    Line { expected: Option<String>, actual: Option<String>, row: usize },
    PatternLine { expected: Option<String>, actual: Option<String>, row: usize },
    Byte,
}

/// A fatal scanner error: a marker was opened and never closed, or a pattern
/// line's accumulated text failed to compile. `row` is 1-based.
#[derive(Clone, Debug, PartialEq, Eq)]
pub enum Error {
    InvalidPattern { reason: String, row: usize },
}

/// The mathematical shadow of a `Diff`: the same shape over sequences.
pub enum DiffModel {
    Line { expected: Option<Seq<char>>, actual: Option<Seq<char>>, row: int },
    PatternLine { expected: Option<Seq<char>>, actual: Option<Seq<char>>, row: int },
    Byte,
}

/// What a `Diff` value says, as a `DiffModel`.
pub open spec fn diff_rep(d: Diff) -> DiffModel {
    match d {
        Diff::Line { expected, actual, row } => DiffModel::Line {
            expected: expected.deep_view(),
            actual: actual.deep_view(),
            row: row as int,
        },
        Diff::PatternLine { expected, actual, row } => DiffModel::PatternLine {
            expected: expected.deep_view(),
            actual: actual.deep_view(),
            row: row as int,
        },
        Diff::Byte => DiffModel::Byte,
    }
}

pub open spec fn opt_diff_rep(r: Option<Diff>) -> Option<DiffModel> {
    match r {
        None => None,
        Some(d) => Some(diff_rep(d)),
    }
}

/// Splits a text into its logical lines: each line ends right after a
/// newline character, and a final line without one is kept.
pub open spec fn split_lines(s: Seq<char>) -> Seq<Seq<char>>
    decreases s.len(),
{
    if s.len() == 0 {
        Seq::empty()
    } else {
        let r = split_lines(s.drop_first());
        if s[0] == '\n' {
            seq![seq![s[0]]] + r
        } else if r.len() == 0 {
            seq![seq![s[0]]]
        } else {
            seq![seq![s[0]] + r[0]] + r.drop_first()
        }
    }
}

/// A text without newlines is one single line.
pub proof fn lemma_split_lines_no_nl(s: Seq<char>)
    requires
        s.len() > 0,
        forall|i: int| 0 <= i < s.len() ==> s[i] != '\n',
    ensures
        split_lines(s) == seq![s],
    decreases s.len(),
{
    if s.len() == 1 {
        assert(split_lines(s.drop_first()) =~= Seq::<Seq<char>>::empty());
        assert(seq![s[0]] =~= s);
        assert(split_lines(s) =~= seq![s]);
    } else {
        lemma_split_lines_no_nl(s.drop_first());
        assert(seq![s[0]] + s.drop_first() =~= s);
        assert(split_lines(s) =~= seq![s]);
    }
}

/// Where the first newline of a text stands at `k`, the first logical line
/// is the text through that newline, and the rest splits on its own.
pub proof fn lemma_split_lines_step(s: Seq<char>, k: int)
    requires
        0 <= k < s.len(),
        s[k] == '\n',
        forall|i: int| 0 <= i < k ==> s[i] != '\n',
    ensures
        split_lines(s) == seq![s.take(k + 1)] + split_lines(s.skip(k + 1)),
    decreases s.len(),
{
    if k == 0 {
        assert(s.take(1) =~= seq![s[0]]);
        assert(s.skip(1) =~= s.drop_first());
        assert(split_lines(s) =~= seq![s.take(1)] + split_lines(s.skip(1)));
    } else {
        let d = s.drop_first();
        assert(d[k - 1] == '\n');
        assert(forall|i: int| 0 <= i < k - 1 ==> d[i] == s[i + 1] && #[trigger] d[i] != '\n');
        lemma_split_lines_step(d, k - 1);
        assert(seq![s[0]] + d.take(k) =~= s.take(k + 1));
        assert(d.skip(k) =~= s.skip(k + 1));
        assert(split_lines(s) =~= seq![s.take(k + 1)] + split_lines(s.skip(k + 1)));
    }
}

/// Splits a character vector into its logical lines, as `split_lines` says.
pub fn split_lines_exec(chars: &Vec<char>) -> (r: Vec<String>)
    ensures
        r.deep_view() == split_lines(chars@),
{
    let len = chars.len();
    let mut out: Vec<String> = Vec::new();
    let mut start: usize = 0;
    let mut i: usize = 0;
    proof {
        assert(chars@.skip(0) =~= chars@);
        assert(out.deep_view() + split_lines(chars@) =~= split_lines(chars@));
    }
    while i < len
        invariant
            start <= i <= len,
            len == chars@.len(),
            split_lines(chars@) == out.deep_view() + split_lines(chars@.skip(start as int)),
            forall|k: int| start <= k < i ==> chars@[k] != '\n',
        decreases len - i,
    {
        if chars[i] == '\n' {
            let line = string_of_range(chars, start, i + 1);
            proof {
                let s = chars@.skip(start as int);
                let k = i - start;
                assert(s[k] == chars@[i as int]);
                assert forall|m: int| 0 <= m < k implies s[m] != '\n' by {
                    assert(s[m] == chars@[start + m]);
                }
                lemma_split_lines_step(s, k);
                assert(s.take(k + 1) =~= chars@.subrange(start as int, i + 1));
                assert(s.skip(k + 1) =~= chars@.skip(i + 1));
            }
            let ghost deep0 = out.deep_view();
            out.push(line);
            proof {
                assert(out.deep_view() =~= deep0 + seq![line@]);
                assert(deep0 + (seq![line@] + split_lines(chars@.skip(i + 1))) =~= (deep0 + seq![
                    line@,
                ]) + split_lines(chars@.skip(i + 1)));
            }
            start = i + 1;
        }
        i = i + 1;
    }
    if start < len {
        let line = string_of_range(chars, start, len);
        proof {
            let s = chars@.skip(start as int);
            assert forall|m: int| 0 <= m < s.len() implies s[m] != '\n' by {
                assert(s[m] == chars@[start + m]);
            }
            lemma_split_lines_no_nl(s);
            assert(s =~= chars@.subrange(start as int, len as int));
        }
        let ghost deep0 = out.deep_view();
        out.push(line);
        proof {
            assert(out.deep_view() =~= deep0 + seq![line@]);
        }
    } else {
        proof {
            assert(chars@.skip(start as int) =~= Seq::<char>::empty());
            assert(out.deep_view() + Seq::<Seq<char>>::empty() =~= out.deep_view());
        }
    }
    out
}

/// The first index at which two line sequences disagree — a differing line,
/// or one side exhausted before the other — or `-1` where they agree whole.
pub open spec fn diff_index(e: Seq<Seq<char>>, a: Seq<Seq<char>>) -> int
    decreases e.len() + a.len(),
{
    if e.len() == 0 && a.len() == 0 {
        -1
    } else if e.len() == 0 || a.len() == 0 {
        0
    } else if e[0] != a[0] {
        0
    } else {
        let r = diff_index(e.drop_first(), a.drop_first());
        if r == -1 {
            -1
        } else {
            1 + r
        }
    }
}

/// Equal line sequences have no differing index.
pub proof fn lemma_diff_index_none(e: Seq<Seq<char>>, a: Seq<Seq<char>>)
    requires
        e == a,
    ensures
        diff_index(e, a) == -1,
    decreases e.len(),
{
    if e.len() > 0 {
        lemma_diff_index_none(e.drop_first(), a.drop_first());
    }
}

/// Where the lines agree before `i` and disagree at `i` — by content, or
/// because exactly one side ran out — the differing index is `i`.
pub proof fn lemma_diff_index_at(e: Seq<Seq<char>>, a: Seq<Seq<char>>, i: int)
    requires
        0 <= i <= e.len(),
        i <= a.len(),
        e.take(i) == a.take(i),
        i < e.len() || i < a.len(),
        i >= e.len() || i >= a.len() || e[i] != a[i],
    ensures
        diff_index(e, a) == i,
    decreases i,
{
    if i == 0 {
    } else {
        assert(e.take(i)[0] == a.take(i)[0]);
        assert(e[0] == a[0]);
        let ed = e.drop_first();
        let ad = a.drop_first();
        assert(ed.take(i - 1) =~= e.take(i).drop_first());
        assert(ad.take(i - 1) =~= a.take(i).drop_first());
        if i < e.len() {
            assert(ed[i - 1] == e[i]);
        }
        if i < a.len() {
            assert(ad[i - 1] == a[i]);
        }
        lemma_diff_index_at(ed, ad, i - 1);
        assert(diff_index(e, a) == 1 + diff_index(ed, ad));
    }
}

} // verus!
