use crate::chunk::line::{chunk_break, chunks_from, lemma_chunk_break_range, ChunkedLines};
use crate::text::chars::{lossy_of, lossy_string, utf8_str};
use crate::verify::diff::{
    diff_index, lemma_diff_index_at, lemma_diff_index_none, opt_diff_rep, Diff, DiffModel,
};
use vstd::prelude::*;
use vstd::utf8::{decode_utf8, valid_utf8};

verus! {

/// The chunk size bound of the chunked comparator: long logical lines are
/// compared in pieces of at most this many bytes, so a divergence deep in a
/// long line is still reported at a tractable piece of it.
pub const MAX_CHUNK_SIZE: usize = 64;

/// The texts of a chunk sequence, without their rows.
pub open spec fn chunk_texts(cs: Seq<(Seq<char>, int)>) -> Seq<Seq<char>> {
    Seq::new(cs.len(), |i: int| cs[i].0)
}

/// Rows of chunks stay between the starting row and the starting row plus
/// the length of the text.
pub proof fn lemma_chunks_row_bound(s: Seq<char>, max: int, row: int)
    ensures
        forall|i: int|
            0 <= i < chunks_from(s, max, row).len() ==> row <= #[trigger] chunks_from(
                s,
                max,
                row,
            )[i].1 <= row + s.len(),
    decreases s.len(),
{
    if s.len() > 0 {
        lemma_chunk_break_range(s, max);
        let l = chunk_break(s, max);
        let head = s.take(l);
        let next_row = if head[l - 1] == '\n' {
            row + 1
        } else {
            row
        };
        let tail = chunks_from(s.skip(l), max, next_row);
        lemma_chunks_row_bound(s.skip(l), max, next_row);
        let cs = chunks_from(s, max, row);
        assert(cs == seq![(head, row)] + tail);
        assert forall|i: int| #![trigger cs[i]] 0 <= i < cs.len() implies row <= cs[i].1 <= row
            + s.len() by {
            if i > 0 {
                assert(cs[i] == tail[i - 1]);
            }
        }
    }
}

/// The chunked diff of two byte streams: both sides are cut into chunks of
/// at most `MAX_CHUNK_SIZE` bytes — the expected side decoded strictly, the
/// actual side lossily — and the chunk texts are compared pairwise. The
/// first differing index yields the two chunk texts, absent where a side ran
/// out, with the row recorded for the expected chunk, or for the actual one
/// where only it remains.
pub open spec fn chunked_diff_model(e: Seq<u8>, a: Seq<u8>) -> Option<DiffModel> {
    let ec = chunks_from(decode_utf8(e), MAX_CHUNK_SIZE as int, 1);
    let ac = chunks_from(lossy_of(a), MAX_CHUNK_SIZE as int, 1);
    let i = diff_index(chunk_texts(ec), chunk_texts(ac));
    if i == -1 {
        None
    } else {
        Some(
            DiffModel::Line {
                expected: if i < ec.len() {
                    Some(ec[i].0)
                } else {
                    None
                },
                actual: if i < ac.len() {
                    Some(ac[i].0)
                } else {
                    None
                },
                row: if i < ec.len() {
                    ec[i].1
                } else {
                    ac[i].1
                },
            },
        )
    }
}

/// Compares two byte streams chunk by chunk, degrading gracefully on long
/// lines: a single logical line longer than the bound still yields a
/// row-correct diff at the first differing piece. The expected side must be
/// well-formed UTF-8; the caller is expected to have validated it upstream.
pub fn eval_chunked_diff(expected: &[u8], actual: &[u8]) -> (r: Option<Diff>)
    requires
        valid_utf8(expected@),
        expected@.len() < usize::MAX,
        actual@.len() < usize::MAX,
    ensures
        opt_diff_rep(r) == chunked_diff_model(expected@, actual@),
        expected@ == actual@ ==> r is None,
{
    let expected_str = utf8_str(expected).unwrap();
    let actual_string = lossy_string(actual);
    let ghost ec = chunks_from(decode_utf8(expected@), MAX_CHUNK_SIZE as int, 1);
    let ghost ac = chunks_from(lossy_of(actual@), MAX_CHUNK_SIZE as int, 1);
    let ghost et = chunk_texts(ec);
    let ghost at = chunk_texts(ac);
    proof {
        lemma_chunks_row_bound(decode_utf8(expected@), MAX_CHUNK_SIZE as int, 1);
        lemma_chunks_row_bound(lossy_of(actual@), MAX_CHUNK_SIZE as int, 1);
    }
    let mut e_it = ChunkedLines::new(expected_str, MAX_CHUNK_SIZE);
    let mut a_it = ChunkedLines::new(actual_string.as_str(), MAX_CHUNK_SIZE);
    let ghost mut k: int = 0;
    loop
        invariant
            e_it.wf(),
            a_it.wf(),
            0 <= k <= ec.len(),
            0 <= k <= ac.len(),
            ec == chunks_from(decode_utf8(expected@), MAX_CHUNK_SIZE as int, 1),
            ac == chunks_from(lossy_of(actual@), MAX_CHUNK_SIZE as int, 1),
            et == chunk_texts(ec),
            at == chunk_texts(ac),
            e_it.remaining() == ec.skip(k),
            a_it.remaining() == ac.skip(k),
            forall|m: int| 0 <= m < k ==> et[m] == at[m],
            forall|i: int| 0 <= i < ec.len() ==> 1 <= #[trigger] ec[i].1 <= 1 + decode_utf8(
                expected@,
            ).len(),
            forall|i: int| 0 <= i < ac.len() ==> 1 <= #[trigger] ac[i].1 <= 1 + lossy_of(
                actual@,
            ).len(),
            decode_utf8(expected@).len() <= expected@.len() < usize::MAX,
            lossy_of(actual@).len() <= actual@.len() < usize::MAX,
            expected@ == actual@ ==> decode_utf8(expected@) == lossy_of(actual@),
        decreases ec.len() - k,
    {
        let e_next = e_it.next();
        let a_next = a_it.next();
        proof {
            if ec.skip(k).len() > 0 {
                assert(ec.skip(k)[0] == ec[k]);
                assert(ec.skip(k).drop_first() =~= ec.skip(k + 1));
            }
            if ac.skip(k).len() > 0 {
                assert(ac.skip(k)[0] == ac[k]);
                assert(ac.skip(k).drop_first() =~= ac.skip(k + 1));
            }
        }
        match (e_next, a_next) {
            (Some(e_chunk), Some(a_chunk)) => {
                let e_text = e_chunk.as_str().to_owned();
                let a_text = a_chunk.as_str().to_owned();
                if e_text == a_text {
                    proof {
                        assert(et[k] == at[k]);
                        k = k + 1;
                    }
                } else {
                    proof {
                        assert(et[k] != at[k]);
                        assert(et.take(k) =~= at.take(k));
                        lemma_diff_index_at(et, at, k);
                    }
                    let row = e_chunk.row() as usize;
                    return Some(
                        Diff::Line { expected: Some(e_text), actual: Some(a_text), row },
                    );
                }
            },
            (None, Some(a_chunk)) => {
                proof {
                    assert(et.take(k) =~= at.take(k));
                    lemma_diff_index_at(et, at, k);
                }
                let a_text = a_chunk.as_str().to_owned();
                let row = a_chunk.row() as usize;
                return Some(Diff::Line { expected: None, actual: Some(a_text), row });
            },
            (Some(e_chunk), None) => {
                proof {
                    assert(et.take(k) =~= at.take(k));
                    lemma_diff_index_at(et, at, k);
                }
                let e_text = e_chunk.as_str().to_owned();
                let row = e_chunk.row() as usize;
                return Some(Diff::Line { expected: Some(e_text), actual: None, row });
            },
            (None, None) => {
                proof {
                    assert(et =~~= at);
                    lemma_diff_index_none(et, at);
                }
                return None;
            },
        }
    }
}

/// Law: the chunked comparator is a function of its two inputs — any two
/// results that its contract admits for the same byte streams describe the
/// same divergence.
pub proof fn lemma_chunked_diff_deterministic(
    e: Seq<u8>,
    a: Seq<u8>,
    r1: Option<Diff>,
    r2: Option<Diff>,
)
    requires
        opt_diff_rep(r1) == chunked_diff_model(e, a),
        opt_diff_rep(r2) == chunked_diff_model(e, a),
    ensures
        opt_diff_rep(r1) == opt_diff_rep(r2),
{
}

} // verus!
