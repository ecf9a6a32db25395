use crate::text::chars::{char_bytes, char_utf8_len, chars_of, push_char};
use vstd::prelude::*;

verus! {

/// The number of newline characters in a text.
pub open spec fn count_nl(s: Seq<char>) -> int
    decreases s.len(),
{
    if s.len() == 0 {
        0
    } else {
        count_nl(s.drop_last()) + if s.last() == '\n' {
            1int
        } else {
            0int
        }
    }
}

pub proof fn lemma_count_nl_bound(s: Seq<char>)
    ensures
        0 <= count_nl(s) <= s.len(),
    decreases s.len(),
{
    if s.len() > 0 {
        lemma_count_nl_bound(s.drop_last());
    }
}

pub proof fn lemma_count_nl_concat(a: Seq<char>, b: Seq<char>)
    ensures
        count_nl(a + b) == count_nl(a) + count_nl(b),
    decreases b.len(),
{
    if b.len() == 0 {
        assert(a + b =~= a);
    } else {
        lemma_count_nl_concat(a, b.drop_last());
        assert((a + b).drop_last() =~= a + b.drop_last());
    }
}

/// A text without newline characters counts zero of them.
pub proof fn lemma_count_nl_no_nl(s: Seq<char>)
    requires
        forall|i: int| 0 <= i < s.len() ==> s[i] != '\n',
    ensures
        count_nl(s) == 0,
    decreases s.len(),
{
    if s.len() > 0 {
        lemma_count_nl_no_nl(s.drop_last());
    }
}

/// The byte length of the UTF-8 encoding of a text.
pub open spec fn byte_size(s: Seq<char>) -> int
    decreases s.len(),
{
    if s.len() == 0 {
        0
    } else {
        byte_size(s.drop_last()) + char_bytes(s.last())
    }
}

pub proof fn lemma_byte_size_push(s: Seq<char>, c: char)
    ensures
        byte_size(s.push(c)) == byte_size(s) + char_bytes(c),
{
    assert(s.push(c).drop_last() =~= s);
}

/// The length of the first chunk of a text, given the byte budget still open
/// for it: a chunk closes with the character that exhausts the budget or with
/// a newline, whichever comes first, or at the end of the text.
pub open spec fn chunk_break(s: Seq<char>, budget: int) -> int
    decreases s.len(),
{
    if s.len() == 0 {
        0
    } else if char_bytes(s[0]) >= budget || s[0] == '\n' {
        1
    } else {
        1 + chunk_break(s.drop_first(), budget - char_bytes(s[0]))
    }
}

pub proof fn lemma_chunk_break_range(s: Seq<char>, budget: int)
    requires
        s.len() > 0,
    ensures
        1 <= chunk_break(s, budget) <= s.len(),
    decreases s.len(),
{
    if char_bytes(s[0]) >= budget || s[0] == '\n' {
        assert(chunk_break(s, budget) == 1);
    } else if s.len() == 1 {
        assert(chunk_break(s.drop_first(), budget - char_bytes(s[0])) == 0);
    } else {
        lemma_chunk_break_range(s.drop_first(), budget - char_bytes(s[0]));
    }
}

/// Within a chunk, every character but the last is not a newline.
pub proof fn lemma_chunk_break_no_nl(s: Seq<char>, budget: int, i: int)
    requires
        0 <= i < chunk_break(s, budget) - 1,
    ensures
        s[i] != '\n',
    decreases s.len(),
{
    if s.len() == 0 {
        assert(chunk_break(s, budget) == 0);
    } else if char_bytes(s[0]) >= budget || s[0] == '\n' {
        assert(chunk_break(s, budget) == 1);
    } else {
        assert(chunk_break(s, budget) == 1 + chunk_break(
            s.drop_first(),
            budget - char_bytes(s[0]),
        ));
        if i > 0 {
            lemma_chunk_break_range(s, budget);
            lemma_chunk_break_no_nl(s.drop_first(), budget - char_bytes(s[0]), i - 1);
            assert(s[i] == s.drop_first()[i - 1]);
        }
    }
}

/// The chunks of a text under a maximum chunk byte size, each paired with the
/// 1-based row at which it starts. The row grows only past a chunk that ends
/// in a newline.
pub open spec fn chunks_from(s: Seq<char>, max: int, row: int) -> Seq<(Seq<char>, int)>
    decreases s.len(),
{
    if s.len() == 0 {
        Seq::empty()
    } else {
        let l0 = chunk_break(s, max);
        let l = if 1 <= l0 <= s.len() {
            l0
        } else {
            1
        };
        let head = s.take(l);
        let next_row = if head[l - 1] == '\n' {
            row + 1
        } else {
            row
        };
        seq![(head, row)] + chunks_from(s.skip(l), max, next_row)
    }
}

/// The concatenation of the chunk texts of a chunk sequence.
pub open spec fn chunks_text(cs: Seq<(Seq<char>, int)>) -> Seq<char>
    decreases cs.len(),
{
    if cs.len() == 0 {
        Seq::empty()
    } else {
        cs[0].0 + chunks_text(cs.drop_first())
    }
}

/// Law: chunking loses no character and duplicates none — concatenating every
/// chunk of a text reconstructs the text exactly, whatever the size bound and
/// starting row.
pub proof fn lemma_chunks_reconstruct(s: Seq<char>, max: int, row: int)
    ensures
        chunks_text(chunks_from(s, max, row)) == s,
    decreases s.len(),
{
    if s.len() == 0 {
        assert(chunks_text(chunks_from(s, max, row)) =~= s);
    } else {
        lemma_chunk_break_range(s, max);
        let l = chunk_break(s, max);
        let cs = chunks_from(s, max, row);
        let next_row = if s.take(l)[l - 1] == '\n' {
            row + 1
        } else {
            row
        };
        lemma_chunks_reconstruct(s.skip(l), max, next_row);
        assert(cs.drop_first() =~= chunks_from(s.skip(l), max, next_row));
        assert(s.take(l) + s.skip(l) =~= s);
    }
}

/// The row counter after every chunk of a chunk sequence has been consumed,
/// starting from `row`.
pub open spec fn row_after(cs: Seq<(Seq<char>, int)>, row: int) -> int {
    if cs.len() == 0 {
        row
    } else {
        cs.last().1 + if cs.last().0.len() > 0 && cs.last().0.last() == '\n' {
            1int
        } else {
            0int
        }
    }
}

/// Law: the final row number reached while chunking a text is the starting
/// row plus the number of newline characters in the text.
pub proof fn lemma_chunks_final_row(s: Seq<char>, max: int, row: int)
    ensures
        row_after(chunks_from(s, max, row), row) == row + count_nl(s),
    decreases s.len(),
{
    if s.len() == 0 {
    } else {
        lemma_chunk_break_range(s, max);
        let l = chunk_break(s, max);
        let head = s.take(l);
        let next_row = if head[l - 1] == '\n' {
            row + 1
        } else {
            row
        };
        let tail = chunks_from(s.skip(l), max, next_row);
        lemma_chunks_final_row(s.skip(l), max, next_row);
        assert(chunks_from(s, max, row).drop_first() =~= tail);
        // the head chunk holds newlines nowhere but possibly at its end
        assert(count_nl(head) == next_row - row) by {
            assert(forall|i: int| 0 <= i < l - 1 ==> head[i] != '\n') by {
                assert forall|i: int| 0 <= i < l - 1 implies head[i] != '\n' by {
                    lemma_chunk_break_no_nl(s, max, i);
                }
            }
            if head.last() == '\n' {
                lemma_count_nl_no_nl(head.drop_last());
                assert(head.drop_last() =~= head.take(l - 1));
            } else {
                lemma_count_nl_no_nl(head);
            }
        }
        assert(count_nl(s) == count_nl(head) + count_nl(s.skip(l))) by {
            lemma_count_nl_concat(head, s.skip(l));
            assert(head + s.skip(l) =~= s);
        }
        if tail.len() == 0 {
            assert(chunks_from(s, max, row).last() == (head, row));
        }
    }
}

/// Splits a text into chunks of at most `max_chunk_size` bytes, each chunk
/// also closing right after a newline character. Chunks never split a
/// character: the byte limit is a ceiling that one wide character may
/// overshoot, never a cut inside one.
pub struct ChunkedLines {
    chars: Vec<char>,
    max_chunk_size: usize,
    pos: usize,
    current_row: u64,
}

/// One chunk: a piece of text and the 1-based row at which it starts.
pub struct ChunkedLine {
    value: String,
    row: u64,
}

impl ChunkedLine {
    /// The text of the chunk.
    pub closed spec fn spec_text(&self) -> Seq<char> {
        self.value@
    }

    /// The 1-based row at which the chunk starts.
    pub closed spec fn spec_row(&self) -> int {
        self.row as int
    }

    pub fn as_str(&self) -> (s: &str)
        ensures
            s@ == self.spec_text(),
    {
        self.value.as_str()
    }

    pub fn row(&self) -> (r: u64)
        ensures
            r as int == self.spec_row(),
    {
        self.row
    }
}

impl ChunkedLines {
    pub closed spec fn wf(self) -> bool {
        &&& self.max_chunk_size as int <= usize::MAX - 4
        &&& self.pos as int <= self.chars@.len()
        &&& self.chars@.len() < u64::MAX
        &&& self.current_row as int == 1 + count_nl(self.chars@.take(self.pos as int))
    }

    /// The chunks not yet handed out, with their rows.
    pub closed spec fn remaining(self) -> Seq<(Seq<char>, int)> {
        chunks_from(
            self.chars@.skip(self.pos as int),
            self.max_chunk_size as int,
            self.current_row as int,
        )
    }

    pub fn new(text: &str, max_chunk_size: usize) -> (it: ChunkedLines)
        requires
            max_chunk_size <= usize::MAX - 4,
            text@.len() < u64::MAX,
        ensures
            it.wf(),
            it.remaining() == chunks_from(text@, max_chunk_size as int, 1),
    {
        let chars = chars_of(text);
        let current_row: u64 = 1;
        let chunk_start_offset: usize = 0;
        let it = ChunkedLines { chars, max_chunk_size, pos: chunk_start_offset, current_row };
        proof {
            assert(it.chars@.take(0) =~= Seq::<char>::empty());
            assert(it.chars@.skip(0) =~= text@);
        }
        it
    }

    /// Hands out the next chunk: the head of `remaining()`, or `None` once
    /// the text is exhausted.
    pub fn next(&mut self) -> (r: Option<ChunkedLine>)
        requires
            old(self).wf(),
        ensures
            final(self).wf(),
            old(self).remaining().len() == 0 ==> r is None && *final(self) == *old(self),
            old(self).remaining().len() > 0 ==> {
                &&& r matches Some(c)
                &&& c.spec_text() == old(self).remaining()[0].0
                &&& c.spec_row() == old(self).remaining()[0].1
                &&& final(self).remaining() == old(self).remaining().drop_first()
            },
    {
        let len = self.chars.len();
        if self.pos == len {
            proof {
                assert(self.chars@.skip(self.pos as int) =~= Seq::<char>::empty());
            }
            return None;
        }
        let ghost s0 = self.chars@.skip(self.pos as int);
        let ghost max = self.max_chunk_size as int;
        let ghost row0 = self.current_row as int;
        proof {
            lemma_chunk_break_range(s0, max);
        }
        let start = self.pos;
        let mut bytes: usize = 0;
        let mut value = String::new();
        loop
            invariant_except_break
                start <= self.pos < len,
                bytes == 0 || bytes < self.max_chunk_size,
                forall|i: int| start <= i < self.pos ==> self.chars@[i] != '\n',
                chunk_break(s0, max) == (self.pos - start) + chunk_break(
                    self.chars@.skip(self.pos as int),
                    max - bytes,
                ),
            invariant
                self.chars == old(self).chars,
                self.max_chunk_size == old(self).max_chunk_size,
                self.current_row == old(self).current_row,
                len == self.chars@.len(),
                start < len,
                s0 == self.chars@.skip(start as int),
                max == self.max_chunk_size as int,
                row0 == self.current_row as int,
                max <= usize::MAX - 4,
                value@ == self.chars@.subrange(start as int, self.pos as int),
                bytes == byte_size(value@),
            ensures
                self.chars == old(self).chars,
                self.max_chunk_size == old(self).max_chunk_size,
                self.current_row == old(self).current_row,
                start < self.pos <= len,
                value@ == self.chars@.subrange(start as int, self.pos as int),
                chunk_break(s0, max) == self.pos - start,
                forall|i: int| start <= i < self.pos - 1 ==> self.chars@[i] != '\n',
            decreases len - self.pos,
        {
            let c = self.chars[self.pos];
            let ghost pos_before = self.pos as int;
            let ghost bytes_before = bytes as int;
            proof {
                assert(self.chars@.skip(pos_before)[0] == self.chars@[pos_before]);
            }
            self.pos = self.pos + 1;
            push_char(&mut value, c);
            proof {
                assert(value@ =~= self.chars@.subrange(start as int, self.pos as int));
                lemma_byte_size_push(self.chars@.subrange(start as int, pos_before), c);
                assert(self.chars@.subrange(start as int, pos_before).push(c) =~= value@);
            }
            let l = char_utf8_len(c);
            bytes = bytes + l;
            if bytes >= self.max_chunk_size || c == '\n' {
                proof {
                    assert(chunk_break(self.chars@.skip(pos_before), max - bytes_before) == 1);
                }
                break ;
            }
            if self.pos == len {
                proof {
                    let rest = self.chars@.skip(pos_before);
                    assert(rest.drop_first() =~= self.chars@.skip(self.pos as int));
                    assert(self.chars@.skip(self.pos as int) =~= Seq::<char>::empty());
                    assert(chunk_break(rest.drop_first(), max - bytes_before - char_bytes(c))
                        == 0);
                    assert(chunk_break(rest, max - bytes_before) == 1);
                }
                break ;
            }
            proof {
                let rest = self.chars@.skip(pos_before);
                assert(rest.drop_first() =~= self.chars@.skip(pos_before + 1));
                assert(chunk_break(rest, max - bytes_before) == 1 + chunk_break(
                    rest.drop_first(),
                    max - bytes_before - char_bytes(c),
                ));
            }
        }
        let ghost p = self.pos - start as int;
        proof {
            assert(s0.take(p) =~= self.chars@.subrange(start as int, self.pos as int));
        }
        let row = self.current_row;
        let last_is_nl = {
            let cv = &self.chars;
            cv[self.pos - 1] == '\n'
        };
        proof {
            lemma_count_nl_bound(self.chars@.take(start as int));
            assert(s0.take(p)[p - 1] == self.chars@[self.pos - 1]);
        }
        if last_is_nl {
            self.current_row = self.current_row + 1;
        }
        proof {
            // the new row counter still counts the newlines before `pos`
            let consumed = self.chars@.subrange(start as int, self.pos as int);
            lemma_count_nl_concat(self.chars@.take(start as int), consumed);
            assert(self.chars@.take(start as int) + consumed =~= self.chars@.take(
                self.pos as int,
            ));
            if last_is_nl {
                lemma_count_nl_no_nl(consumed.drop_last());
                assert(consumed.drop_last() =~= self.chars@.subrange(
                    start as int,
                    self.pos - 1,
                ));
                assert(count_nl(consumed) == 1);
            } else {
                lemma_count_nl_no_nl(consumed);
            }
            // the emitted chunk is the head of the remaining chunks, and the
            // iterator now models the rest of them
            assert(s0.skip(p) =~= self.chars@.skip(self.pos as int));
            assert(old(self).remaining() == seq![(s0.take(p), row0)] + chunks_from(
                s0.skip(p),
                max,
                self.current_row as int,
            ));
            assert(old(self).remaining().drop_first() =~= chunks_from(
                s0.skip(p),
                max,
                self.current_row as int,
            ));
        }
        Some(ChunkedLine { value, row })
    }
}

} // verus!
