//! Line assembly: the reader-local buffer that turns an incoming byte
//! stream into discrete, whitespace-trimmed, non-empty log lines.
//!
//! A chunk of freshly read bytes is appended to the pending buffer; every
//! complete line (up to a newline byte) is extracted, trimmed and, when
//! non-empty, emitted; the unterminated remainder stays pending.
//!
//! Splitting and trimming work on bytes, before any text decoding, so that
//! a multi-byte character cut by a read boundary is never mangled — the
//! caller decodes each complete line. The whitespace trimmed is therefore
//! the ASCII set, a deliberate choice: a line edged with a multi-byte
//! Unicode space keeps that space.

use vstd::prelude::*;

verus! {

/// The line separator.
pub const NL: u8 = 10;

/// ASCII whitespace: the bytes removed from both ends of an emitted line.
pub open spec fn space(b: u8) -> bool {
    b == 9 || b == 10 || b == 11 || b == 12 || b == 13 || b == 32
}

/// `s` with leading whitespace removed.
pub open spec fn trim_left(s: Seq<u8>) -> Seq<u8>
    decreases s.len(),
{
    if s.len() > 0 && space(s[0]) {
        trim_left(s.drop_first())
    } else {
        s
    }
}

/// `s` with trailing whitespace removed.
pub open spec fn trim_right(s: Seq<u8>) -> Seq<u8>
    decreases s.len(),
{
    if s.len() > 0 && space(s[s.len() - 1]) {
        trim_right(s.drop_last())
    } else {
        s
    }
}

/// `s` with surrounding whitespace removed.
pub open spec fn trimmed(s: Seq<u8>) -> Seq<u8> {
    trim_right(trim_left(s))
}

/// `s` holds a newline byte.
pub open spec fn has_nl(s: Seq<u8>) -> bool {
    exists|i: int| 0 <= i < s.len() && s[i] == NL
}

/// Position of the first newline byte of `s` (its length when there is none).
pub open spec fn first_nl(s: Seq<u8>) -> nat
    decreases s.len(),
{
    if s.len() == 0 {
        0
    } else if s[0] == NL {
        0
    } else {
        1 + first_nl(s.drop_first())
    }
}

/// What one complete segment contributes: its trimmed text when that is
/// non-empty, nothing otherwise.
pub open spec fn emit_seg(seg: Seq<u8>) -> Seq<Seq<u8>> {
    if trimmed(seg).len() > 0 {
        seq![trimmed(seg)]
    } else {
        Seq::empty()
    }
}

/// The lines emitted for the stream `s`: one entry per newline-terminated
/// segment whose trimmed text is non-empty, in stream order.
pub open spec fn lines_of(s: Seq<u8>) -> Seq<Seq<u8>>
    decreases s.len(),
    via lines_of_decreases
{
    if !has_nl(s) {
        Seq::empty()
    } else {
        emit_seg(s.take(first_nl(s) as int)) + lines_of(s.skip(first_nl(s) + 1 as int))
    }
}

#[via_fn]
proof fn lines_of_decreases(s: Seq<u8>) {
    lemma_first_nl(s);
}

/// The unterminated remainder of the stream `s`: what follows its last
/// newline (all of `s` when it has none).
pub open spec fn rest_of(s: Seq<u8>) -> Seq<u8>
    decreases s.len(),
    via rest_of_decreases
{
    if !has_nl(s) {
        s
    } else {
        rest_of(s.skip(first_nl(s) + 1 as int))
    }
}

#[via_fn]
proof fn rest_of_decreases(s: Seq<u8>) {
    lemma_first_nl(s);
}

/// `first_nl` is the first newline position: in bounds and a newline when
/// one exists, the length otherwise, with nothing but other bytes before it.
pub proof fn lemma_first_nl(s: Seq<u8>)
    ensures
        first_nl(s) <= s.len(),
        has_nl(s) ==> first_nl(s) < s.len() && s[first_nl(s) as int] == NL,
        forall|k: int| 0 <= k < first_nl(s) ==> s[k] != NL,
        !has_nl(s) ==> first_nl(s) == s.len(),
    decreases s.len(),
{
    if s.len() == 0 {
    } else if s[0] == NL {
    } else {
        let t = s.drop_first();
        lemma_first_nl(t);
        assert(forall|k: int| 0 <= k < t.len() ==> t[k] == s[k + 1]);
        if has_nl(s) {
            let i = choose|i: int| 0 <= i < s.len() && s[i] == NL;
            assert(t[i - 1] == NL);
            assert(has_nl(t));
        }
        if has_nl(t) {
            let j = choose|j: int| 0 <= j < t.len() && t[j] == NL;
            assert(s[j + 1] == NL);
            assert(has_nl(s));
        }
        assert(forall|k: int| 1 <= k < first_nl(s) ==> s[k] == t[k - 1] && t[k - 1] != NL);
    }
}

/// A position with a newline and none before it is `first_nl`.
pub proof fn lemma_first_nl_unique(s: Seq<u8>, i: int)
    requires
        0 <= i < s.len(),
        s[i] == NL,
        forall|k: int| 0 <= k < i ==> s[k] != NL,
    ensures
        first_nl(s) == i,
{
    lemma_first_nl(s);
    assert(has_nl(s));
    if first_nl(s) < i {
        assert(s[first_nl(s) as int] != NL);
    }
}

/// Streams without a newline emit nothing and stay pending whole.
pub proof fn lemma_no_nl(s: Seq<u8>)
    requires
        !has_nl(s),
    ensures
        lines_of(s) == Seq::<Seq<u8>>::empty(),
        rest_of(s) == s,
{
}

/// The pending remainder never holds a newline.
pub proof fn lemma_rest_no_nl(s: Seq<u8>)
    ensures
        !has_nl(rest_of(s)),
    decreases s.len(),
{
    if has_nl(s) {
        lemma_first_nl(s);
        lemma_rest_no_nl(s.skip(first_nl(s) + 1 as int));
    }
}

/// When every byte before `lo` is whitespace and `lo` sits on the first
/// non-whitespace byte (or the end), left-trimming keeps the tail from `lo`.
proof fn lemma_trim_left_subrange(s: Seq<u8>, lo: int)
    requires
        0 <= lo <= s.len(),
        forall|k: int| 0 <= k < lo ==> space(s[k]),
        lo == s.len() || !space(s[lo]),
    ensures
        trim_left(s) == s.subrange(lo, s.len() as int),
    decreases lo,
{
    if lo == 0 {
        assert(s.subrange(0, s.len() as int) =~= s);
    } else {
        let t = s.drop_first();
        assert(t =~= s.subrange(1, s.len() as int));
        lemma_trim_left_subrange(t, lo - 1);
        assert(t.subrange(lo - 1, t.len() as int) =~= s.subrange(lo, s.len() as int));
    }
}

/// When every byte from `hi` on is whitespace and the byte before `hi`
/// (when any) is not, right-trimming keeps the head up to `hi`.
proof fn lemma_trim_right_subrange(s: Seq<u8>, hi: int)
    requires
        0 <= hi <= s.len(),
        forall|k: int| hi <= k < s.len() ==> space(s[k]),
        hi == 0 || !space(s[hi - 1]),
    ensures
        trim_right(s) == s.subrange(0, hi),
    decreases s.len() - hi,
{
    if hi == s.len() {
        assert(s.subrange(0, s.len() as int) =~= s);
    } else {
        let t = s.drop_last();
        assert(t =~= s.subrange(0, s.len() - 1));
        lemma_trim_right_subrange(t, hi);
        assert(t.subrange(0, hi) =~= s.subrange(0, hi));
    }
}

/// Whether `b` is ASCII whitespace.
fn byte_is_space(b: u8) -> (r: bool)
    ensures
        r == space(b),
{
    b == 9 || b == 10 || b == 11 || b == 12 || b == 13 || b == 32
}

/// Surrounding whitespace of `line` removed, as a fresh vector.
pub fn trimmed_line(line: &[u8]) -> (r: Vec<u8>)
    ensures
        r@ == trimmed(line@),
{
    let n = line.len();
    let mut lo: usize = 0;
    while lo < n && byte_is_space(line[lo])
        invariant
            n == line@.len(),
            0 <= lo <= n,
            forall|k: int| 0 <= k < lo ==> space(line@[k]),
        decreases n - lo,
    {
        lo = lo + 1;
    }
    let mut hi: usize = n;
    while hi > lo && byte_is_space(line[hi - 1])
        invariant
            n == line@.len(),
            0 <= lo <= hi <= n,
            forall|k: int| hi <= k < n ==> space(line@[k]),
        decreases hi,
    {
        hi = hi - 1;
    }
    proof {
        lemma_trim_left_subrange(line@, lo as int);
        let t = line@.subrange(lo as int, n as int);
        if hi == lo {
            lemma_trim_right_subrange(t, 0);
        } else {
            lemma_trim_right_subrange(t, hi - lo);
        }
        assert(t.subrange(0, hi - lo) =~= line@.subrange(lo as int, hi as int));
    }
    let mut out: Vec<u8> = Vec::new();
    let mut j: usize = lo;
    while j < hi
        invariant
            n == line@.len(),
            0 <= lo <= j <= hi <= n,
            out@ =~= line@.subrange(lo as int, j as int),
        decreases hi - j,
    {
        out.push(line[j]);
        assert(out@ =~= line@.subrange(lo as int, j + 1 as int));
        j = j + 1;
    }
    out
}

/// Position of the first newline byte of `v`, when it holds one.
fn find_nl(v: &Vec<u8>) -> (r: Option<usize>)
    ensures
        match r {
            Some(i) => i < v@.len() && v@[i as int] == NL && forall|k: int|
                0 <= k < i ==> v@[k] != NL,
            None => !has_nl(v@),
        },
{
    let len = v.len();
    let mut i: usize = 0;
    while i < len
        invariant
            len == v@.len(),
            0 <= i <= len,
            forall|k: int| 0 <= k < i ==> v@[k] != NL,
        decreases len - i,
    {
        if v[i] == NL {
            return Some(i);
        }
        i = i + 1;
    }
    None
}

/// The reader-local accumulating buffer of the real-device reader. It
/// holds the unterminated remainder of the stream between reads; complete
/// lines never stay in it.
pub struct LineBuffer {
    buf: Vec<u8>,
}

impl View for LineBuffer {
    type V = Seq<u8>;

    closed spec fn view(&self) -> Seq<u8> {
        self.buf@
    }
}

impl LineBuffer {
    /// No complete line is pending: the buffer never retains a newline.
    pub open spec fn wf(self) -> bool {
        !has_nl(self@)
    }

    /// A fresh, empty buffer.
    pub fn new() -> (r: LineBuffer)
        ensures
            r@ == Seq::<u8>::empty(),
            r.wf(),
    {
        LineBuffer { buf: Vec::new() }
    }

    /// Feed freshly read bytes: every line completed by them comes back
    /// (trimmed, empty ones dropped), the unterminated remainder stays.
    pub fn push_chunk(&mut self, chunk: &[u8]) -> (emitted: Vec<Vec<u8>>)
        requires
            old(self).wf(),
        ensures
            final(self).wf(),
            emitted.deep_view() == lines_of(old(self)@ + chunk@),
            final(self)@ == rest_of(old(self)@ + chunk@),
    {
        let ghost total = self.buf@ + chunk@;
        let mut k: usize = 0;
        while k < chunk.len()
            invariant
                0 <= k <= chunk@.len(),
                self.buf@ == old(self)@ + chunk@.subrange(0, k as int),
            decreases chunk@.len() - k,
        {
            self.buf.push(chunk[k]);
            assert(self.buf@ =~= old(self)@ + chunk@.subrange(0, k + 1 as int));
            k = k + 1;
        }
        assert(self.buf@ =~= total);
        let mut emitted: Vec<Vec<u8>> = Vec::new();
        proof {
            assert(emitted.deep_view() =~~= Seq::<Seq<u8>>::empty());
            assert(emitted.deep_view() + lines_of(total) =~~= lines_of(total));
        }
        loop
            invariant
                total == old(self)@ + chunk@,
                emitted.deep_view() + lines_of(self.buf@) == lines_of(total),
                rest_of(self.buf@) == rest_of(total),
            decreases self.buf@.len(),
        {
            let nl_at = find_nl(&self.buf);
            if nl_at.is_none() {
                proof {
                    lemma_no_nl(self.buf@);
                    assert(emitted.deep_view() + lines_of(self.buf@) =~~= emitted.deep_view());
                }
                return emitted;
            }
            let i = nl_at.unwrap();
            let blen = self.buf.len();
            proof {
                lemma_first_nl_unique(self.buf@, i as int);
            }
            let ghost before = self.buf@;
            let tail = self.buf.split_off(i + 1);
            let line = trimmed_line(&self.buf.as_slice()[0..i]);
            let ghost seg = before.take(i as int);
            proof {
                assert(before.subrange(0, i + 1 as int).subrange(0, i as int) =~= seg);
                assert(line@ == trimmed(seg));
                assert(lines_of(before) == emit_seg(seg) + lines_of(before.skip(i + 1 as int)));
                assert(rest_of(before) == rest_of(before.skip(i + 1 as int)));
                assert(tail@ =~= before.skip(i + 1 as int));
            }
            let ghost old_dv = emitted.deep_view();
            if line.len() > 0 {
                emitted.push(line);
                proof {
                    assert(emitted.deep_view() =~~= old_dv + emit_seg(seg));
                }
            } else {
                proof {
                    assert(emit_seg(seg) =~~= Seq::<Seq<u8>>::empty());
                    assert(emitted.deep_view() =~~= old_dv + emit_seg(seg));
                }
            }
            proof {
                assert((old_dv + emit_seg(seg)) + lines_of(before.skip(i + 1 as int)) =~~= old_dv
                    + (emit_seg(seg) + lines_of(before.skip(i + 1 as int))));
            }
            self.buf = tail;
        }
    }
}

/// Delivering the stream in two parts and carrying the pending remainder
/// between them yields exactly the lines (and remainder) of the whole:
/// the emitted line sequence does not depend on read-call boundaries.
pub proof fn lemma_chunk_composition(a: Seq<u8>, b: Seq<u8>)
    ensures
        lines_of(a + b) == lines_of(a) + lines_of(rest_of(a) + b),
        rest_of(a + b) == rest_of(rest_of(a) + b),
    decreases a.len(),
{
    lemma_first_nl(a);
    if !has_nl(a) {
        assert(rest_of(a) == a);
        assert(lines_of(a) + lines_of(a + b) =~= lines_of(a + b));
    } else {
        let i = first_nl(a) as int;
        assert((a + b)[i] == NL);
        assert(forall|k: int| 0 <= k < i ==> (a + b)[k] == a[k] && a[k] != NL);
        lemma_first_nl_unique(a + b, i);
        assert((a + b).take(i) =~= a.take(i));
        assert((a + b).skip(i + 1) =~= a.skip(i + 1) + b);
        lemma_chunk_composition(a.skip(i + 1), b);
        assert(lines_of(a + b) == emit_seg(a.take(i)) + (lines_of(a.skip(i + 1)) + lines_of(
            rest_of(a.skip(i + 1)) + b,
        )));
        assert(emit_seg(a.take(i)) + (lines_of(a.skip(i + 1)) + lines_of(
            rest_of(a.skip(i + 1)) + b,
        )) =~= (emit_seg(a.take(i)) + lines_of(a.skip(i + 1))) + lines_of(
            rest_of(a.skip(i + 1)) + b,
        ));
        assert(rest_of(a) == rest_of(a.skip(i + 1)));
    }
}

/// All the given chunks, joined in arrival order.
pub open spec fn concat_all(chunks: Seq<Seq<u8>>) -> Seq<u8>
    decreases chunks.len(),
{
    if chunks.len() == 0 {
        Seq::empty()
    } else {
        chunks[0] + concat_all(chunks.drop_first())
    }
}

/// The lines emitted when the chunks are fed one by one into a buffer
/// holding `pending`, in arrival order.
pub open spec fn emitted_over(pending: Seq<u8>, chunks: Seq<Seq<u8>>) -> Seq<Seq<u8>>
    decreases chunks.len(),
{
    if chunks.len() == 0 {
        Seq::empty()
    } else {
        lines_of(pending + chunks[0]) + emitted_over(
            rest_of(pending + chunks[0]),
            chunks.drop_first(),
        )
    }
}

/// What stays pending after feeding the chunks one by one.
pub open spec fn pending_over(pending: Seq<u8>, chunks: Seq<Seq<u8>>) -> Seq<u8>
    decreases chunks.len(),
{
    if chunks.len() == 0 {
        pending
    } else {
        pending_over(rest_of(pending + chunks[0]), chunks.drop_first())
    }
}

/// Feeding a stream in any number of chunks, at any boundaries, emits
/// exactly the lines of the whole stream and leaves exactly its
/// unterminated remainder pending: read-call boundaries are irrelevant.
pub proof fn lemma_chunking_irrelevant(pending: Seq<u8>, chunks: Seq<Seq<u8>>)
    requires
        !has_nl(pending),
    ensures
        emitted_over(pending, chunks) == lines_of(pending + concat_all(chunks)),
        pending_over(pending, chunks) == rest_of(pending + concat_all(chunks)),
    decreases chunks.len(),
{
    if chunks.len() == 0 {
        assert(pending + concat_all(chunks) =~= pending);
        lemma_no_nl(pending);
    } else {
        let first = pending + chunks[0];
        let rest = chunks.drop_first();
        lemma_rest_no_nl(first);
        lemma_chunking_irrelevant(rest_of(first), rest);
        lemma_chunk_composition(first, concat_all(rest));
        assert(first + concat_all(rest) =~= pending + concat_all(chunks));
    }
}

} // verus!
