//! Reassembly of complete, trimmed text lines from an arbitrarily chunked
//! byte stream.
//!
//! A [`LineBuffer`] holds the bytes received so far that are not yet
//! terminated by a line break. Feeding it a chunk yields every line whose
//! terminator has now been seen, trimmed of surrounding whitespace, in
//! arrival order; the trailing partial line stays in the buffer. The lemma
//! [`lemma_chunking_irrelevant`] shows that how the byte stream is cut into
//! chunks has no influence on the line sequence produced.

use vstd::prelude::*;

verus! {

/// The line terminator: a line-feed byte.
pub const LINE_FEED: u8 = 10;

/// Whitespace that is trimmed from both ends of a completed line:
/// space, horizontal tab and carriage return.
pub open spec fn is_ws_byte(b: u8) -> bool {
    b == 32 || b == 9 || b == 13
}

/// Splits `bytes` into the complete lines they contain, given that `acc`
/// holds the partial line carried over from earlier input. Returns the
/// complete (untrimmed) lines in order and the new trailing partial line.
pub open spec fn split_rec(acc: Seq<u8>, bytes: Seq<u8>) -> (Seq<Seq<u8>>, Seq<u8>)
    decreases bytes.len(),
{
    if bytes.len() == 0 {
        (Seq::<Seq<u8>>::empty(), acc)
    } else if bytes[0] == LINE_FEED {
        let r = split_rec(Seq::<u8>::empty(), bytes.drop_first());
        (seq![acc] + r.0, r.1)
    } else {
        split_rec(acc.push(bytes[0]), bytes.drop_first())
    }
}

/// `bytes` with leading whitespace removed.
pub open spec fn trim_start(bytes: Seq<u8>) -> Seq<u8>
    decreases bytes.len(),
{
    if bytes.len() > 0 && is_ws_byte(bytes[0]) {
        trim_start(bytes.drop_first())
    } else {
        bytes
    }
}

/// `bytes` with trailing whitespace removed.
pub open spec fn trim_end(bytes: Seq<u8>) -> Seq<u8>
    decreases bytes.len(),
{
    if bytes.len() > 0 && is_ws_byte(bytes.last()) {
        trim_end(bytes.drop_last())
    } else {
        bytes
    }
}

/// `bytes` with whitespace removed from both ends.
pub open spec fn trim(bytes: Seq<u8>) -> Seq<u8> {
    trim_end(trim_start(bytes))
}

/// Splitting distributes over concatenation of the input: the lines of
/// `a + b` are the lines of `a` followed by the lines of `b` fed with the
/// partial line that `a` left behind.
pub proof fn lemma_split_rec_append(acc: Seq<u8>, a: Seq<u8>, b: Seq<u8>)
    ensures
        ({
            let whole = split_rec(acc, a + b);
            let first = split_rec(acc, a);
            let second = split_rec(first.1, b);
            whole.0 == first.0 + second.0 && whole.1 == second.1
        }),
    decreases a.len(),
{
    if a.len() == 0 {
        assert(a + b =~= b);
        assert(split_rec(acc, a).0 + split_rec(split_rec(acc, a).1, b).0
            =~= split_rec(acc, b).0);
    } else {
        assert((a + b).drop_first() =~= a.drop_first() + b);
        if a[0] == LINE_FEED {
            lemma_split_rec_append(Seq::<u8>::empty(), a.drop_first(), b);
            let first = split_rec(acc, a);
            let second = split_rec(first.1, b);
            assert(split_rec(acc, a + b).0 =~= first.0 + second.0);
        } else {
            lemma_split_rec_append(acc.push(a[0]), a.drop_first(), b);
        }
    }
}

/// The number of complete lines found never exceeds the number of bytes fed,
/// and the trailing partial line holds no line feed.
pub proof fn lemma_split_rec_bounds(acc: Seq<u8>, bytes: Seq<u8>)
    requires
        !acc.contains(LINE_FEED),
    ensures
        split_rec(acc, bytes).0.len() <= bytes.len(),
        !split_rec(acc, bytes).1.contains(LINE_FEED),
    decreases bytes.len(),
{
    if bytes.len() == 0 {
    } else if bytes[0] == LINE_FEED {
        assert(!Seq::<u8>::empty().contains(LINE_FEED));
        lemma_split_rec_bounds(Seq::<u8>::empty(), bytes.drop_first());
    } else {
        assert forall|i: int| 0 <= i < acc.push(bytes[0]).len() implies acc.push(
            bytes[0],
        )[i] != LINE_FEED by {
            if i < acc.len() {
                assert(!acc.contains(LINE_FEED));
            }
        }
        lemma_split_rec_bounds(acc.push(bytes[0]), bytes.drop_first());
    }
}

/// The lines produced when the chunks of `chunks` are fed one after the
/// other into a buffer holding `acc`.
pub open spec fn chunked_lines(acc: Seq<u8>, chunks: Seq<Seq<u8>>) -> (Seq<Seq<u8>>, Seq<u8>)
    decreases chunks.len(),
{
    if chunks.len() == 0 {
        (Seq::<Seq<u8>>::empty(), acc)
    } else {
        let first = split_rec(acc, chunks[0]);
        let rest = chunked_lines(first.1, chunks.drop_first());
        (first.0 + rest.0, rest.1)
    }
}

/// Feeding a stream chunk by chunk yields exactly the lines of the
/// concatenated stream, however the chunk boundaries fall.
pub proof fn lemma_chunking_irrelevant(acc: Seq<u8>, chunks: Seq<Seq<u8>>)
    ensures
        chunked_lines(acc, chunks).0 == split_rec(acc, chunks.flatten()).0,
        chunked_lines(acc, chunks).1 == split_rec(acc, chunks.flatten()).1,
    decreases chunks.len(),
{
    if chunks.len() == 0 {
        assert(chunks.flatten() =~= Seq::<u8>::empty());
        assert(chunked_lines(acc, chunks).0 =~= split_rec(acc, chunks.flatten()).0);
    } else {
        let first = split_rec(acc, chunks[0]);
        lemma_chunking_irrelevant(first.1, chunks.drop_first());
        lemma_split_rec_append(acc, chunks[0], chunks.drop_first().flatten());
        assert(chunks.flatten() == chunks[0] + chunks.drop_first().flatten());
        assert(chunked_lines(acc, chunks).0 =~= split_rec(acc, chunks.flatten()).0);
    }
}

/// Accumulator for the trailing partial line of the backend byte stream.
pub struct LineBuffer {
    data: Vec<u8>,
}

impl View for LineBuffer {
    type V = Seq<u8>;

    closed spec fn view(&self) -> Seq<u8> {
        self.data@
    }
}

impl LineBuffer {
    /// A fresh, empty buffer.
    pub fn new() -> (r: LineBuffer)
        ensures
            r@ == Seq::<u8>::empty(),
    {
        LineBuffer { data: Vec::new() }
    }

    /// The number of bytes of the trailing partial line currently held.
    pub fn len(&self) -> (n: usize)
        ensures
            n == self@.len(),
    {
        self.data.len()
    }

    /// Consumes one chunk of the byte stream and returns every line completed
    /// by it, trimmed, in arrival order; the trailing partial line remains in
    /// the buffer.
    pub fn feed(&mut self, chunk: &[u8]) -> (lines: Vec<Vec<u8>>)
        ensures
            ({
                let r = split_rec(old(self)@, chunk@);
                &&& final(self)@ == r.1
                &&& lines@.len() == r.0.len()
                &&& forall|i: int|
                    0 <= i < lines@.len() ==> #[trigger] lines@[i]@ == trim(r.0[i])
            }),
    {
        let ghost acc0 = self.data@;
        let mut lines: Vec<Vec<u8>> = Vec::new();
        let mut i: usize = 0;
        while i < chunk.len()
            invariant
                0 <= i <= chunk@.len(),
                ({
                    let r = split_rec(acc0, chunk@.take(i as int));
                    &&& self.data@ == r.1
                    &&& lines@.len() == r.0.len()
                    &&& forall|k: int|
                        0 <= k < lines@.len() ==> #[trigger] lines@[k]@ == trim(r.0[k])
                }),
            decreases chunk@.len() - i,
        {
            let b = chunk[i];
            proof {
                lemma_split_rec_append(acc0, chunk@.take(i as int), seq![b]);
                assert(chunk@.take(i as int) + seq![b] =~= chunk@.take(i + 1));
                let r = split_rec(acc0, chunk@.take(i as int));
                assert(seq![b].drop_first() =~= Seq::<u8>::empty());
                assert(seq![b].len() == 1 && seq![b][0] == b);
                assert(split_rec(Seq::<u8>::empty(), Seq::<u8>::empty()).0
                    =~= Seq::<Seq<u8>>::empty());
                assert(split_rec(r.1.push(b), Seq::<u8>::empty()).1 =~= r.1.push(b));
                if b == LINE_FEED {
                    assert(split_rec(r.1, seq![b]).0 == seq![r.1] + split_rec(
                        Seq::<u8>::empty(),
                        seq![b].drop_first(),
                    ).0);
                    assert(split_rec(r.1, seq![b]).0 =~= seq![r.1]);
                    assert(split_rec(acc0, chunk@.take(i + 1)).0 =~= r.0.push(r.1));
                } else {
                    assert(split_rec(r.1, seq![b]) == split_rec(
                        r.1.push(b),
                        Seq::<u8>::empty(),
                    ));
                    assert(split_rec(acc0, chunk@.take(i + 1)).0 =~= r.0);
                    assert(split_rec(acc0, chunk@.take(i + 1)).1 =~= r.1.push(b));
                }
            }
            if b == LINE_FEED {
                let mut complete: Vec<u8> = Vec::new();
                core::mem::swap(&mut complete, &mut self.data);
                let trimmed = trim_bytes(&complete);
                lines.push(trimmed);
                proof {
                    let r = split_rec(acc0, chunk@.take(i as int));
                    assert(forall|k: int|
                        0 <= k < r.0.len() ==> #[trigger] split_rec(acc0, chunk@.take(i + 1)).0[k]
                            == r.0[k]);
                }
            } else {
                self.data.push(b);
            }
            i = i + 1;
        }
        proof {
            assert(chunk@.take(chunk@.len() as int) =~= chunk@);
        }
        lines
    }
}

/// Removes the whitespace at both ends of `v`.
pub fn trim_bytes(v: &Vec<u8>) -> (r: Vec<u8>)
    ensures
        r@ == trim(v@),
{
    let mut lo: usize = 0;
    while lo < v.len() && is_ws_exec(v[lo])
        invariant
            0 <= lo <= v@.len(),
            forall|k: int| 0 <= k < lo ==> is_ws_byte(#[trigger] v@[k]),
        decreases v@.len() - lo,
    {
        lo = lo + 1;
    }
    proof {
        lemma_trim_start_at(v@, lo as int);
    }
    let mut hi: usize = v.len();
    while hi > lo && is_ws_exec(v[hi - 1])
        invariant
            lo <= hi <= v@.len(),
            forall|k: int| hi <= k < v@.len() ==> is_ws_byte(#[trigger] v@[k]),
            lo == v@.len() || !is_ws_byte(v@[lo as int]),
        decreases hi,
    {
        hi = hi - 1;
    }
    proof {
        lemma_trim_end_at(v@.skip(lo as int), hi - lo);
    }
    let mut r: Vec<u8> = Vec::new();
    let mut j: usize = lo;
    while j < hi
        invariant
            lo <= j <= hi <= v@.len(),
            r@ == v@.subrange(lo as int, j as int),
        decreases hi - j,
    {
        r.push(v[j]);
        proof {
            assert(v@.subrange(lo as int, j + 1) =~= v@.subrange(lo as int, j as int).push(
                v@[j as int],
            ));
        }
        j = j + 1;
    }
    proof {
        assert(v@.skip(lo as int).take(hi - lo) =~= v@.subrange(lo as int, hi as int));
    }
    r
}

/// Executable test for [`is_ws_byte`].
pub fn is_ws_exec(b: u8) -> (r: bool)
    ensures
        r == is_ws_byte(b),
{
    b == 32 || b == 9 || b == 13
}

/// If the first `lo` bytes are whitespace and the byte at `lo` (if any) is
/// not, trimming the start drops exactly those `lo` bytes.
proof fn lemma_trim_start_at(s: Seq<u8>, lo: int)
    requires
        0 <= lo <= s.len(),
        forall|k: int| 0 <= k < lo ==> is_ws_byte(#[trigger] s[k]),
        lo == s.len() || !is_ws_byte(s[lo]),
    ensures
        trim_start(s) == s.skip(lo),
    decreases lo,
{
    if lo == 0 {
        assert(s.skip(0) =~= s);
    } else {
        lemma_trim_start_at(s.drop_first(), lo - 1);
        assert(s.drop_first().skip(lo - 1) =~= s.skip(lo));
    }
}

/// If the last bytes beyond `hi` are whitespace and the byte before `hi`
/// (if any) is not, trimming the end keeps exactly the first `hi` bytes.
proof fn lemma_trim_end_at(s: Seq<u8>, hi: int)
    requires
        0 <= hi <= s.len(),
        forall|k: int| hi <= k < s.len() ==> is_ws_byte(#[trigger] s[k]),
        hi == 0 || !is_ws_byte(s[hi - 1]),
    ensures
        trim_end(s) == s.take(hi),
    decreases s.len(),
{
    if s.len() > hi {
        lemma_trim_end_at(s.drop_last(), hi);
        assert(s.drop_last().take(hi) =~= s.take(hi));
    } else {
        assert(s.take(hi) =~= s);
    }
}

} // verus!
