//! The line-buffered sink: output bytes come in arbitrary chunks, and each
//! write emits at most one segment, everything up to and including the last
//! newline seen. A flush emits whatever is left.

use vstd::prelude::*;
use crate::text::{decode_lossy, lossy_of};

verus! {

/// The byte that ends a line.
pub const NEWLINE: u8 = 10;

/// The position of the last newline in `s`, if there is one.
pub open spec fn last_newline(s: Seq<u8>) -> Option<int>
    decreases s.len(),
{
    if s.len() == 0 {
        None
    } else if s.last() == NEWLINE {
        Some(s.len() - 1)
    } else {
        last_newline(s.drop_last())
    }
}

/// One write on a buffer: the segment it emits, if any, and the bytes it keeps.
pub open spec fn write_step(buf: Seq<u8>, bytes: Seq<u8>) -> (Option<Seq<u8>>, Seq<u8>) {
    let s = buf + bytes;
    match last_newline(s) {
        Some(i) => (Some(s.take(i + 1)), s.skip(i + 1)),
        None => (None, s),
    }
}

/// A flush on a buffer: the segment it emits, if any.
pub open spec fn flush_step(buf: Seq<u8>) -> Option<Seq<u8>> {
    if buf.len() == 0 {
        None
    } else {
        Some(buf)
    }
}

/// An optional segment as a sequence of zero or one segments.
pub open spec fn segments_of(o: Option<Seq<u8>>) -> Seq<Seq<u8>> {
    match o {
        Some(s) => seq![s],
        None => Seq::empty(),
    }
}

/// The segments that a run of writes emits from a buffer, and the bytes left.
pub open spec fn feed(buf: Seq<u8>, chunks: Seq<Seq<u8>>) -> (Seq<Seq<u8>>, Seq<u8>)
    decreases chunks.len(),
{
    if chunks.len() == 0 {
        (Seq::empty(), buf)
    } else {
        let (segs, rest) = feed(buf, chunks.drop_last());
        let (e, left) = write_step(rest, chunks.last());
        (segs + segments_of(e), left)
    }
}

/// The segments that a run of writes followed by a flush emits from a buffer.
pub open spec fn drained(buf: Seq<u8>, chunks: Seq<Seq<u8>>) -> Seq<Seq<u8>> {
    feed(buf, chunks).0 + segments_of(flush_step(feed(buf, chunks).1))
}

/// The texts of a sequence of segments.
pub open spec fn decoded(segs: Seq<Seq<u8>>) -> Seq<Seq<char>> {
    segs.map_values(|b: Seq<u8>| lossy_of(b))
}

/// The text of an optional segment.
pub open spec fn decoded_opt(o: Option<Seq<u8>>) -> Option<Seq<char>> {
    match o {
        Some(b) => Some(lossy_of(b)),
        None => None,
    }
}

/// The view of an optional string.
pub open spec fn opt_view(o: Option<String>) -> Option<Seq<char>> {
    match o {
        Some(s) => Some(s@),
        None => None,
    }
}

/// Every byte of a sequence as a chunk of its own.
pub open spec fn bytewise(b: Seq<u8>) -> Seq<Seq<u8>> {
    Seq::new(b.len(), |i: int| seq![b[i]])
}

/// All segments joined end to end.
pub open spec fn joined(segs: Seq<Seq<u8>>) -> Seq<u8>
    decreases segs.len(),
{
    if segs.len() == 0 {
        Seq::empty()
    } else {
        joined(segs.drop_last()) + segs.last()
    }
}

/// At most one newline is in `b`.
pub open spec fn single_line_break(b: Seq<u8>) -> bool {
    forall|i: int, j: int| 0 <= i < j < b.len() ==> !(b[i] == NEWLINE && b[j] == NEWLINE)
}

/// What `last_newline` finds: the last newline, or that there is none.
pub proof fn lemma_last_newline(s: Seq<u8>)
    ensures
        match last_newline(s) {
            Some(i) => 0 <= i < s.len() && s[i] == NEWLINE && forall|j: int|
                i < j < s.len() ==> s[j] != NEWLINE,
            None => forall|j: int| 0 <= j < s.len() ==> s[j] != NEWLINE,
        },
    decreases s.len(),
{
    if s.len() > 0 && s.last() != NEWLINE {
        lemma_last_newline(s.drop_last());
        assert forall|j: int| 0 <= j < s.len() - 1 implies s[j] == s.drop_last()[j] by {}
    }
}

/// A newline with none after it is the last newline.
pub proof fn lemma_last_newline_at(s: Seq<u8>, i: int)
    requires
        0 <= i < s.len(),
        s[i] == NEWLINE,
        forall|j: int| i < j < s.len() ==> s[j] != NEWLINE,
    ensures
        last_newline(s) == Some(i),
    decreases s.len(),
{
    if i < s.len() - 1 {
        lemma_last_newline_at(s.drop_last(), i);
    }
}

/// A sequence with no newline has no last newline.
pub proof fn lemma_no_newline(s: Seq<u8>)
    requires
        forall|j: int| 0 <= j < s.len() ==> s[j] != NEWLINE,
    ensures
        last_newline(s) == None::<int>,
    decreases s.len(),
{
    if s.len() > 0 {
        lemma_no_newline(s.drop_last());
    }
}

/// Joining after appending one segment is joining, then appending it.
proof fn lemma_joined_push(segs: Seq<Seq<u8>>, x: Seq<u8>)
    ensures
        joined(segs.push(x)) == joined(segs) + x,
{
    assert(segs.push(x).drop_last() =~= segs);
}

/// A run of writes neither loses nor repeats a byte: what it emits, followed
/// by what it keeps, is the old buffer followed by everything written.
proof fn lemma_feed_keeps_bytes(buf: Seq<u8>, chunks: Seq<Seq<u8>>)
    ensures
        joined(feed(buf, chunks).0) + feed(buf, chunks).1 == buf + joined(chunks),
    decreases chunks.len(),
{
    if chunks.len() > 0 {
        let init = chunks.drop_last();
        lemma_feed_keeps_bytes(buf, init);
        let (segs, rest) = feed(buf, init);
        let c = chunks.last();
        let s = rest + c;
        match last_newline(s) {
            Some(i) => {
                lemma_last_newline(s);
                assert(segs + segments_of(Some(s.take(i + 1))) =~= segs.push(s.take(i + 1)));
                lemma_joined_push(segs, s.take(i + 1));
                assert(s.take(i + 1) + s.skip(i + 1) =~= s);
            },
            None => {
                assert(segs + segments_of(None) =~= segs);
            },
        }
        assert(buf + joined(init) + c =~= buf + (joined(init) + c));
        assert(joined(segs) + (rest + c) =~= joined(segs) + rest + c);
    }
}

/// Writing chunks and then flushing hands on every byte once and in order:
/// the emitted segments, joined, are the old buffer followed by all chunks.
pub proof fn lemma_drained_keeps_bytes(buf: Seq<u8>, chunks: Seq<Seq<u8>>)
    ensures
        joined(drained(buf, chunks)) == buf + joined(chunks),
{
    lemma_feed_keeps_bytes(buf, chunks);
    let (segs, rest) = feed(buf, chunks);
    if rest.len() == 0 {
        assert(segs + segments_of(flush_step(rest)) =~= segs);
        assert(joined(segs) + rest =~= joined(segs));
    } else {
        assert(segs + segments_of(flush_step(rest)) =~= segs.push(rest));
        lemma_joined_push(segs, rest);
    }
}

/// Feeding the first `m` bytes of `b` one at a time, where `b` holds at most
/// one newline.
proof fn lemma_bytewise_prefix(b: Seq<u8>, m: int)
    requires
        single_line_break(b),
        0 <= m <= b.len(),
    ensures
        feed(Seq::empty(), bytewise(b).take(m)) == match last_newline(b.take(m)) {
            Some(k) => (seq![b.take(k + 1)], b.subrange(k + 1, m)),
            None => (Seq::<Seq<u8>>::empty(), b.take(m)),
        },
    decreases m,
{
    if m == 0 {
        assert(bytewise(b).take(0) =~= Seq::<Seq<u8>>::empty());
        assert(b.take(0) =~= Seq::<u8>::empty());
    } else {
        let n = m - 1;
        lemma_bytewise_prefix(b, n);
        let chunks = bytewise(b).take(m);
        assert(chunks.drop_last() =~= bytewise(b).take(n));
        assert(chunks.last() == seq![b[n]]);
        lemma_last_newline(b.take(n));
        let (segs, rest) = feed(Seq::empty(), bytewise(b).take(n));
        let s = rest + seq![b[n]];
        match last_newline(b.take(n)) {
            Some(k) => {
                assert(b.take(n)[k] == b[k]);
                assert(b[n] != NEWLINE);
                assert(s =~= b.subrange(k + 1, m));
                assert forall|j: int| 0 <= j < s.len() implies s[j] != NEWLINE by {
                    assert(s[j] == b[k + 1 + j]);
                }
                lemma_no_newline(s);
                assert forall|j: int| k < j < m implies b.take(m)[j] != NEWLINE by {}
                lemma_last_newline_at(b.take(m), k);
                assert(segs + segments_of(None) =~= segs);
            },
            None => {
                assert(s =~= b.take(m));
                lemma_last_newline(b.take(m));
                match last_newline(b.take(m)) {
                    Some(k) => {
                        if k < n {
                            assert(b.take(n)[k] == b.take(m)[k]);
                        }
                        assert(k == n);
                        assert(s.take(k + 1) =~= b.take(k + 1));
                        assert(s.skip(k + 1) =~= b.subrange(k + 1, m));
                        assert(segs + segments_of(Some(s.take(k + 1))) =~= seq![b.take(k + 1)]);
                    },
                    None => {
                        assert(segs + segments_of(None) =~= segs);
                    },
                }
            },
        }
    }
}

/// Chunk boundaries do not matter for a byte sequence with at most one
/// newline: written one byte at a time or all at once, and then flushed, it
/// yields the same output texts.
pub proof fn lemma_chunking_independent(b: Seq<u8>)
    requires
        single_line_break(b),
    ensures
        decoded(drained(Seq::empty(), bytewise(b))) == decoded(drained(Seq::empty(), seq![b])),
{
    lemma_bytewise_prefix(b, b.len() as int);
    assert(bytewise(b).take(b.len() as int) =~= bytewise(b));
    assert(b.take(b.len() as int) =~= b);
    let whole = seq![b];
    assert(whole.drop_last() =~= Seq::<Seq<u8>>::empty());
    assert(Seq::<u8>::empty() + b =~= b);
    assert(whole.last() == b);
    assert(feed(Seq::empty(), whole.drop_last()) == (Seq::<Seq<u8>>::empty(), Seq::<u8>::empty()));
    lemma_last_newline(b);
    match last_newline(b) {
        Some(k) => {
            assert(Seq::<Seq<u8>>::empty() + segments_of(Some(b.take(k + 1))) =~= seq![b.take(k + 1)]);
            assert(b.skip(k + 1) =~= b.subrange(k + 1, b.len() as int));
            assert(feed(Seq::empty(), whole) == (seq![b.take(k + 1)], b.skip(k + 1)));
        },
        None => {
            assert(Seq::<Seq<u8>>::empty() + segments_of(None) =~= Seq::<Seq<u8>>::empty());
            assert(feed(Seq::empty(), whole) == (Seq::<Seq<u8>>::empty(), b));
        },
    }
    assert(drained(Seq::empty(), bytewise(b)) =~= drained(Seq::empty(), seq![b]));
}

/// The line-buffered output sink.
pub struct OutWriter {
    buffer: Vec<u8>,
}

impl OutWriter {
    /// The bytes written since the last newline and not yet emitted.
    pub closed spec fn pending(&self) -> Seq<u8> {
        self.buffer@
    }

    /// A sink with nothing buffered.
    pub fn new() -> (w: OutWriter)
        ensures
            w.pending() == Seq::<u8>::empty(),
    {
        OutWriter { buffer: Vec::new() }
    }

    /// Appends `buf`; if a newline is now buffered, emits the text of
    /// everything up to and including the last one and keeps the rest.
    pub fn write(&mut self, buf: &[u8]) -> (r: Option<String>)
        ensures
            opt_view(r) == decoded_opt(write_step(old(self).pending(), buf@).0),
            final(self).pending() == write_step(old(self).pending(), buf@).1,
    {
        let ghost start = self.buffer@;
        let mut k: usize = 0;
        while k < buf.len()
            invariant
                k <= buf@.len(),
                self.buffer@ == start + buf@.take(k as int),
            decreases buf@.len() - k,
        {
            self.buffer.push(buf[k]);
            k += 1;
            assert(self.buffer@ =~= start + buf@.take(k as int));
        }
        assert(buf@.take(buf@.len() as int) =~= buf@);
        let mut i: usize = self.buffer.len();
        while i > 0 && self.buffer[i - 1] != NEWLINE
            invariant
                i <= self.buffer@.len(),
                self.buffer@ == start + buf@,
                forall|j: int| i <= j < self.buffer@.len() ==> self.buffer@[j] != NEWLINE,
            decreases i,
        {
            i -= 1;
        }
        if i == 0 {
            proof {
                lemma_no_newline(self.buffer@);
            }
            None
        } else {
            proof {
                lemma_last_newline_at(self.buffer@, i - 1);
            }
            let rest = self.buffer.split_off(i);
            let s = decode_lossy(self.buffer.as_slice());
            self.buffer = rest;
            Some(s)
        }
    }

    /// Emits the text of everything buffered, if anything is, and empties
    /// the buffer.
    pub fn flush(&mut self) -> (r: Option<String>)
        ensures
            opt_view(r) == decoded_opt(flush_step(old(self).pending())),
            old(self).pending().len() == 0 ==> r is None,
            old(self).pending().len() > 0 ==> r is Some && r->0@ == lossy_of(old(self).pending()),
            final(self).pending() == Seq::<u8>::empty(),
    {
        if self.buffer.len() == 0 {
            None
        } else {
            let s = decode_lossy(self.buffer.as_slice());
            self.buffer.clear();
            Some(s)
        }
    }
}

} // verus!
