//! Byte-stream framing: a frame is everything up to the next line-feed byte.
//!
//! The framer keeps one accumulation buffer per connection. Each raw read is
//! handed to [`Framer::push`]; bytes pile up in the buffer until a line feed
//! arrives, at which point everything before the line feed is emitted as one
//! frame and everything after it begins the next buffer. Only the first line
//! feed is honoured per call; a caller that wants the remaining frames calls
//! `push` again with an empty chunk, which re-scans the carried bytes.

use vstd::prelude::*;

verus! {

/// The frame delimiter: a single line-feed byte.
pub const LINE_FEED: u8 = 0x0a;

/// Position of the first line-feed byte of `s` at or after `i`, if any.
pub open spec fn find_lf(s: Seq<u8>, i: int) -> Option<int>
    decreases s.len() - i,
{
    if i < 0 || i >= s.len() {
        None
    } else if s[i] == LINE_FEED {
        Some(i)
    } else {
        find_lf(s, i + 1)
    }
}

/// How a buffered byte sequence splits at its first line feed: the frame
/// before the delimiter and the remainder after it, or nothing when no
/// delimiter is present.
pub open spec fn frame_split(s: Seq<u8>) -> Option<(Seq<u8>, Seq<u8>)> {
    match find_lf(s, 0) {
        Some(i) => Some((s.take(i), s.skip(i + 1))),
        None => None,
    }
}

/// What `find_lf` finds is the first delimiter: everything before it is
/// ordinary payload, and a `None` means the whole tail is payload.
pub proof fn lemma_find_lf(s: Seq<u8>, i: int)
    requires
        0 <= i <= s.len(),
    ensures
        match find_lf(s, i) {
            Some(j) => i <= j < s.len() && s[j] == LINE_FEED && (forall|k: int|
                i <= k < j ==> s[k] != LINE_FEED),
            None => forall|k: int| i <= k < s.len() ==> s[k] != LINE_FEED,
        },
    decreases s.len() - i,
{
    if i < s.len() && s[i] != LINE_FEED {
        lemma_find_lf(s, i + 1);
    }
}

/// A payload without any delimiter, sent followed by one delimiter, splits
/// into exactly that payload and an empty carry-over, no matter how the bytes
/// were grouped into raw reads beforehand.
pub proof fn lemma_frame_split_payload(payload: Seq<u8>, rest: Seq<u8>)
    requires
        forall|k: int| 0 <= k < payload.len() ==> payload[k] != LINE_FEED,
    ensures
        frame_split(payload + seq![LINE_FEED] + rest) == Some((payload, rest)),
{
    let s = payload + seq![LINE_FEED] + rest;
    let n = payload.len() as int;
    assert(s[n] == LINE_FEED);
    lemma_find_lf(s, 0);
    if find_lf(s, 0) is None {
        assert(s[n] != LINE_FEED);
        assert(false);
    }
    let j = find_lf(s, 0)->0;
    if j < n {
        assert(s[j] == payload[j]);
        assert(false);
    }
    if j > n {
        assert(s[n] != LINE_FEED);
        assert(false);
    }
    assert(s.take(n) =~= payload);
    assert(s.skip(n + 1) =~= rest);
}

/// Every frame a buffered byte sequence yields under repeated scans, in
/// order: what a caller that drains the buffer gets from it.
pub open spec fn frames_of(s: Seq<u8>) -> Seq<Seq<u8>>
    decreases s.len(),
{
    match frame_split(s) {
        None => Seq::empty(),
        Some(p) => if p.1.len() < s.len() {
            seq![p.0] + frames_of(p.1)
        } else {
            Seq::empty()
        },
    }
}

/// What stays buffered once no delimiter is left.
pub open spec fn residue(s: Seq<u8>) -> Seq<u8>
    decreases s.len(),
{
    match frame_split(s) {
        None => s,
        Some(p) => if p.1.len() < s.len() {
            residue(p.1)
        } else {
            s
        },
    }
}

/// Chunking does not matter: a stream fed in two pieces, the buffer drained
/// in between, yields exactly the frames of the whole stream, in stream
/// order, with the same final carry-over. Applied chunk by chunk, this says
/// that a connection loop that drains the framer after every raw read — as
/// the gateway's does — answers the frames of the byte stream in the order
/// they were sent, however the transport grouped the bytes.
pub proof fn lemma_frames_any_chunking(s: Seq<u8>, c: Seq<u8>)
    ensures
        frames_of(s + c) == frames_of(s) + frames_of(residue(s) + c),
        residue(s + c) == residue(residue(s) + c),
    decreases s.len(),
{
    lemma_find_lf(s, 0);
    lemma_find_lf(s + c, 0);
    match find_lf(s, 0) {
        None => {
            assert(s + c =~= residue(s) + c);
            assert(frames_of(s) + frames_of(residue(s) + c) =~= frames_of(s + c));
        },
        Some(i) => {
            // The first delimiter of the longer stream is the same one.
            assert((s + c)[i] == s[i]);
            if find_lf(s + c, 0) is None {
                assert(false);
            }
            let j = find_lf(s + c, 0)->0;
            if j < i {
                assert((s + c)[j] == s[j]);
                assert(false);
            }
            if j > i {
                assert(false);
            }
            let p1 = s.skip(i + 1);
            assert((s + c).skip(i + 1) =~= p1 + c);
            assert((s + c).take(i) =~= s.take(i));
            lemma_frames_any_chunking(p1, c);
            assert(frames_of(s) =~= seq![s.take(i)] + frames_of(p1));
            assert(frames_of(s + c) =~= seq![s.take(i)] + frames_of(p1 + c));
            assert(frames_of(s + c) =~= frames_of(s) + frames_of(residue(s) + c));
            assert(residue(s) == residue(p1));
            assert(residue(s + c) == residue(p1 + c));
        },
    }
}

/// Two complete frames delivered in one raw write come back out as those two
/// frames, one per scan: the first split yields the first payload and carries
/// the second frame over, and the carried bytes split into the second payload.
pub proof fn lemma_two_frames_one_write(p1: Seq<u8>, p2: Seq<u8>)
    requires
        forall|k: int| 0 <= k < p1.len() ==> p1[k] != LINE_FEED,
        forall|k: int| 0 <= k < p2.len() ==> p2[k] != LINE_FEED,
    ensures
        frame_split(p1 + seq![LINE_FEED] + (p2 + seq![LINE_FEED])) == Some((
            p1,
            p2 + seq![LINE_FEED],
        )),
        frame_split(p2 + seq![LINE_FEED]) == Some((p2, Seq::<u8>::empty())),
{
    lemma_frame_split_payload(p1, p2 + seq![LINE_FEED]);
    lemma_frame_split_payload(p2, Seq::<u8>::empty());
    assert(p2 + seq![LINE_FEED] + Seq::<u8>::empty() =~= p2 + seq![LINE_FEED]);
}

/// Accumulates raw bytes and yields complete newline-delimited frames.
pub struct Framer {
    buf: Vec<u8>,
}

impl View for Framer {
    type V = Seq<u8>;

    /// The bytes currently carried over, waiting for a delimiter.
    closed spec fn view(&self) -> Seq<u8> {
        self.buf@
    }
}

/// First line-feed position in a byte slice.
fn find_lf_exec(s: &[u8]) -> (r: Option<usize>)
    ensures
        match r {
            Some(i) => find_lf(s@, 0) == Some(i as int) && i < s@.len(),
            None => find_lf(s@, 0) is None,
        },
{
    let n = s.len();
    let mut i: usize = 0;
    while i < n
        invariant
            0 <= i <= n == s@.len(),
            find_lf(s@, 0) == find_lf(s@, i as int),
        decreases n - i,
    {
        if s[i] == LINE_FEED {
            return Some(i);
        }
        i = i + 1;
    }
    None
}

impl Framer {
    /// A fresh framer with an empty accumulation buffer.
    pub fn new() -> (f: Framer)
        ensures
            f@ == Seq::<u8>::empty(),
    {
        Framer { buf: Vec::new() }
    }

    /// Feeds one raw read into the buffer and scans for a delimiter. When the
    /// buffered bytes hold a line feed, everything before the first one comes
    /// out as a frame and everything after it stays buffered; otherwise all
    /// the bytes stay buffered. An empty `chunk` re-scans what is carried.
    pub fn push(&mut self, chunk: &[u8]) -> (frame: Option<Vec<u8>>)
        ensures
            frame matches Some(f) ==> frame_split(old(self)@ + chunk@) == Some((
                f@,
                final(self)@,
            )),
            frame is None ==> frame_split(old(self)@ + chunk@) is None && final(self)@ == old(
                self,
            )@ + chunk@,
    {
        self.buf.extend_from_slice(chunk);
        let n = self.buf.len();
        match find_lf_exec(self.buf.as_slice()) {
            None => {
                proof {
                    assert(self.buf@ == old(self)@ + chunk@);
                    assert(find_lf(self.buf@, 0) is None);
                    assert(frame_split(old(self)@ + chunk@) is None);
                }
                None
            },
            Some(i) => {
                let ghost whole = self.buf@;
                proof {
                    lemma_find_lf(whole, 0);
                    assert(i < n);
                }
                let rest = self.buf.split_off(i + 1);
                let mut out = rest;
                core::mem::swap(&mut self.buf, &mut out);
                // `out` now holds the head up to and including the delimiter.
                out.truncate(i);
                proof {
                    assert(out@ =~= whole.take(i as int));
                    assert(self.buf@ =~= whole.skip(i as int + 1));
                    assert(whole == old(self)@ + chunk@);
                    assert(frame_split(whole) == Some((out@, self.buf@)));
                }
                Some(out)
            },
        }
    }
}

} // verus!
