use vstd::prelude::*;

use crate::error::{Error, ErrorKind, Result};
use crate::request::{free_of_sentinel, END_OF_REQUEST_SEPARATOR, MAX_REQUEST_SIZE};

verus! {

/// Splits `bytes` at each sentinel, with `partial` the frame begun before
/// them: the frames that the sentinels complete, in order, and the partial
/// frame left after the last one.
pub open spec fn split_frames(partial: Seq<u8>, bytes: Seq<u8>) -> (Seq<Seq<u8>>, Seq<u8>)
    decreases bytes.len(),
{
    if bytes.len() == 0 {
        (Seq::empty(), partial)
    } else if bytes[0] == END_OF_REQUEST_SEPARATOR {
        let rest = split_frames(Seq::empty(), bytes.drop_first());
        (seq![partial] + rest.0, rest.1)
    } else {
        split_frames(partial.push(bytes[0]), bytes.drop_first())
    }
}

/// True when no frame, complete or partial, is longer than the maximum size.
pub open spec fn within_limit(frames: Seq<Seq<u8>>, partial: Seq<u8>) -> bool {
    &&& forall|k: int| 0 <= k < frames.len() ==> #[trigger] frames[k].len() <= MAX_REQUEST_SIZE
    &&& partial.len() <= MAX_REQUEST_SIZE
}

/// The decoder of one connection: the partial frame carried over from
/// earlier reads, and whether the connection broke the size limit.
pub struct DecoderView {
    pub partial: Seq<u8>,
    pub failed: bool,
}

/// What one raw read yields.
pub enum Outcome {
    /// The frames that the read completed, in order (possibly none).
    Frames(Seq<Seq<u8>>),
    /// The read returned no bytes: the stream is closed.
    Closed,
    /// The connection sent a frame longer than the maximum size.
    TooLarge,
}

/// The effect of one raw read of `raw` on decoder `d`.
pub open spec fn feed(d: DecoderView, raw: Seq<u8>) -> (DecoderView, Outcome) {
    if d.failed {
        (d, Outcome::TooLarge)
    } else if raw.len() == 0 {
        (d, Outcome::Closed)
    } else {
        let s = split_frames(d.partial, raw);
        if within_limit(s.0, s.1) {
            (DecoderView { partial: s.1, failed: false }, Outcome::Frames(s.0))
        } else {
            (DecoderView { partial: Seq::empty(), failed: true }, Outcome::TooLarge)
        }
    }
}

pub open spec fn frames_view(frames: Seq<Vec<u8>>) -> Seq<Seq<u8>> {
    frames.map_values(|f: Vec<u8>| f@)
}

/// The outcome that a result of `RequestBuffer::read_request` stands for.
pub open spec fn outcome_of(r: Result<Option<Vec<Vec<u8>>>>) -> Outcome {
    match r {
        Ok(Some(frames)) => Outcome::Frames(frames_view(frames@)),
        Ok(None) => Outcome::Closed,
        Err(_) => Outcome::TooLarge,
    }
}

/// Reassembles the frames of one connection from its raw reads.
pub struct RequestBuffer {
    pending: Vec<u8>,
    failed: bool,
}

impl View for RequestBuffer {
    type V = DecoderView;

    closed spec fn view(&self) -> DecoderView {
        DecoderView { partial: self.pending@, failed: self.failed }
    }
}

/// The partial frame holds no sentinel and fits in the maximum size.
pub open spec fn decoder_wf(d: DecoderView) -> bool {
    &&& free_of_sentinel(d.partial)
    &&& d.partial.len() <= MAX_REQUEST_SIZE
}

/// The first frame completed by `bytes`, or else the partial frame left,
/// begins with `partial`.
proof fn lemma_split_extends_partial(partial: Seq<u8>, bytes: Seq<u8>)
    ensures
        ({
            let s = split_frames(partial, bytes);
            if s.0.len() > 0 {
                s.0[0].len() >= partial.len()
            } else {
                s.1.len() >= partial.len()
            }
        }),
    decreases bytes.len(),
{
    if bytes.len() > 0 && bytes[0] != END_OF_REQUEST_SEPARATOR {
        lemma_split_extends_partial(partial.push(bytes[0]), bytes.drop_first());
    }
}

/// The byte stream that carries `payloads`, each followed by the sentinel.
pub open spec fn join_frames(payloads: Seq<Seq<u8>>) -> Seq<u8>
    decreases payloads.len(),
{
    if payloads.len() == 0 {
        Seq::empty()
    } else {
        payloads[0] + seq![END_OF_REQUEST_SEPARATOR] + join_frames(payloads.drop_first())
    }
}

/// The bytes of a sequence of raw reads, one after another.
pub open spec fn concat_reads(reads: Seq<Seq<u8>>) -> Seq<u8>
    decreases reads.len(),
{
    if reads.len() == 0 {
        Seq::empty()
    } else {
        reads[0] + concat_reads(reads.drop_first())
    }
}

/// Feeds `reads` to decoder `d` one raw read at a time, until one of them
/// yields no frames list: the decoder left and the frames yielded, in order.
pub open spec fn feed_all(d: DecoderView, reads: Seq<Seq<u8>>) -> (DecoderView, Seq<Seq<u8>>)
    decreases reads.len(),
{
    if reads.len() == 0 {
        (d, Seq::empty())
    } else {
        let step = feed(d, reads[0]);
        match step.1 {
            Outcome::Frames(frames) => {
                let rest = feed_all(step.0, reads.drop_first());
                (rest.0, frames + rest.1)
            },
            _ => (step.0, Seq::empty()),
        }
    }
}

/// Splitting two byte runs one after the other is splitting the first, then
/// the second from the partial frame that the first leaves.
proof fn lemma_split_append(partial: Seq<u8>, x: Seq<u8>, y: Seq<u8>)
    ensures
        ({
            let a = split_frames(partial, x);
            let b = split_frames(a.1, y);
            split_frames(partial, x + y) == (a.0 + b.0, b.1)
        }),
    decreases x.len(),
{
    let a = split_frames(partial, x);
    let b = split_frames(a.1, y);
    if x.len() == 0 {
        assert(x + y =~= y);
        assert(a.0 + b.0 =~= b.0);
    } else {
        assert((x + y).drop_first() =~= x.drop_first() + y);
        if x[0] == END_OF_REQUEST_SEPARATOR {
            lemma_split_append(Seq::empty(), x.drop_first(), y);
            let c = split_frames(Seq::empty(), x.drop_first());
            assert(seq![partial] + (c.0 + b.0) =~= (seq![partial] + c.0) + b.0);
        } else {
            lemma_split_append(partial.push(x[0]), x.drop_first(), y);
        }
    }
}

/// A run of bytes without a sentinel only extends the partial frame.
proof fn lemma_split_free(partial: Seq<u8>, x: Seq<u8>)
    requires
        free_of_sentinel(x),
    ensures
        split_frames(partial, x) == (Seq::<Seq<u8>>::empty(), partial + x),
    decreases x.len(),
{
    if x.len() == 0 {
        assert(partial + x =~= partial);
    } else {
        assert(x[0] != END_OF_REQUEST_SEPARATOR);
        let rest = x.drop_first();
        assert(free_of_sentinel(rest)) by {
            assert forall|i: int| 0 <= i < rest.len() implies rest[i] != END_OF_REQUEST_SEPARATOR by {
                assert(rest[i] == x[i + 1]);
            }
        }
        lemma_split_free(partial.push(x[0]), rest);
        assert(partial.push(x[0]) + rest =~= partial + x);
    }
}

/// Splitting the stream that carries some payloads gives back those payloads
/// and no partial frame.
proof fn lemma_split_join(payloads: Seq<Seq<u8>>)
    requires
        forall|k: int| 0 <= k < payloads.len() ==> free_of_sentinel(#[trigger] payloads[k]),
    ensures
        split_frames(Seq::empty(), join_frames(payloads)) == (payloads, Seq::<u8>::empty()),
    decreases payloads.len(),
{
    if payloads.len() > 0 {
        let first = payloads[0];
        let rest = payloads.drop_first();
        let tail = seq![END_OF_REQUEST_SEPARATOR] + join_frames(rest);
        assert(join_frames(payloads) =~= first + tail);
        assert(free_of_sentinel(first));
        lemma_split_free(Seq::empty(), first);
        lemma_split_append(Seq::empty(), first, tail);
        assert(Seq::<u8>::empty() + first =~= first);
        assert(tail.drop_first() =~= join_frames(rest));
        assert forall|k: int| 0 <= k < rest.len() implies free_of_sentinel(#[trigger] rest[k]) by {
            assert(rest[k] == payloads[k + 1]);
        }
        lemma_split_join(rest);
        assert(Seq::<Seq<u8>>::empty() + (seq![first] + rest) =~= payloads);
    }
}

/// Feeding reads one at a time frames their bytes as splitting them all at
/// once does, as long as no frame exceeds the maximum size.
proof fn lemma_feed_all_split(partial: Seq<u8>, reads: Seq<Seq<u8>>)
    requires
        forall|j: int| 0 <= j < reads.len() ==> #[trigger] reads[j].len() > 0,
        within_limit(
            split_frames(partial, concat_reads(reads)).0,
            split_frames(partial, concat_reads(reads)).1,
        ),
    ensures
        feed_all(DecoderView { partial, failed: false }, reads) == (
            DecoderView { partial: split_frames(partial, concat_reads(reads)).1, failed: false },
            split_frames(partial, concat_reads(reads)).0,
        ),
    decreases reads.len(),
{
    let d = DecoderView { partial, failed: false };
    if reads.len() == 0 {
        assert(concat_reads(reads) =~= Seq::<u8>::empty());
    } else {
        let first = reads[0];
        let rest = reads.drop_first();
        let a = split_frames(partial, first);
        let b = split_frames(a.1, concat_reads(rest));
        lemma_split_append(partial, first, concat_reads(rest));
        let whole = split_frames(partial, concat_reads(reads));
        assert(whole == (a.0 + b.0, b.1));
        assert forall|k: int| 0 <= k < a.0.len() implies #[trigger] a.0[k].len()
            <= MAX_REQUEST_SIZE by {
            assert(whole.0[k] == a.0[k]);
        }
        lemma_split_extends_partial(a.1, concat_reads(rest));
        if b.0.len() > 0 {
            assert(whole.0[a.0.len() as int] == b.0[0]);
        }
        assert(within_limit(a.0, a.1));
        assert forall|k: int| 0 <= k < b.0.len() implies #[trigger] b.0[k].len()
            <= MAX_REQUEST_SIZE by {
            assert(whole.0[a.0.len() + k] == b.0[k]);
        }
        assert forall|j: int| 0 <= j < rest.len() implies #[trigger] rest[j].len() > 0 by {
            assert(rest[j] == reads[j + 1]);
        }
        lemma_feed_all_split(a.1, rest);
    }
}

/// Framing: when payloads without the sentinel and within the maximum size
/// are sent each followed by the sentinel, and the stream arrives in raw
/// reads cut anywhere, a new decoder yields exactly those payloads, in order,
/// none merged or split, and is left with no partial frame.
pub proof fn lemma_framing(payloads: Seq<Seq<u8>>, reads: Seq<Seq<u8>>)
    requires
        forall|k: int| 0 <= k < payloads.len() ==> free_of_sentinel(#[trigger] payloads[k]),
        forall|k: int| 0 <= k < payloads.len() ==> #[trigger] payloads[k].len() <= MAX_REQUEST_SIZE,
        forall|j: int| 0 <= j < reads.len() ==> #[trigger] reads[j].len() > 0,
        concat_reads(reads) == join_frames(payloads),
    ensures
        feed_all(DecoderView { partial: Seq::empty(), failed: false }, reads) == (
            DecoderView { partial: Seq::empty(), failed: false },
            payloads,
        ),
{
    lemma_split_join(payloads);
    lemma_feed_all_split(Seq::empty(), reads);
}

/// Oversize rejection: a raw read whose first bytes carry a frame past the
/// maximum size without a sentinel fails the connection, and every later
/// read from it fails too, yielding no frame.
pub proof fn lemma_oversize_rejected(d: DecoderView, raw: Seq<u8>, later: Seq<u8>)
    requires
        !d.failed,
        raw.len() > MAX_REQUEST_SIZE,
        free_of_sentinel(raw.subrange(0, MAX_REQUEST_SIZE + 1)),
    ensures
        feed(d, raw).1 == Outcome::TooLarge,
        feed(d, raw).0.failed,
        feed(feed(d, raw).0, later).1 == Outcome::TooLarge,
{
    let head = raw.subrange(0, MAX_REQUEST_SIZE + 1);
    let tail = raw.subrange(MAX_REQUEST_SIZE + 1, raw.len() as int);
    assert(raw =~= head + tail);
    lemma_split_free(d.partial, head);
    lemma_split_append(d.partial, head, tail);
    lemma_split_extends_partial(d.partial + head, tail);
    let s = split_frames(d.partial, raw);
    let t = split_frames(d.partial + head, tail);
    assert(s.0 =~= t.0);
    if t.0.len() > 0 {
        assert(s.0[0].len() > MAX_REQUEST_SIZE);
    }
}

/// A raw read without a sentinel that keeps the partial frame within the
/// maximum size is no error: it only extends the partial frame, yielding no
/// frame yet.
pub proof fn lemma_short_read_accepted(d: DecoderView, raw: Seq<u8>)
    requires
        !d.failed,
        raw.len() > 0,
        free_of_sentinel(raw),
        d.partial.len() + raw.len() <= MAX_REQUEST_SIZE,
    ensures
        feed(d, raw) == (
            DecoderView { partial: d.partial + raw, failed: false },
            Outcome::Frames(Seq::empty()),
        ),
{
    lemma_split_free(d.partial, raw);
}

impl RequestBuffer {
    /// A decoder for a newly accepted connection.
    pub fn new() -> (r: Self)
        ensures
            r@.partial == Seq::<u8>::empty(),
            !r@.failed,
            decoder_wf(r@),
    {
        RequestBuffer { pending: Vec::new(), failed: false }
    }

    /// True once the connection has sent a frame over the size limit; no
    /// further frame is then read from it.
    pub fn has_failed(&self) -> (r: bool)
        ensures
            r == self@.failed,
    {
        self.failed
    }

    /// Takes the bytes of one raw read from the connection and returns the
    /// frames they complete, in order. `Ok(None)` when the read returned no
    /// bytes (the stream is closed); `FrameTooLarge` when a frame exceeds the
    /// maximum size, after which every read fails the same way.
    pub fn read_request(&mut self, raw: &[u8]) -> (r: Result<Option<Vec<Vec<u8>>>>)
        requires
            decoder_wf(old(self)@),
        ensures
            final(self)@ == feed(old(self)@, raw@).0,
            outcome_of(r) == feed(old(self)@, raw@).1,
            r is Err ==> r->Err_0.kind == ErrorKind::FrameTooLarge && r->Err_0.context@
                == "reading from socket"@ && r->Err_0.description@
                == "request body exceeded max request size"@,
            decoder_wf(final(self)@),
    {
        if self.failed {
            return Err(Error::frame_too_large());
        }
        if raw.len() == 0 {
            return Ok(None);
        }
        let ghost start = self.pending@;
        let mut current: Vec<u8> = Vec::new();
        std::mem::swap(&mut current, &mut self.pending);
        let mut frames: Vec<Vec<u8>> = Vec::new();
        let mut i: usize = 0;
        proof {
            assert(raw@.skip(0) =~= raw@);
            let s = split_frames(start, raw@);
            assert(frames_view(frames@) + s.0 =~= s.0);
        }
        while i < raw.len()
            invariant
                i <= raw@.len(),
                old(self)@.partial == start,
                !old(self)@.failed,
                !self.failed,
                self.pending@ == Seq::<u8>::empty(),
                current@.len() <= MAX_REQUEST_SIZE,
                free_of_sentinel(current@),
                forall|k: int|
                    0 <= k < frames@.len() ==> #[trigger] frames@[k]@.len() <= MAX_REQUEST_SIZE,
                ({
                    let s = split_frames(current@, raw@.skip(i as int));
                    split_frames(start, raw@) == (frames_view(frames@) + s.0, s.1)
                }),
            decreases raw@.len() - i,
        {
            let b = raw[i];
            let ghost rest = raw@.skip(i as int);
            assert(rest.drop_first() =~= raw@.skip(i + 1));
            if b == END_OF_REQUEST_SEPARATOR {
                let ghost done = current@;
                let ghost before = frames_view(frames@);
                frames.push(current);
                current = Vec::new();
                proof {
                    assert(frames_view(frames@) =~= before.push(done));
                    let s = split_frames(Seq::empty(), raw@.skip(i + 1));
                    assert(before + (seq![done] + s.0) =~= before.push(done) + s.0);
                }
            } else {
                if current.len() >= MAX_REQUEST_SIZE {
                    proof {
                        let p = current@.push(b);
                        lemma_split_extends_partial(p, raw@.skip(i + 1));
                        let s = split_frames(start, raw@);
                        let t = split_frames(p, raw@.skip(i + 1));
                        assert(split_frames(current@, rest) == t);
                        assert(s.0 == frames_view(frames@) + t.0);
                        if t.0.len() > 0 {
                            assert(s.0[frames@.len() as int] == t.0[0]);
                            assert(s.0[frames@.len() as int].len() > MAX_REQUEST_SIZE);
                        } else {
                            assert(s.1.len() > MAX_REQUEST_SIZE);
                        }
                        assert(!within_limit(s.0, s.1));
                    }
                    self.failed = true;
                    return Err(Error::frame_too_large());
                }
                let ghost old_current = current@;
                current.push(b);
                proof {
                    assert forall|j: int| 0 <= j < current@.len() implies current@[j]
                        != END_OF_REQUEST_SEPARATOR by {
                        if j < old_current.len() {
                            assert(current@[j] == old_current[j]);
                        }
                    }
                }
            }
            i = i + 1;
        }
        proof {
            assert(raw@.skip(i as int) =~= Seq::<u8>::empty());
            let s = split_frames(start, raw@);
            assert(s.0 =~= frames_view(frames@));
            assert forall|k: int| 0 <= k < s.0.len() implies #[trigger] s.0[k].len()
                <= MAX_REQUEST_SIZE by {
                assert(s.0[k] == frames@[k]@);
            }
        }
        self.pending = current;
        Ok(Some(frames))
    }
}

} // verus!
