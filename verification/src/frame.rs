//! The wire format: a four-byte big-endian length followed by that many payload bytes.
//!
//! `encode_frame` writes one frame, `FrameDecoder` cuts a byte stream that arrives in
//! arbitrary pieces back into payloads. Both are stated against `frame_of` and `scan`,
//! and the laws at the end of the file relate the two.
use vstd::prelude::*;

verus! {

/// Number of bytes in the length prefix.
pub const HEADER_LEN: usize = 4;

/// The largest payload a decoder accepts unless told otherwise: 8 MiB.
pub const DEFAULT_MAX_FRAME_LEN: usize = 8_388_608;

/// Why a frame could not be written or read.
#[derive(Clone, Copy, Debug, PartialEq, Eq, Structural)]
pub enum FrameError {
    /// The payload, or the length a prefix declares, is over the configured maximum
    /// or does not fit the four-byte prefix.
    TooLong,
    /// The stream ended inside a length prefix or inside a payload.
    Truncated,
}

/// The four bytes of `n`, most significant first.
pub open spec fn be32(n: nat) -> Seq<u8> {
    seq![
        ((n / 0x100_0000) % 0x100) as u8,
        ((n / 0x1_0000) % 0x100) as u8,
        ((n / 0x100) % 0x100) as u8,
        (n % 0x100) as u8,
    ]
}

/// The number that the first four bytes of `s` spell, most significant first.
pub open spec fn be32_value(s: Seq<u8>) -> nat
    recommends
        s.len() >= 4,
{
    (s[0] as nat) * 0x100_0000 + (s[1] as nat) * 0x1_0000 + (s[2] as nat) * 0x100 + (s[3] as nat)
}

/// One frame on the wire: the length of `payload`, then `payload`.
pub open spec fn frame_of(payload: Seq<u8>) -> Seq<u8> {
    be32(payload.len()) + payload
}

/// Whether a payload of `len` bytes may be framed under the limit `max`.
pub open spec fn fits(len: nat, max: nat) -> bool {
    len <= max && len <= u32::MAX
}

/// What the front of a buffer holds.
pub enum Scan {
    /// Fewer bytes than the prefix, or than the prefix and the payload it declares.
    Incomplete,
    /// The prefix declares more than the limit.
    TooLong,
    /// A whole frame, and the bytes behind it.
    Frame { payload: Seq<u8>, rest: Seq<u8> },
}

/// Reads the front of `buf` under the limit `max`.
pub open spec fn scan(buf: Seq<u8>, max: nat) -> Scan {
    if buf.len() < 4 {
        Scan::Incomplete
    } else if be32_value(buf) > max {
        Scan::TooLong
    } else if buf.len() < 4 + be32_value(buf) {
        Scan::Incomplete
    } else {
        Scan::Frame {
            payload: buf.subrange(4, 4 + be32_value(buf) as int),
            rest: buf.subrange(4 + be32_value(buf) as int, buf.len() as int),
        }
    }
}

/// Everything a buffer yields when frames are taken from its front until none is left.
pub struct Drained {
    /// The payloads, in the order they were taken.
    pub frames: Seq<Seq<u8>>,
    /// The bytes left in the buffer.
    pub rest: Seq<u8>,
    /// Whether taking stopped at a prefix over the limit.
    pub failed: bool,
}

/// Takes frames from the front of `buf` until the front is incomplete or over the limit.
pub open spec fn drain(buf: Seq<u8>, max: nat) -> Drained
    decreases buf.len(),
{
    match scan(buf, max) {
        Scan::Incomplete => Drained { frames: Seq::empty(), rest: buf, failed: false },
        Scan::TooLong => Drained { frames: Seq::empty(), rest: buf, failed: true },
        Scan::Frame { payload, rest } => {
            let tail = drain(rest, max);
            Drained { frames: seq![payload] + tail.frames, rest: tail.rest, failed: tail.failed }
        },
    }
}

/// The byte strings that a list of payloads holds.
pub open spec fn payloads(frames: Seq<Vec<u8>>) -> Seq<Seq<u8>> {
    Seq::new(frames.len(), |i: int| frames[i]@)
}

/// A decoder in state `before` receives `chunk` and is drained again.
pub open spec fn feed(before: Drained, chunk: Seq<u8>, max: nat) -> Drained {
    if before.failed {
        Drained { frames: before.frames, rest: before.rest + chunk, failed: true }
    } else {
        let next = drain(before.rest + chunk, max);
        Drained { frames: before.frames + next.frames, rest: next.rest, failed: next.failed }
    }
}

/// A fresh decoder receives `chunks` one after the other and is drained after each.
pub open spec fn feed_all(chunks: Seq<Seq<u8>>, max: nat) -> Drained
    decreases chunks.len(),
{
    if chunks.len() == 0 {
        Drained { frames: Seq::empty(), rest: Seq::empty(), failed: false }
    } else {
        feed(feed_all(chunks.drop_last(), max), chunks.last(), max)
    }
}

/// The chunks laid end to end.
pub open spec fn joined(chunks: Seq<Seq<u8>>) -> Seq<u8>
    decreases chunks.len(),
{
    if chunks.len() == 0 {
        Seq::empty()
    } else {
        joined(chunks.drop_last()) + chunks.last()
    }
}

/// The frames of `payloads` on the wire, one after the other.
pub open spec fn stream_of(payloads: Seq<Seq<u8>>) -> Seq<u8>
    decreases payloads.len(),
{
    if payloads.len() == 0 {
        Seq::empty()
    } else {
        frame_of(payloads.first()) + stream_of(payloads.drop_first())
    }
}

/// A stream cut into chunks of one byte each.
pub open spec fn bytewise(stream: Seq<u8>) -> Seq<Seq<u8>> {
    Seq::new(stream.len(), |i: int| seq![stream[i]])
}

/// Writes `n` as four bytes, most significant first.
fn put_be32(out: &mut Vec<u8>, n: u32)
    ensures
        final(out)@ == old(out)@ + be32(n as nat),
{
    out.push(((n / 0x100_0000) % 0x100) as u8);
    out.push(((n / 0x1_0000) % 0x100) as u8);
    out.push(((n / 0x100) % 0x100) as u8);
    out.push((n % 0x100) as u8);
    assert(out@ =~= old(out)@ + be32(n as nat));
}

/// Reads the four bytes at the front of `buf` as a number, most significant first.
fn get_be32(buf: &Vec<u8>) -> (n: u32)
    requires
        buf.len() >= 4,
    ensures
        n == be32_value(buf@),
{
    let b0: u32 = buf[0] as u32;
    let b1: u32 = buf[1] as u32;
    let b2: u32 = buf[2] as u32;
    let b3: u32 = buf[3] as u32;
    b0 * 0x100_0000 + b1 * 0x1_0000 + b2 * 0x100 + b3
}

/// Frames `payload` for the wire.
///
/// Fails with `TooLong`, and only then, when the payload is longer than `max_len` or
/// than a four-byte prefix can say.
pub fn encode_frame(payload: &[u8], max_len: usize) -> (r: Result<Vec<u8>, FrameError>)
    ensures
        match r {
            Ok(bytes) => fits(payload@.len(), max_len as nat) && bytes@ == frame_of(payload@),
            Err(e) => !fits(payload@.len(), max_len as nat) && e == FrameError::TooLong,
        },
{
    let len: usize = payload.len();
    if len > max_len || len > 0xffff_ffff {
        return Err(FrameError::TooLong);
    }
    let mut out: Vec<u8> = Vec::new();
    put_be32(&mut out, len as u32);
    out.extend_from_slice(payload);
    assert(out@ =~= frame_of(payload@));
    Ok(out)
}

/// Cuts a byte stream into payloads, whatever the pieces it arrives in.
pub struct FrameDecoder {
    buf: Vec<u8>,
    max_len: usize,
}

impl FrameDecoder {
    /// The bytes received and not yet handed out.
    pub closed spec fn pending(&self) -> Seq<u8> {
        self.buf@
    }

    /// The largest payload this decoder accepts.
    pub closed spec fn limit(&self) -> nat {
        self.max_len as nat
    }

    /// A decoder with nothing pending that accepts payloads of up to `max_len` bytes.
    pub fn new(max_len: usize) -> (d: FrameDecoder)
        ensures
            d.pending() == Seq::<u8>::empty(),
            d.limit() == max_len,
    {
        FrameDecoder { buf: Vec::new(), max_len }
    }

    /// The largest payload this decoder accepts.
    pub fn max_frame_len(&self) -> (n: usize)
        ensures
            n == self.limit(),
    {
        self.max_len
    }

    /// Appends `bytes` to what is pending.
    pub fn feed(&mut self, bytes: &[u8])
        ensures
            final(self).pending() == old(self).pending() + bytes@,
            final(self).limit() == old(self).limit(),
    {
        self.buf.extend_from_slice(bytes);
        assert(self.buf@ =~= old(self).buf@ + bytes@);
    }

    /// Takes the frame at the front of what is pending, if a whole one is there.
    ///
    /// `Ok(None)` asks for more bytes. A prefix over the limit is `TooLong`, at once and on
    /// every later call: the pending bytes stay as they are.
    pub fn next_frame(&mut self) -> (r: Result<Option<Vec<u8>>, FrameError>)
        ensures
            final(self).limit() == old(self).limit(),
            match scan(old(self).pending(), old(self).limit()) {
                Scan::Incomplete => r == Ok::<Option<Vec<u8>>, FrameError>(None)
                    && final(self).pending() == old(self).pending(),
                Scan::TooLong => r == Err::<Option<Vec<u8>>, FrameError>(FrameError::TooLong)
                    && final(self).pending() == old(self).pending(),
                Scan::Frame { payload, rest } => r matches Ok(Some(p)) && p@ == payload
                    && final(self).pending() == rest,
            },
    {
        if self.buf.len() < HEADER_LEN {
            return Ok(None);
        }
        let declared: usize = get_be32(&self.buf) as usize;
        if declared > self.max_len {
            return Err(FrameError::TooLong);
        }
        if self.buf.len() - HEADER_LEN < declared {
            return Ok(None);
        }
        let rest: Vec<u8> = self.buf.split_off(HEADER_LEN + declared);
        let payload: Vec<u8> = self.buf.split_off(HEADER_LEN);
        self.buf = rest;
        assert(payload@ =~= old(self).buf@.subrange(4, 4 + declared));
        Ok(Some(payload))
    }

    /// Takes every whole frame from the front of what is pending, in order, and says
    /// whether taking stopped at a prefix over the limit.
    pub fn drain(&mut self) -> (r: (Vec<Vec<u8>>, Result<(), FrameError>))
        ensures
            final(self).limit() == old(self).limit(),
            final(self).pending() == drain(old(self).pending(), old(self).limit()).rest,
            payloads(r.0@) == drain(old(self).pending(), old(self).limit()).frames,
            r.1 == (if drain(old(self).pending(), old(self).limit()).failed {
                Err::<(), FrameError>(FrameError::TooLong)
            } else {
                Ok::<(), FrameError>(())
            }),
    {
        let mut frames: Vec<Vec<u8>> = Vec::new();
        let ghost whole = drain(self.pending(), self.limit());
        loop
            invariant
                self.limit() == old(self).limit(),
                whole == drain(old(self).pending(), old(self).limit()),
                whole.frames == payloads(frames@) + drain(self.pending(), self.limit()).frames,
                whole.rest == drain(self.pending(), self.limit()).rest,
                whole.failed == drain(self.pending(), self.limit()).failed,
            decreases self.pending().len(),
        {
            let ghost taken = payloads(frames@);
            match self.next_frame() {
                Ok(Some(payload)) => {
                    frames.push(payload);
                    proof {
                        let tail = drain(self.pending(), self.limit());
                        assert(payloads(frames@) =~= taken.push(payload@));
                        assert(taken.push(payload@) + tail.frames =~= taken + (seq![payload@]
                            + tail.frames));
                    }
                },
                Ok(None) => {
                    assert(payloads(frames@) + Seq::<Seq<u8>>::empty() =~= payloads(frames@));
                    return (frames, Ok(()));
                },
                Err(e) => {
                    assert(payloads(frames@) + Seq::<Seq<u8>>::empty() =~= payloads(frames@));
                    return (frames, Err(e));
                },
            }
        }
    }

    /// Whether the stream may end here: nothing is pending.
    pub fn at_boundary(&self) -> (b: bool)
        ensures
            b == (self.pending().len() == 0),
    {
        self.buf.len() == 0
    }

    /// Judges the end of the stream once `next_frame` has nothing more to give: clean at
    /// a frame boundary, `Truncated` inside a frame.
    pub fn end_of_stream(&self) -> (r: Result<(), FrameError>)
        ensures
            self.pending().len() == 0 ==> r == Ok::<(), FrameError>(()),
            self.pending().len() != 0 ==> r == Err::<(), FrameError>(FrameError::Truncated),
    {
        if self.buf.len() == 0 {
            Ok(())
        } else {
            Err(FrameError::Truncated)
        }
    }
}

/// Reading back what `be32` wrote gives the number again.
pub proof fn lemma_be32_value(n: nat)
    requires
        n <= u32::MAX,
    ensures
        be32(n).len() == 4,
        be32_value(be32(n)) == n,
{
}

/// A frame followed by anything scans as that frame's payload and what follows.
pub proof fn lemma_scan_frame(payload: Seq<u8>, rest: Seq<u8>, max: nat)
    requires
        fits(payload.len(), max),
    ensures
        scan(frame_of(payload) + rest, max) == (Scan::Frame { payload, rest }),
{
    let buf = frame_of(payload) + rest;
    lemma_be32_value(payload.len());
    assert(buf[0] == be32(payload.len())[0]);
    assert(buf[1] == be32(payload.len())[1]);
    assert(buf[2] == be32(payload.len())[2]);
    assert(buf[3] == be32(payload.len())[3]);
    assert(be32_value(buf) == payload.len());
    assert(buf.subrange(4, 4 + payload.len() as int) =~= payload);
    assert(buf.subrange(4 + payload.len() as int, buf.len() as int) =~= rest);
}

/// Encoding a payload and decoding the result yields exactly that payload, with nothing
/// left over; this holds of the empty payload too.
pub proof fn lemma_round_trip(payload: Seq<u8>, max: nat)
    requires
        fits(payload.len(), max),
    ensures
        scan(frame_of(payload), max) == (Scan::Frame { payload, rest: Seq::empty() }),
        drain(frame_of(payload), max) == (Drained {
            frames: seq![payload],
            rest: Seq::empty(),
            failed: false,
        }),
{
    lemma_scan_frame(payload, Seq::empty(), max);
    assert(frame_of(payload) + Seq::<u8>::empty() =~= frame_of(payload));
    let tail = drain(Seq::<u8>::empty(), max);
    assert(tail.frames =~= Seq::<Seq<u8>>::empty());
    assert(seq![payload] + tail.frames =~= seq![payload]);
}

/// Frames written one after the other are read back as the same payloads in the same
/// order, with nothing left over.
pub proof fn lemma_stream_round_trip(payloads: Seq<Seq<u8>>, max: nat)
    requires
        forall|i: int| 0 <= i < payloads.len() ==> fits(#[trigger] payloads[i].len(), max),
    ensures
        drain(stream_of(payloads), max) == (Drained {
            frames: payloads,
            rest: Seq::empty(),
            failed: false,
        }),
    decreases payloads.len(),
{
    if payloads.len() == 0 {
        assert(drain(stream_of(payloads), max).frames =~= payloads);
    } else {
        let tail = payloads.drop_first();
        assert forall|i: int| 0 <= i < tail.len() implies fits(#[trigger] tail[i].len(), max) by {
            assert(tail[i] == payloads[i + 1]);
        }
        lemma_stream_round_trip(tail, max);
        lemma_scan_frame(payloads.first(), stream_of(tail), max);
        assert(seq![payloads.first()] + tail =~= payloads);
    }
}

/// Bytes that arrive behind a buffer do not change what its front holds, except that an
/// incomplete front may become complete.
pub proof fn lemma_scan_extend(buf: Seq<u8>, more: Seq<u8>, max: nat)
    ensures
        scan(buf, max) is TooLong ==> scan(buf + more, max) is TooLong,
        scan(buf, max) matches Scan::Frame { payload, rest } ==> scan(buf + more, max) == (
        Scan::Frame { payload, rest: rest + more }),
{
    let all = buf + more;
    if buf.len() >= 4 {
        assert(all[0] == buf[0] && all[1] == buf[1] && all[2] == buf[2] && all[3] == buf[3]);
        assert(be32_value(all) == be32_value(buf));
        if let Scan::Frame { payload, rest } = scan(buf, max) {
            let n = be32_value(buf) as int;
            assert(all.subrange(4, 4 + n) =~= payload);
            assert(all.subrange(4 + n, all.len() as int) =~= rest + more);
        }
    }
}

/// Draining a buffer, then draining what is left together with later bytes, yields what
/// draining everything at once yields.
pub proof fn lemma_drain_split(buf: Seq<u8>, more: Seq<u8>, max: nat)
    ensures
        drain(buf + more, max) == feed(drain(buf, max), more, max),
    decreases buf.len(),
{
    lemma_scan_extend(buf, more, max);
    match scan(buf, max) {
        Scan::Incomplete => {
            let next = drain(buf + more, max);
            assert(Seq::<Seq<u8>>::empty() + next.frames =~= next.frames);
        },
        Scan::TooLong => {},
        Scan::Frame { payload, rest } => {
            lemma_drain_split(rest, more, max);
            let first = drain(rest, max);
            if !first.failed {
                let next = drain(first.rest + more, max);
                assert(seq![payload] + (first.frames + next.frames) =~= (seq![payload]
                    + first.frames) + next.frames);
            }
        },
    }
}

/// However a stream is cut into chunks, a decoder that is drained after each chunk ends
/// with the frames, the leftover and the verdict of one that got the stream whole.
pub proof fn lemma_chunking(chunks: Seq<Seq<u8>>, max: nat)
    ensures
        feed_all(chunks, max) == drain(joined(chunks), max),
    decreases chunks.len(),
{
    if chunks.len() == 0 {
    } else {
        lemma_chunking(chunks.drop_last(), max);
        lemma_drain_split(joined(chunks.drop_last()), chunks.last(), max);
    }
}

/// The one-byte chunks of a stream, laid end to end, are the stream.
pub proof fn lemma_joined_bytewise(stream: Seq<u8>)
    ensures
        joined(bytewise(stream)) == stream,
    decreases stream.len(),
{
    if stream.len() == 0 {
        assert(joined(bytewise(stream)) =~= stream);
    } else {
        lemma_joined_bytewise(stream.drop_last());
        assert(bytewise(stream).drop_last() =~= bytewise(stream.drop_last()));
        assert(bytewise(stream).last() =~= seq![stream.last()]);
        assert(stream.drop_last() + seq![stream.last()] =~= stream);
    }
}

/// Feeding a stream one byte at a time yields the same payloads, leftover and verdict as
/// feeding it all at once.
pub proof fn lemma_byte_at_a_time(stream: Seq<u8>, max: nat)
    ensures
        feed_all(bytewise(stream), max) == drain(stream, max),
{
    lemma_chunking(bytewise(stream), max);
    lemma_joined_bytewise(stream);
}

} // verus!
