//! Length-prefixed framing: a 4-byte big-endian length, then that many
//! payload bytes.

use vstd::prelude::*;
use crate::bignum::{be_value, lemma_be_value_push};

verus! {

/// Largest payload a frame may declare: a 320 x 320 RGBA image (409600
/// bytes) plus 8192 bytes of overhead.
pub const MAX_PACKET_LENGTH: usize = 417792;

/// Bytes of the length prefix.
pub const LENGTH_FIELD_LENGTH: usize = 4;

/// What the accumulated bytes hold at the front.
pub enum FrameStep {
    /// Not enough bytes for the length prefix or for the payload it declares.
    NeedMore,
    /// The declared length is negative or above the maximum.
    Invalid,
    /// A whole frame's payload, and the bytes after it.
    Frame(Seq<u8>, Seq<u8>),
}

/// The first four bytes of `buf` read as a big-endian signed 32-bit integer.
pub open spec fn declared_length(buf: Seq<u8>) -> int {
    let v = be_value(buf.take(4)) as int;
    if v >= 0x8000_0000 {
        v - 0x1_0000_0000
    } else {
        v
    }
}

/// The framing rule applied to the front of the accumulated bytes.
pub open spec fn frame_step(buf: Seq<u8>, max: nat) -> FrameStep {
    if buf.len() < 4 {
        FrameStep::NeedMore
    } else {
        let len = declared_length(buf);
        if len < 0 || len > max {
            FrameStep::Invalid
        } else if buf.len() < 4 + len {
            FrameStep::NeedMore
        } else {
            FrameStep::Frame(buf.subrange(4, 4 + len), buf.skip(4 + len))
        }
    }
}

/// One call of `decode`: the bytes kept buffered and the frame yielded, if
/// any, for buffered bytes `buf` and new bytes `input`.
pub open spec fn decode_step(buf: Seq<u8>, input: Seq<u8>, max: nat) -> (Seq<u8>, Option<Seq<u8>>) {
    match frame_step(buf + input, max) {
        FrameStep::Frame(f, rest) => (rest, Some(f)),
        _ => (buf + input, None),
    }
}

/// Calls of `decode` with one byte of `data` each, from buffered bytes
/// `buf`, up to the first call that yields a frame or refuses the length:
/// the bytes kept and the frame yielded.
pub open spec fn feed_singly(buf: Seq<u8>, data: Seq<u8>, max: nat) -> (Seq<u8>, Option<Seq<u8>>)
    decreases data.len(),
{
    if data.len() == 0 {
        (buf, None)
    } else {
        let next = decode_step(buf, seq![data[0]], max);
        if next.1 is Some || frame_step(buf + seq![data[0]], max) == FrameStep::Invalid {
            next
        } else {
            feed_singly(next.0, data.drop_first(), max)
        }
    }
}

/// Framing was refused: the declared length is out of range.
#[derive(Clone, Copy, Debug, PartialEq, Eq, Structural)]
pub enum FrameError {
    LengthOutOfRange,
}

/// Buffers bytes across reads and cuts them into frames.
pub struct GameByteFrameDecoder {
    max_packet_length: usize,
    cumulation: Vec<u8>,
}

impl GameByteFrameDecoder {
    pub closed spec fn max_len(&self) -> nat {
        self.max_packet_length as nat
    }

    /// Bytes received and not yet cut into a frame.
    pub closed spec fn buffered(&self) -> Seq<u8> {
        self.cumulation@
    }

    /// The largest declared length fits a signed 32-bit prefix.
    pub closed spec fn wf(&self) -> bool {
        self.max_packet_length < 0x8000_0000
    }

    pub fn new() -> (r: Self)
        ensures
            r.wf(),
            r.max_len() == MAX_PACKET_LENGTH,
            r.buffered() == Seq::<u8>::empty(),
    {
        GameByteFrameDecoder { max_packet_length: MAX_PACKET_LENGTH, cumulation: Vec::new() }
    }

    /// A decoder with another ceiling on the declared length.
    pub fn with_max_packet_length(max_packet_length: usize) -> (r: Self)
        requires
            max_packet_length < 0x8000_0000,
        ensures
            r.wf(),
            r.max_len() == max_packet_length,
            r.buffered() == Seq::<u8>::empty(),
    {
        GameByteFrameDecoder { max_packet_length, cumulation: Vec::new() }
    }

    /// Drops the buffered bytes.
    pub fn clear(&mut self)
        ensures
            final(self).buffered() == Seq::<u8>::empty(),
            final(self).max_len() == old(self).max_len(),
            final(self).wf() == old(self).wf(),
    {
        self.cumulation = Vec::new();
    }

    pub fn max_packet_length(&self) -> (r: usize)
        ensures
            r == self.max_len(),
    {
        self.max_packet_length
    }

    /// Appends `src` to the buffer, then cuts one frame from its front if a
    /// whole one is there. A declared length out of `[0, max]` is an error;
    /// the buffer then keeps what it holds.
    pub fn decode(&mut self, src: &[u8]) -> (r: Result<Option<Vec<u8>>, FrameError>)
        requires
            old(self).wf(),
        ensures
            final(self).wf(),
            final(self).max_len() == old(self).max_len(),
            (
                final(self).buffered(),
                match r {
                    Ok(Some(v)) => Some(v@),
                    _ => None,
                },
            ) == decode_step(old(self).buffered(), src@, old(self).max_len()),
            match frame_step(old(self).buffered() + src@, old(self).max_len()) {
                FrameStep::NeedMore => r == Ok::<Option<Vec<u8>>, FrameError>(None)
                    && final(self).buffered() == old(self).buffered() + src@,
                FrameStep::Invalid => r == Err::<Option<Vec<u8>>, FrameError>(
                    FrameError::LengthOutOfRange,
                ) && final(self).buffered() == old(self).buffered() + src@,
                FrameStep::Frame(f, rest) => r is Ok && r->Ok_0 is Some && r->Ok_0->0@ == f
                    && final(self).buffered() == rest,
            },
    {
        self.cumulation.extend_from_slice(src);
        proof {
            assert(self.cumulation@ =~= old(self).cumulation@ + src@);
        }
        if self.cumulation.len() < LENGTH_FIELD_LENGTH {
            return Ok(None);
        }
        let frame_length = Self::get_frame_length(self.cumulation.as_slice());
        if frame_length < 0 || frame_length > self.max_packet_length as i64 {
            return Err(FrameError::LengthOutOfRange);
        }
        self.extract_frame(frame_length as usize)
    }

    /// Cuts the frame of `frame_length` payload bytes from the buffer's front
    /// when the buffer holds all of it.
    fn extract_frame(&mut self, frame_length: usize) -> (r: Result<Option<Vec<u8>>, FrameError>)
        requires
            old(self).cumulation@.len() >= 4,
            frame_length <= old(self).max_packet_length,
            old(self).wf(),
        ensures
            final(self).max_packet_length == old(self).max_packet_length,
            old(self).cumulation@.len() < 4 + frame_length ==> r == Ok::<
                Option<Vec<u8>>,
                FrameError,
            >(None) && final(self).cumulation@ == old(self).cumulation@,
            old(self).cumulation@.len() >= 4 + frame_length ==> r is Ok && r->Ok_0 is Some
                && r->Ok_0->0@ == old(self).cumulation@.subrange(4, 4 + frame_length)
                && final(self).cumulation@ == old(self).cumulation@.skip(4 + frame_length),
    {
        let total_length = LENGTH_FIELD_LENGTH + frame_length;
        if self.cumulation.len() < total_length {
            return Ok(None);
        }
        let rest = self.cumulation.split_off(total_length);
        let frame = self.cumulation.split_off(LENGTH_FIELD_LENGTH);
        self.cumulation = rest;
        proof {
            assert(frame@ =~= old(self).cumulation@.subrange(4, 4 + frame_length));
        }
        Ok(Some(frame))
    }

    /// The declared payload length at the front of `buffer`.
    fn get_frame_length(buffer: &[u8]) -> (r: i64)
        requires
            buffer@.len() >= 4,
        ensures
            r == declared_length(buffer@),
    {
        let v: i64 = buffer[0] as i64 * 0x100_0000 + buffer[1] as i64 * 0x1_0000
            + buffer[2] as i64 * 0x100 + buffer[3] as i64;
        proof {
            let t = buffer@.take(4);
            assert(t.take(3).push(t[3]) =~= t);
            assert(t.take(2).push(t[2]) =~= t.take(3));
            assert(t.take(1).push(t[1]) =~= t.take(2));
            assert(Seq::<u8>::empty().push(t[0]) =~= t.take(1));
            lemma_be_value_push(t.take(3), t[3]);
            lemma_be_value_push(t.take(2), t[2]);
            lemma_be_value_push(t.take(1), t[1]);
            lemma_be_value_push(Seq::<u8>::empty(), t[0]);
        }
        if v >= 0x8000_0000 {
            v - 0x1_0000_0000
        } else {
            v
        }
    }
}

/// Feeding bytes one at a time yields the same first frame as feeding them
/// all at once: every shorter prefix of a buffer that holds a whole frame
/// still needs more, and the prefix that ends with the frame yields it.
/// A declared length one above the maximum is refused whatever follows.
pub proof fn lemma_incremental_framing(data: Seq<u8>, max: nat)
    ensures
        (frame_step(data, max) matches FrameStep::Frame(f, rest) ==> {
            let total = (4 + declared_length(data)) as nat;
            &&& forall|k: nat| k < total ==> #[trigger] frame_step(data.take(k as int), max)
                == FrameStep::NeedMore
            &&& frame_step(data.take(total as int), max) == FrameStep::Frame(f, Seq::empty())
        }),
        data.len() >= 4 && declared_length(data) == max + 1 ==> frame_step(data, max)
            == FrameStep::Invalid,
{
    if let FrameStep::Frame(f, rest) = frame_step(data, max) {
        let total = (4 + declared_length(data)) as nat;
        assert forall|k: nat| k < total implies #[trigger] frame_step(data.take(k as int), max)
            == FrameStep::NeedMore by {
            if k >= 4 {
                assert(data.take(k as int).take(4) =~= data.take(4));
            }
        }
        assert(data.take(total as int).take(4) =~= data.take(4));
        assert(data.take(total as int).subrange(4, total as int) =~= f);
        assert(data.take(total as int).skip(total as int) =~= Seq::<u8>::empty());
    }
}

/// Byte-at-a-time feeding: a fresh decoder given the bytes of a whole frame
/// one per call yields, at the call with its last byte, the same frame as a
/// fresh decoder given all of them in one call, and nothing stays buffered.
pub proof fn lemma_feed_singly(data: Seq<u8>, max: nat)
    requires
        frame_step(data, max) is Frame,
    ensures
        ({
            let total = (4 + declared_length(data)) as nat;
            let whole = data.take(total as int);
            &&& feed_singly(Seq::empty(), whole, max) == (Seq::<u8>::empty(), Some(
                frame_step(data, max)->Frame_0,
            ))
            &&& decode_step(Seq::empty(), whole, max).1 == Some(frame_step(data, max)->Frame_0)
            &&& decode_step(Seq::empty(), data, max).1 == Some(frame_step(data, max)->Frame_0)
        }),
{
    lemma_incremental_framing(data, max);
    let total = (4 + declared_length(data)) as nat;
    let whole = data.take(total as int);
    lemma_feed_from(whole, data, max, 0);
    assert(Seq::<u8>::empty() + whole =~= whole);
    assert(Seq::<u8>::empty() + data =~= data);
    assert(whole.take(0) =~= Seq::<u8>::empty());
    assert(whole.skip(0) =~= whole);
}

proof fn lemma_feed_from(whole: Seq<u8>, data: Seq<u8>, max: nat, k: nat)
    requires
        frame_step(data, max) is Frame,
        whole == data.take(4 + declared_length(data)),
        k < whole.len(),
        forall|j: nat| j < whole.len() ==> #[trigger] frame_step(data.take(j as int), max)
            == FrameStep::NeedMore,
        frame_step(whole, max) == FrameStep::Frame(frame_step(data, max)->Frame_0, Seq::empty()),
    ensures
        feed_singly(whole.take(k as int), whole.skip(k as int), max) == (Seq::<u8>::empty(), Some(
            frame_step(data, max)->Frame_0,
        )),
    decreases whole.len() - k,
{
    let buf = whole.take(k as int);
    let rest = whole.skip(k as int);
    assert(rest[0] == whole[k as int]);
    assert(buf + seq![rest[0]] =~= whole.take(k + 1 as int));
    assert(whole.take(k + 1 as int) =~= data.take(k + 1 as int));
    if k + 1 < whole.len() {
        assert(frame_step(data.take((k + 1) as nat as int), max) == FrameStep::NeedMore);
        assert(rest.drop_first() =~= whole.skip(k + 1 as int));
        lemma_feed_from(whole, data, max, k + 1);
    } else {
        assert(whole.take(k + 1 as int) =~= whole);
    }
}

} // verus!
