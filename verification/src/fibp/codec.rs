//! FIBP frame codec.
//!
//! Wire format (each frame):
//! ```text
//! [4 bytes big-endian length] [flags:u8 | op:u8 | corr_id:u32 | payload...]
//! ```
//!
//! The 4-byte length prefix covers everything *after* itself: header + payload.

use vstd::prelude::*;
use crate::encoding::{append_bytes, be32, be_bytes, be_value, lemma_be_bytes_len, lemma_be_value_of_bytes, lemma_pow256_small, push_be, read_be};
use crate::fibp::error::FibpError;
use crate::text::str_bytes;

verus! {

/// Bytes in the frame header that follows the length prefix.
pub const FRAME_HEADER_LEN: usize = 6;

/// Enqueue one or more messages.
pub const OP_ENQUEUE: u8 = 0x01;
/// Open a consume stream.
pub const OP_CONSUME: u8 = 0x02;
/// Acknowledge a delivered message.
pub const OP_ACK: u8 = 0x03;
/// Negative-acknowledge a delivered message.
pub const OP_NACK: u8 = 0x04;
/// Create a queue.
pub const OP_CREATE_QUEUE: u8 = 0x10;
/// Delete a queue.
pub const OP_DELETE_QUEUE: u8 = 0x11;
/// Get queue statistics.
pub const OP_QUEUE_STATS: u8 = 0x12;
/// List queues.
pub const OP_LIST_QUEUES: u8 = 0x13;
/// Pause a queue.
pub const OP_PAUSE_QUEUE: u8 = 0x14;
/// Resume a paused queue.
pub const OP_RESUME_QUEUE: u8 = 0x15;
/// Redrive messages from a dead-letter queue.
pub const OP_REDRIVE: u8 = 0x16;
/// Flow-control window update.
pub const OP_FLOW: u8 = 0x20;
/// Keepalive heartbeat (ping/pong).
pub const OP_HEARTBEAT: u8 = 0x21;
/// Authentication frame.
pub const OP_AUTH: u8 = 0x30;
/// Error response.
pub const OP_ERROR: u8 = 0xFE;
/// Graceful shutdown notification.
pub const OP_GOAWAY: u8 = 0xFF;
/// Bit 2: marks a frame as a server-push (stream) frame.
pub const FLAG_STREAM: u8 = 0x04;

/// A decoded FIBP frame.
#[derive(Debug, Clone, PartialEq, Eq)]
pub struct Frame {
    pub flags: u8,
    pub op: u8,
    pub correlation_id: u32,
    pub payload: Vec<u8>,
}

/// The content of a frame.
pub struct FrameView {
    pub flags: u8,
    pub op: u8,
    pub correlation_id: u32,
    pub payload: Seq<u8>,
}

impl View for Frame {
    type V = FrameView;

    open spec fn view(&self) -> FrameView {
        FrameView { flags: self.flags, op: self.op, correlation_id: self.correlation_id, payload: self.payload@ }
    }
}

impl Frame {
    /// Create a new frame with the given fields.
    pub fn new(flags: u8, op: u8, correlation_id: u32, payload: Vec<u8>) -> (r: Self)
        ensures
            r == (Frame { flags, op, correlation_id, payload }),
    {
        Self { flags, op, correlation_id, payload }
    }

    /// Convenience: build an error response frame for a given correlation id.
    pub fn error(correlation_id: u32, message: &str) -> (r: Self)
        ensures
            r@ == (FrameView { flags: 0, op: OP_ERROR, correlation_id, payload: str_bytes(message) }),
    {
        Self { flags: 0, op: OP_ERROR, correlation_id, payload: crate::text::str_to_vec(message) }
    }

    /// Convenience: build a GoAway frame.
    pub fn goaway(message: &str) -> (r: Self)
        ensures
            r@ == (FrameView { flags: 0, op: OP_GOAWAY, correlation_id: 0, payload: str_bytes(message) }),
    {
        Self { flags: 0, op: OP_GOAWAY, correlation_id: 0, payload: crate::text::str_to_vec(message) }
    }
}

/// The bytes of a frame on the wire.
pub open spec fn spec_encode_frame(f: FrameView) -> Seq<u8> {
    be32((6 + f.payload.len()) as u32) + seq![f.flags, f.op] + be32(f.correlation_id) + f.payload
}

/// What decoding the front of a buffer yields.
pub enum DecodeOutcome {
    /// More bytes are needed.
    Incomplete,
    TooLarge(u32),
    TooShort(u32),
    /// A frame and the number of bytes it took.
    Decoded(FrameView, int),
}

/// Decode the frame at the front of `src`, given the codec's size limit.
pub open spec fn spec_decode_frame(src: Seq<u8>, max: u32) -> DecodeOutcome {
    if src.len() < 4 {
        DecodeOutcome::Incomplete
    } else {
        let len = be_value(src.subrange(0, 4)) as int;
        if len > max {
            DecodeOutcome::TooLarge(len as u32)
        } else if len < 6 {
            DecodeOutcome::TooShort(len as u32)
        } else if src.len() < 4 + len {
            DecodeOutcome::Incomplete
        } else {
            DecodeOutcome::Decoded(
                FrameView {
                    flags: src[4],
                    op: src[5],
                    correlation_id: be_value(src.subrange(6, 10)) as u32,
                    payload: src.subrange(10, 4 + len),
                },
                4 + len,
            )
        }
    }
}

/// Length-delimited FIBP frame codec.
#[derive(Debug)]
pub struct FibpCodec {
    max_frame_size: u32,
}

impl FibpCodec {
    /// The configured maximum frame size.
    pub closed spec fn limit(&self) -> u32 {
        self.max_frame_size
    }

    pub fn new(max_frame_size: u32) -> (r: Self)
        ensures
            r.limit() == max_frame_size,
    {
        Self { max_frame_size }
    }

    /// Return the configured maximum frame size.
    pub fn max_frame_size(&self) -> (r: u32)
        ensures
            r == self.limit(),
    {
        self.max_frame_size
    }

    /// Decode the frame at the front of `src`. `Ok(None)` means more bytes
    /// are needed; otherwise the frame comes with the number of bytes it
    /// took from `src`.
    pub fn decode(&mut self, src: &[u8]) -> (r: Result<Option<(Frame, usize)>, FibpError>)
        ensures
            final(self).limit() == old(self).limit(),
            match spec_decode_frame(src@, old(self).limit()) {
                DecodeOutcome::Incomplete => r matches Ok(None),
                DecodeOutcome::TooLarge(size) => r matches Err(FibpError::FrameTooLarge { size: s, limit: l }) && s == size && l == old(self).limit(),
                DecodeOutcome::TooShort(size) => r matches Err(FibpError::FrameTooShort { size: s, minimum: m }) && s == size && m == 6,
                DecodeOutcome::Decoded(f, n) => r matches Ok(Some((frame, used))) && frame@ == f && used == n,
            },
    {
        if src.len() < 4 {
            return Ok(None);
        }
        let frame_len = read_be(src, 0, 4);
        proof {
            lemma_pow256_small();
            crate::encoding::lemma_be_value_bound(src@.subrange(0, 4));
        }
        if frame_len > self.max_frame_size as u64 {
            return Err(FibpError::FrameTooLarge { size: frame_len as u32, limit: self.max_frame_size });
        }
        if frame_len < FRAME_HEADER_LEN as u64 {
            return Err(FibpError::FrameTooShort { size: frame_len as u32, minimum: FRAME_HEADER_LEN as u32 });
        }
        let frame_len = frame_len as usize;
        if src.len() - 4 < frame_len {
            return Ok(None);
        }
        let flags = src[4];
        let op = src[5];
        let correlation_id = read_be(src, 6, 4) as u32;
        let payload = crate::text::copy_range(src, 10, 4 + frame_len);
        Ok(Some((Frame { flags, op, correlation_id, payload }, 4 + frame_len)))
    }

    /// Append the encoding of `frame` to `dst`; frames over the size limit
    /// are refused and leave `dst` unchanged.
    pub fn encode(&mut self, frame: Frame, dst: &mut Vec<u8>) -> (r: Result<(), FibpError>)
        requires
            frame.payload@.len() + 6 <= usize::MAX,
        ensures
            final(self).limit() == old(self).limit(),
            6 + frame.payload@.len() > old(self).limit() ==> (r matches Err(FibpError::FrameTooLarge { size: s, limit: l })
                && s == (6 + frame.payload@.len()) as u32 && l == old(self).limit() && final(dst)@ == old(dst)@),
            6 + frame.payload@.len() <= old(self).limit() ==> (r is Ok && final(dst)@ == old(dst)@ + spec_encode_frame(frame@)),
    {
        let body_len = FRAME_HEADER_LEN + frame.payload.len();
        if body_len > self.max_frame_size as usize {
            return Err(FibpError::FrameTooLarge { size: body_len as u32, limit: self.max_frame_size });
        }
        push_be(dst, body_len as u64, 4);
        dst.push(frame.flags);
        dst.push(frame.op);
        push_be(dst, frame.correlation_id as u64, 4);
        append_bytes(dst, frame.payload.as_slice());
        proof {
            assert(dst@ == old(dst)@ + spec_encode_frame(frame@));
        }
        Ok(())
    }
}

/// Decoding the encoding of a frame within the size limit gives the frame
/// back and consumes exactly its bytes, whatever follows it in the buffer.
pub proof fn law_frame_roundtrip(f: FrameView, max: u32, rest: Seq<u8>)
    requires
        6 + f.payload.len() <= max,
    ensures
        spec_decode_frame(spec_encode_frame(f) + rest, max) == DecodeOutcome::Decoded(
            f,
            spec_encode_frame(f).len() as int,
        ),
{
    let e = spec_encode_frame(f);
    let src = e + rest;
    let len = (6 + f.payload.len()) as nat;
    lemma_pow256_small();
    lemma_be_bytes_len(len, 4);
    lemma_be_bytes_len(f.correlation_id as nat, 4);
    lemma_be_value_of_bytes(len, 4);
    lemma_be_value_of_bytes(f.correlation_id as nat, 4);
    assert(src.subrange(0, 4) == be32(len as u32));
    assert(src.subrange(6, 10) == be32(f.correlation_id));
    assert(src.subrange(10, 4 + len as int) == f.payload);
    assert(e.len() == 4 + len);
}

/// The bytes of several frames written one after another.
pub open spec fn spec_encode_frames(fs: Seq<FrameView>) -> Seq<u8>
    decreases fs.len(),
{
    if fs.len() == 0 {
        Seq::empty()
    } else {
        spec_encode_frame(fs[0]) + spec_encode_frames(fs.drop_first())
    }
}

/// Decode `n` frames one after another from the front of `src`: the frames
/// and what is left of the buffer, or `None` when one of them does not
/// decode.
pub open spec fn spec_decode_frames(src: Seq<u8>, max: u32, n: nat) -> Option<(Seq<FrameView>, Seq<u8>)>
    decreases n,
{
    if n == 0 {
        Some((Seq::empty(), src))
    } else {
        match spec_decode_frame(src, max) {
            DecodeOutcome::Decoded(f, used) => match spec_decode_frames(src.subrange(used, src.len() as int), max, (n - 1) as nat) {
                Some((rest, left)) => Some((seq![f] + rest, left)),
                None => None,
            },
            _ => None,
        }
    }
}

/// A stream of frames within the size limit decodes back to those frames,
/// in order, using up the buffer; after them the codec asks for more bytes.
pub proof fn law_frame_stream_roundtrip(fs: Seq<FrameView>, max: u32)
    requires
        forall|i: int| 0 <= i < fs.len() ==> 6 + (#[trigger] fs[i]).payload.len() <= max,
    ensures
        spec_decode_frames(spec_encode_frames(fs), max, fs.len()) == Some((fs, Seq::<u8>::empty())),
        spec_decode_frame(Seq::<u8>::empty(), max) == DecodeOutcome::Incomplete,
    decreases fs.len(),
{
    if fs.len() > 0 {
        let f = fs[0];
        let tail = fs.drop_first();
        let rest = spec_encode_frames(tail);
        assert(6 + fs[0].payload.len() <= max);
        law_frame_roundtrip(f, max, rest);
        assert forall|i: int| 0 <= i < tail.len() implies 6 + (#[trigger] tail[i]).payload.len() <= max by {
            assert(tail[i] == fs[i + 1]);
        }
        law_frame_stream_roundtrip(tail, max);
        let src = spec_encode_frames(fs);
        assert(src == spec_encode_frame(f) + rest);
        assert(src.subrange(spec_encode_frame(f).len() as int, src.len() as int) =~= rest);
        assert(seq![f] + tail =~= fs);
    }
}

/// A buffer cut off inside a frame decodes to "need more bytes".
pub proof fn law_partial_frame_incomplete(f: FrameView, max: u32, cut: int)
    requires
        6 + f.payload.len() <= max,
        0 <= cut < spec_encode_frame(f).len(),
    ensures
        spec_decode_frame(spec_encode_frame(f).subrange(0, cut), max) == DecodeOutcome::Incomplete,
{
    let e = spec_encode_frame(f);
    let len = (6 + f.payload.len()) as nat;
    lemma_pow256_small();
    lemma_be_bytes_len(len, 4);
    lemma_be_bytes_len(f.correlation_id as nat, 4);
    lemma_be_value_of_bytes(len, 4);
    if cut >= 4 {
        assert(e.subrange(0, cut).subrange(0, 4) == be32(len as u32));
    }
}

} // verus!
