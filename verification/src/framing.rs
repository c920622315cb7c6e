//! The framing layer: how a byte stream is cut into messages.
//!
//! On the wire every encoded message is preceded by its length, four bytes
//! in network byte order. A reader collects the bytes that the transport
//! hands over, in whatever pieces they come, and takes frames from the front
//! of what it has collected as soon as they are complete.

use vstd::prelude::*;
use vstd::slice::{slice_subrange, slice_to_vec};
use crate::error::{MsgrError, ProtocolViolation};

verus! {

/// The width of the length prefix, in bytes.
pub const PREFIX_LEN: usize = 4;

/// The largest payload that a reader accepts unless told otherwise: 1 MiB.
pub const DEFAULT_MAX_FRAME_LEN: u32 = 0x10_0000;

/// The number that four bytes stand for, most significant byte first.
pub open spec fn be32(s: Seq<u8>) -> nat
    recommends
        s.len() >= 4,
{
    (s[0] as nat) * 0x100_0000 + (s[1] as nat) * 0x1_0000 + (s[2] as nat) * 0x100 + (s[3] as nat)
}

/// The four bytes that stand for `n`, most significant byte first.
pub open spec fn be32_bytes(n: nat) -> Seq<u8>
    recommends
        n <= u32::MAX,
{
    seq![
        (n / 0x100_0000) as u8,
        (n / 0x1_0000 % 0x100) as u8,
        (n / 0x100 % 0x100) as u8,
        (n % 0x100) as u8,
    ]
}

/// One frame: the length of the payload, then the payload.
pub open spec fn frame_bytes(payload: Seq<u8>) -> Seq<u8> {
    be32_bytes(payload.len()) + payload
}

/// What stands at the front of the collected bytes.
pub enum Front {
    /// Less than a whole frame: more bytes are needed.
    Incomplete,
    /// A length prefix that declares more than the maximum.
    Oversize,
    /// A whole frame with this payload.
    Frame(Seq<u8>),
}

/// Looks at the front of `s` for a frame of at most `max` payload bytes.
pub open spec fn front(s: Seq<u8>, max: nat) -> Front {
    if s.len() < PREFIX_LEN {
        Front::Incomplete
    } else if be32(s) > max {
        Front::Oversize
    } else if s.len() < PREFIX_LEN + be32(s) {
        Front::Incomplete
    } else {
        Front::Frame(s.subrange(PREFIX_LEN as int, PREFIX_LEN + be32(s)))
    }
}

/// The outcome of taking every whole frame from collected bytes.
pub struct Split {
    /// The payloads of the frames, in the order they came.
    pub frames: Seq<Seq<u8>>,
    /// The bytes that are left: the beginning of a frame that is not
    /// complete yet, or, after an oversize prefix, everything from that
    /// prefix on.
    pub rest: Seq<u8>,
    /// Whether an oversize prefix stopped the taking.
    pub oversize: bool,
}

/// Takes frames from the front of `s` until what is left is no whole frame.
pub open spec fn split_frames(s: Seq<u8>, max: nat) -> Split
    decreases s.len(),
{
    match front(s, max) {
        Front::Incomplete => Split { frames: Seq::empty(), rest: s, oversize: false },
        Front::Oversize => Split { frames: Seq::empty(), rest: s, oversize: true },
        Front::Frame(payload) => {
            let tail = split_frames(s.skip(PREFIX_LEN + payload.len()), max);
            Split { frames: seq![payload] + tail.frames, rest: tail.rest, oversize: tail.oversize }
        },
    }
}

/// The four bytes of a length are read back as that length.
pub proof fn lemma_be32_round_trip(n: nat)
    requires
        n <= u32::MAX,
    ensures
        be32(be32_bytes(n)) == n,
        be32_bytes(n).len() == PREFIX_LEN,
{
}

/// The payloads held by a vector of frames.
pub open spec fn payloads(frames: Seq<Vec<u8>>) -> Seq<Seq<u8>> {
    frames.map_values(|f: Vec<u8>| f@)
}

/// Puts the length prefix before `payload`.
///
/// Fails, with `MessageSerializationError`, exactly when the payload is
/// longer than `max_frame_len`.
pub fn encode_frame(payload: &[u8], max_frame_len: u32) -> (r: Result<Vec<u8>, MsgrError>)
    ensures
        match r {
            Ok(bytes) => payload@.len() <= max_frame_len && bytes@ == frame_bytes(payload@),
            Err(e) => payload@.len() > max_frame_len && e == MsgrError::MessageSerializationError,
        },
{
    if payload.len() as u64 > max_frame_len as u64 {
        return Err(MsgrError::MessageSerializationError);
    }
    let n: u32 = payload.len() as u32;
    let mut bytes: Vec<u8> = Vec::with_capacity(PREFIX_LEN);
    bytes.push((n / 0x100_0000) as u8);
    bytes.push((n / 0x1_0000 % 0x100) as u8);
    bytes.push((n / 0x100 % 0x100) as u8);
    bytes.push((n % 0x100) as u8);
    assert(bytes@ =~= be32_bytes(n as nat));
    bytes.extend_from_slice(payload);
    assert(bytes@ =~= frame_bytes(payload@));
    Ok(bytes)
}

/// The bytes collected from a stream and not yet resolved into frames.
pub struct FrameBuffer {
    buf: Vec<u8>,
    max_frame_len: u32,
}

impl FrameBuffer {
    /// The bytes that were collected and not yet taken as frames.
    pub closed spec fn pending(&self) -> Seq<u8> {
        self.buf@
    }

    /// The largest payload that this reader accepts.
    pub closed spec fn limit(&self) -> nat {
        self.max_frame_len as nat
    }

    /// An empty buffer that accepts payloads of up to `max_frame_len` bytes.
    pub fn new(max_frame_len: u32) -> (fb: FrameBuffer)
        ensures
            fb.pending() == Seq::<u8>::empty(),
            fb.limit() == max_frame_len,
    {
        FrameBuffer { buf: Vec::new(), max_frame_len }
    }

    /// The largest payload that this reader accepts.
    pub fn max_frame_len(&self) -> (max: u32)
        ensures
            max == self.limit(),
    {
        self.max_frame_len
    }

    /// The number of bytes that are held.
    pub fn pending_len(&self) -> (len: usize)
        ensures
            len == self.pending().len(),
    {
        self.buf.len()
    }

    /// Whether no byte is held: the stream stands at a frame boundary.
    pub fn is_empty(&self) -> (b: bool)
        ensures
            b == (self.pending().len() == 0),
    {
        self.buf.len() == 0
    }

    /// Adds the bytes of one read to the end of what is held.
    pub fn push(&mut self, chunk: &[u8])
        ensures
            final(self).pending() == old(self).pending() + chunk@,
            final(self).limit() == old(self).limit(),
    {
        self.buf.extend_from_slice(chunk);
        assert(self.buf@ =~= old(self).buf@ + chunk@);
    }

    /// Takes the frame at the front, if a whole one is there.
    ///
    /// Gives `Ok(None)` while more bytes are needed, and fails with an
    /// oversize violation when the prefix at the front declares more than
    /// the maximum; in both cases what is held stays as it is.
    pub fn next_frame(&mut self) -> (r: Result<Option<Vec<u8>>, MsgrError>)
        ensures
            final(self).limit() == old(self).limit(),
            match front(old(self).pending(), old(self).limit()) {
                Front::Incomplete => {
                    &&& r matches Ok(None)
                    &&& final(self).pending() == old(self).pending()
                },
                Front::Oversize => {
                    &&& r == Err::<Option<Vec<u8>>, MsgrError>(
                        MsgrError::ProtocolError(ProtocolViolation::Oversize),
                    )
                    &&& final(self).pending() == old(self).pending()
                },
                Front::Frame(payload) => {
                    &&& r matches Ok(Some(frame)) && frame@ == payload
                    &&& final(self).pending() == old(self).pending().skip(
                        PREFIX_LEN + payload.len(),
                    )
                },
            },
    {
        if self.buf.len() < PREFIX_LEN {
            return Ok(None);
        }
        let declared: u32 = (self.buf[0] as u32) * 0x100_0000
            + (self.buf[1] as u32) * 0x1_0000
            + (self.buf[2] as u32) * 0x100
            + (self.buf[3] as u32);
        if declared > self.max_frame_len {
            return Err(MsgrError::ProtocolError(ProtocolViolation::Oversize));
        }
        let end: u64 = PREFIX_LEN as u64 + declared as u64;
        if (self.buf.len() as u64) < end {
            return Ok(None);
        }
        let end: usize = end as usize;
        let frame = slice_to_vec(slice_subrange(self.buf.as_slice(), PREFIX_LEN, end));
        let tail = self.buf.split_off(end);
        self.buf = tail;
        assert(self.buf@ =~= old(self).buf@.skip(end as int));
        Ok(Some(frame))
    }

    /// Takes every whole frame from the front, in order.
    ///
    /// The second part of the result is the oversize violation where a
    /// prefix declared more than the maximum: the frames before it are still
    /// handed out, and everything from that prefix on stays held.
    pub fn drain(&mut self) -> (r: (Vec<Vec<u8>>, Option<MsgrError>))
        ensures
            final(self).limit() == old(self).limit(),
            payloads(r.0@) == split_frames(old(self).pending(), old(self).limit()).frames,
            final(self).pending() == split_frames(old(self).pending(), old(self).limit()).rest,
            match r.1 {
                Some(e) => split_frames(old(self).pending(), old(self).limit()).oversize && e
                    == MsgrError::ProtocolError(ProtocolViolation::Oversize),
                None => !split_frames(old(self).pending(), old(self).limit()).oversize,
            },
    {
        let mut frames: Vec<Vec<u8>> = Vec::new();
        let ghost whole = split_frames(self.pending(), self.limit());
        assert(payloads(frames@) =~= Seq::<Seq<u8>>::empty());
        loop
            invariant
                self.limit() == old(self).limit(),
                whole == split_frames(old(self).pending(), old(self).limit()),
                whole.frames == payloads(frames@) + split_frames(
                    self.pending(),
                    self.limit(),
                ).frames,
                whole.rest == split_frames(self.pending(), self.limit()).rest,
                whole.oversize == split_frames(self.pending(), self.limit()).oversize,
            decreases self.pending().len(),
        {
            let ghost before = frames@;
            match self.next_frame() {
                Ok(Some(frame)) => {
                    frames.push(frame);
                    assert(payloads(frames@) =~= payloads(before) + seq![frame@]);
                },
                Ok(None) => {
                    assert(payloads(frames@) + Seq::<Seq<u8>>::empty() =~= payloads(frames@));
                    return (frames, None);
                },
                Err(e) => {
                    assert(payloads(frames@) + Seq::<Seq<u8>>::empty() =~= payloads(frames@));
                    return (frames, Some(e));
                },
            }
        }
    }

    /// Judges the end of the stream: a clean end at a frame boundary, or a
    /// truncation violation while part of a frame is still held.
    pub fn finish(&self) -> (r: Result<(), MsgrError>)
        ensures
            match r {
                Ok(_) => self.pending().len() == 0,
                Err(e) => self.pending().len() > 0 && e == MsgrError::ProtocolError(
                    ProtocolViolation::Truncated,
                ),
            },
    {
        if self.buf.len() == 0 {
            Ok(())
        } else {
            Err(MsgrError::ProtocolError(ProtocolViolation::Truncated))
        }
    }
}

} // verus!
