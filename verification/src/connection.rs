//! One connection: the read side, which turns the bytes of each read into
//! messages, and the write side, which turns a message into a frame.
//!
//! The two sides share nothing. The read side owns the buffer of collected
//! bytes and the lifecycle state; the write side is a set of functions from
//! a message to bytes.

use vstd::prelude::*;
use crate::codec::{carrying, encodable, message_bytes, message_parse};
use crate::error::{MsgrError, ProtocolViolation};
use crate::framing::{encode_frame, frame_bytes, payloads, split_frames, FrameBuffer};
use crate::lifecycle::{next_state, step, ConnectionState, Event};
use crate::message::{spec_reply_contents, Message, MessageView};

verus! {

/// What one frame turned out to hold.
#[derive(Clone, Debug, PartialEq, Eq)]
pub enum Delivery {
    /// The frame decoded to this message.
    Message(Message),
    /// The frame was whole but its payload is no encoding of a message. The
    /// frames after it are not affected.
    Undecodable,
}

impl View for Delivery {
    type V = Option<MessageView>;

    open spec fn view(&self) -> Option<MessageView> {
        match self {
            Delivery::Message(m) => Some(m@),
            Delivery::Undecodable => None,
        }
    }
}

/// What the owner of the read half does after a read.
#[derive(Clone, Copy, Debug, PartialEq, Eq, Structural)]
pub enum Verdict {
    /// Read again.
    Continue,
    /// The peer closed the stream at a frame boundary: stop.
    PeerClosed,
    /// The connection failed with this error: report it and stop.
    Failed(MsgrError),
    /// The connection was not open: nothing was read.
    NotOpen,
}

/// The outcome of one read.
pub struct Reception {
    /// The frames that became whole with this read, in order.
    pub deliveries: Vec<Delivery>,
    /// What to do next.
    pub verdict: Verdict,
}

/// What each of `frames` decodes to.
pub open spec fn parsed(frames: Seq<Seq<u8>>) -> Seq<Option<MessageView>> {
    frames.map_values(|f: Seq<u8>| message_parse(f))
}

/// The views of `deliveries`.
pub open spec fn delivered(deliveries: Seq<Delivery>) -> Seq<Option<MessageView>> {
    deliveries.map_values(|d: Delivery| d@)
}

/// Decodes one frame.
pub fn deliver(frame: &[u8]) -> (d: Delivery)
    ensures
        d@ == message_parse(frame@),
{
    match Message::decode(frame) {
        Ok(m) => Delivery::Message(m),
        Err(_) => Delivery::Undecodable,
    }
}

/// Decodes each of `frames`.
pub fn deliver_all(frames: &Vec<Vec<u8>>) -> (deliveries: Vec<Delivery>)
    ensures
        delivered(deliveries@) == parsed(payloads(frames@)),
{
    let mut deliveries: Vec<Delivery> = Vec::new();
    let mut i: usize = 0;
    while i < frames.len()
        invariant
            i <= frames@.len(),
            deliveries@.len() == i,
            forall|j: int| 0 <= j < i ==> (#[trigger] deliveries@[j])@ == message_parse(frames@[j]@),
        decreases frames@.len() - i,
    {
        let d = deliver(frames[i].as_slice());
        deliveries.push(d);
        i = i + 1;
    }
    assert(delivered(deliveries@) =~= parsed(payloads(frames@)));
    deliveries
}

/// The read side of a connection.
pub struct Connection {
    state: ConnectionState,
    inbound: FrameBuffer,
}

impl Connection {
    /// Where the connection stands in its life.
    pub closed spec fn spec_state(&self) -> ConnectionState {
        self.state
    }

    /// The bytes that were read and not yet resolved into frames.
    pub closed spec fn pending(&self) -> Seq<u8> {
        self.inbound.pending()
    }

    /// The largest payload that the connection accepts.
    pub closed spec fn limit(&self) -> nat {
        self.inbound.limit()
    }

    /// A connection that is being established and accepts payloads of up to
    /// `max_frame_len` bytes.
    pub fn new(max_frame_len: u32) -> (c: Connection)
        ensures
            c.spec_state() == ConnectionState::Connecting,
            c.pending() == Seq::<u8>::empty(),
            c.limit() == max_frame_len,
    {
        Connection { state: ConnectionState::Connecting, inbound: FrameBuffer::new(max_frame_len) }
    }

    /// Where the connection stands in its life.
    pub fn state(&self) -> (s: ConnectionState)
        ensures
            s == self.spec_state(),
    {
        self.state
    }

    /// The number of bytes that are held for a frame that is not whole yet.
    pub fn pending_len(&self) -> (len: usize)
        ensures
            len == self.pending().len(),
    {
        self.inbound.pending_len()
    }

    /// The largest payload that the connection accepts.
    pub fn max_frame_len(&self) -> (max: u32)
        ensures
            max == self.limit(),
    {
        self.inbound.max_frame_len()
    }

    /// Records that the handshake, or the accept, succeeded.
    pub fn established(&mut self)
        ensures
            final(self).spec_state() == next_state(old(self).spec_state(), Event::Established),
            final(self).pending() == old(self).pending(),
            final(self).limit() == old(self).limit(),
    {
        self.state = step(self.state, Event::Established);
    }

    /// Records that connecting, reading or writing failed.
    pub fn fail(&mut self)
        ensures
            final(self).spec_state() == next_state(old(self).spec_state(), Event::Failure),
            final(self).pending() == old(self).pending(),
            final(self).limit() == old(self).limit(),
    {
        self.state = step(self.state, Event::Failure);
    }

    /// Records that the owner released the halves after a failure.
    pub fn release(&mut self)
        ensures
            final(self).spec_state() == next_state(old(self).spec_state(), Event::Released),
            final(self).pending() == old(self).pending(),
            final(self).limit() == old(self).limit(),
    {
        self.state = step(self.state, Event::Released);
    }

    /// Takes in the bytes of one read; an empty `chunk` is the end of the
    /// stream.
    ///
    /// On a connection that is not open nothing happens. At the end of the
    /// stream the connection closes if it stands at a frame boundary, and
    /// fails with a truncation violation if part of a frame is held. Else
    /// the bytes are added to what is held and every frame that is now whole
    /// is decoded and handed out; a prefix that declares more than the
    /// maximum fails the connection with an oversize violation, after the
    /// frames before it have been handed out.
    pub fn receive(&mut self, chunk: &[u8]) -> (r: Reception)
        ensures
            final(self).limit() == old(self).limit(),
            final(self).spec_state() == spec_receive_state(
                old(self).spec_state(),
                old(self).pending(),
                chunk@,
                old(self).limit(),
            ),
            final(self).pending() == spec_receive_pending(
                old(self).spec_state(),
                old(self).pending(),
                chunk@,
                old(self).limit(),
            ),
            delivered(r.deliveries@) == spec_receive_deliveries(
                old(self).spec_state(),
                old(self).pending(),
                chunk@,
                old(self).limit(),
            ),
            r.verdict == spec_receive_verdict(
                old(self).spec_state(),
                old(self).pending(),
                chunk@,
                old(self).limit(),
            ),
    {
        if !self.state.is_open() {
            let deliveries: Vec<Delivery> = Vec::new();
            assert(delivered(deliveries@) =~= Seq::<Option<MessageView>>::empty());
            return Reception { deliveries, verdict: Verdict::NotOpen };
        }
        if chunk.len() == 0 {
            let deliveries: Vec<Delivery> = Vec::new();
            assert(delivered(deliveries@) =~= Seq::<Option<MessageView>>::empty());
            let closing = step(self.state, Event::EndOfStream);
            match self.inbound.finish() {
                Ok(_) => {
                    self.state = step(closing, Event::BoundaryChecked { partial: false });
                    return Reception { deliveries, verdict: Verdict::PeerClosed };
                },
                Err(e) => {
                    self.state = step(closing, Event::BoundaryChecked { partial: true });
                    return Reception { deliveries, verdict: Verdict::Failed(e) };
                },
            }
        }
        self.inbound.push(chunk);
        let (frames, violation) = self.inbound.drain();
        let deliveries = deliver_all(&frames);
        match violation {
            Some(e) => {
                self.state = step(self.state, Event::Failure);
                Reception { deliveries, verdict: Verdict::Failed(e) }
            },
            None => Reception { deliveries, verdict: Verdict::Continue },
        }
    }
}

/// The state of a connection after a read of `chunk`.
pub open spec fn spec_receive_state(
    state: ConnectionState,
    pending: Seq<u8>,
    chunk: Seq<u8>,
    max: nat,
) -> ConnectionState {
    if state != ConnectionState::Open {
        state
    } else if chunk.len() == 0 {
        next_state(
            next_state(state, Event::EndOfStream),
            Event::BoundaryChecked { partial: pending.len() > 0 },
        )
    } else if split_frames(pending + chunk, max).oversize {
        next_state(state, Event::Failure)
    } else {
        state
    }
}

/// The bytes that a connection holds after a read of `chunk`.
pub open spec fn spec_receive_pending(
    state: ConnectionState,
    pending: Seq<u8>,
    chunk: Seq<u8>,
    max: nat,
) -> Seq<u8> {
    if state != ConnectionState::Open || chunk.len() == 0 {
        pending
    } else {
        split_frames(pending + chunk, max).rest
    }
}

/// What a connection hands out after a read of `chunk`.
pub open spec fn spec_receive_deliveries(
    state: ConnectionState,
    pending: Seq<u8>,
    chunk: Seq<u8>,
    max: nat,
) -> Seq<Option<MessageView>> {
    if state != ConnectionState::Open || chunk.len() == 0 {
        Seq::empty()
    } else {
        parsed(split_frames(pending + chunk, max).frames)
    }
}

/// What the owner of the read half does after a read of `chunk`.
pub open spec fn spec_receive_verdict(
    state: ConnectionState,
    pending: Seq<u8>,
    chunk: Seq<u8>,
    max: nat,
) -> Verdict {
    if state != ConnectionState::Open {
        Verdict::NotOpen
    } else if chunk.len() == 0 {
        if pending.len() > 0 {
            Verdict::Failed(MsgrError::ProtocolError(ProtocolViolation::Truncated))
        } else {
            Verdict::PeerClosed
        }
    } else if split_frames(pending + chunk, max).oversize {
        Verdict::Failed(MsgrError::ProtocolError(ProtocolViolation::Oversize))
    } else {
        Verdict::Continue
    }
}

/// Whether `m` can be sent in one frame of at most `max` payload bytes.
pub open spec fn sendable(m: MessageView, max: nat) -> bool {
    encodable(m) && message_bytes(m).len() <= max
}

/// Encodes `message` and puts the length prefix before it.
///
/// Fails, with `MessageSerializationError`, exactly when the message cannot
/// be encoded or its encoding is longer than `max_frame_len`.
pub fn frame_message(message: &Message, max_frame_len: u32) -> (r: Result<Vec<u8>, MsgrError>)
    ensures
        match r {
            Ok(bytes) => sendable(message@, max_frame_len as nat) && bytes@ == frame_bytes(
                message_bytes(message@),
            ),
            Err(e) => !sendable(message@, max_frame_len as nat) && e
                == MsgrError::MessageSerializationError,
        },
{
    let payload = message.encode()?;
    encode_frame(payload.as_slice(), max_frame_len)
}

/// The frame that carries `contents` in a message with both identifiers
/// unset.
///
/// Fails, with `MessageSerializationError`, exactly when that message
/// cannot be sent in one frame.
pub fn frame_contents(contents: String, max_frame_len: u32) -> (r: Result<Vec<u8>, MsgrError>)
    ensures
        match r {
            Ok(bytes) => sendable(carrying(contents@), max_frame_len as nat) && bytes@
                == frame_bytes(message_bytes(carrying(contents@))),
            Err(e) => !sendable(carrying(contents@), max_frame_len as nat) && e
                == MsgrError::MessageSerializationError,
        },
{
    let message = Message::with_contents(contents);
    frame_message(&message, max_frame_len)
}

/// The frame that answers `received`: its contents sent back in a new
/// message, or the empty string where it had no content.
pub fn echo_frame(received: &Message, max_frame_len: u32) -> (r: Result<Vec<u8>, MsgrError>)
    ensures
        match r {
            Ok(bytes) => sendable(
                carrying(spec_reply_contents(received@)),
                max_frame_len as nat,
            ) && bytes@ == frame_bytes(message_bytes(carrying(spec_reply_contents(received@)))),
            Err(e) => !sendable(carrying(spec_reply_contents(received@)), max_frame_len as nat)
                && e == MsgrError::MessageSerializationError,
        },
{
    frame_contents(received.reply_contents(), max_frame_len)
}

} // verus!
