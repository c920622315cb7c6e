//! A small message transport: a wire codec for `Message`, a length-delimited
//! framing layer over a byte stream, and the lifecycle of one connection.

pub mod codec;
pub mod connection;
pub mod error;
pub mod framing;
pub mod framing_laws;
pub mod lifecycle;
pub mod message;
pub mod roundtrip;
pub mod varint;
pub mod wire;

pub use codec::{deserialize_message, serialize_message};
pub use connection::{
    echo_frame, frame_contents, frame_message, Connection, Delivery, Reception, Verdict,
};
pub use error::{MsgrError, ProtocolViolation};
pub use framing::{encode_frame, FrameBuffer, DEFAULT_MAX_FRAME_LEN, PREFIX_LEN};
pub use lifecycle::{
    acceptor_action, is_permitted, step, AcceptorAction, AcceptorEvent, ConnectionState, Event,
};
pub use message::{Message, MessageContent, MessageView};
