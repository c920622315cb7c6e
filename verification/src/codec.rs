//! The message codec: how a `Message` is laid out in bytes and read back.
//!
//! A message is a run of fields, each a key followed by a value:
//!
//! | field | number | layout | holds |
//! |---|---|---|---|
//! | `sender` | 1 | integer | the identifier, left out when 0 |
//! | `recipient` | 2 | integer | the identifier, left out when 0 |
//! | `content` | 3 | length and bytes | a nested run of fields, left out when absent |
//!
//! and the nested content has one field, number 1, a length and the UTF-8
//! bytes of `contents`, left out when the string is empty. A reader takes
//! fields in any order, lets a later occurrence replace an earlier one and
//! steps over fields with other numbers.

use vstd::prelude::*;
use vstd::slice::{slice_subrange, slice_to_vec};
use vstd::string::StringSliceAdditionalSpecFns;
use vstd::utf8::{decode_utf8, encode_utf8, valid_utf8};
use crate::error::MsgrError;
use crate::message::{Message, MessageContent, MessageView};
use crate::roundtrip::lemma_message_round_trip;
use crate::varint::{
    lemma_varint_bytes_len, lemma_varint_limit_u64, lemma_varint_parse_bounds, varint_bytes,
    varint_parse, MAX_VARINT_LEN,
};
use crate::wire::{
    key_bytes, key_parse, put_key, put_varint, skip_value, string_from_utf8, take_key,
    take_varint, value_len, varint_len, WireKind,
};

verus! {

/// The field number of `sender`.
pub const SENDER_TAG: u32 = 1;

/// The field number of `recipient`.
pub const RECIPIENT_TAG: u32 = 2;

/// The field number of `content`.
pub const CONTENT_TAG: u32 = 3;

/// The field number of `contents` inside the content.
pub const CONTENTS_TAG: u32 = 1;

/// An integer field: nothing for 0, else key and value.
pub open spec fn integer_field_bytes(tag: u32, value: u64) -> Seq<u8> {
    if value == 0 {
        Seq::<u8>::empty()
    } else {
        key_bytes(tag, WireKind::Varint) + varint_bytes(value as nat)
    }
}

/// A field that holds bytes: key, length, bytes.
pub open spec fn bytes_field_bytes(tag: u32, payload: Seq<u8>) -> Seq<u8> {
    key_bytes(tag, WireKind::LengthDelimited) + varint_bytes(payload.len()) + payload
}

/// The encoding of a content: nothing for the empty string, else the one
/// field with the string's UTF-8 bytes.
pub open spec fn content_bytes(contents: Seq<char>) -> Seq<u8> {
    if contents.len() == 0 {
        Seq::<u8>::empty()
    } else {
        bytes_field_bytes(CONTENTS_TAG, encode_utf8(contents))
    }
}

/// The encoding of the optional content field of a message.
pub open spec fn content_field_bytes(content: Option<Seq<char>>) -> Seq<u8> {
    match content {
        Some(c) => bytes_field_bytes(CONTENT_TAG, content_bytes(c)),
        None => Seq::<u8>::empty(),
    }
}

/// The encoding of a message: its fields in the order of their numbers.
pub open spec fn message_bytes(m: MessageView) -> Seq<u8> {
    integer_field_bytes(SENDER_TAG, m.sender) + integer_field_bytes(RECIPIENT_TAG, m.recipient)
        + content_field_bytes(m.content)
}

/// Whether a message can be encoded: its encoding has to fit a buffer, which
/// holds at most `isize::MAX` bytes.
pub open spec fn encodable(m: MessageView) -> bool {
    message_bytes(m).len() <= isize::MAX
}

/// Reads a length and that many bytes from the front of `s`; gives the bytes
/// and the number of bytes taken in all.
pub open spec fn bytes_value_parse(s: Seq<u8>) -> Option<(Seq<u8>, nat)> {
    match varint_parse(s) {
        Some((len, n)) => if n + len <= s.len() {
            Some((s.subrange(n as int, (n + len) as int), n + len))
        } else {
            None
        },
        None => None,
    }
}

/// Reads one field of a content from the front of `s` into `acc`; gives the
/// content after it and the number of bytes taken.
pub open spec fn content_field_parse(s: Seq<u8>, acc: Seq<char>) -> Option<(Seq<char>, nat)> {
    match key_parse(s) {
        Some((tag, wire, k)) => {
            let body = s.skip(k as int);
            if tag == CONTENTS_TAG {
                if wire != WireKind::LengthDelimited {
                    None
                } else {
                    match bytes_value_parse(body) {
                        Some((raw, n)) => if valid_utf8(raw) {
                            Some((decode_utf8(raw), k + n))
                        } else {
                            None
                        },
                        None => None,
                    }
                }
            } else {
                match value_len(wire, tag, body) {
                    Some(n) => Some((acc, k + n)),
                    None => None,
                }
            }
        },
        None => None,
    }
}

/// Reads all of `s` as the fields of a content, starting from `acc`.
pub open spec fn content_parse(s: Seq<u8>, acc: Seq<char>) -> Option<Seq<char>>
    decreases s.len(),
{
    if s.len() == 0 {
        Some(acc)
    } else {
        match content_field_parse(s, acc) {
            Some((next, n)) => if 0 < n <= s.len() {
                content_parse(s.skip(n as int), next)
            } else {
                None
            },
            None => None,
        }
    }
}

/// Reads one field of a message from the front of `s` into `acc`; gives the
/// message after it and the number of bytes taken.
pub open spec fn message_field_parse(s: Seq<u8>, acc: MessageView) -> Option<(MessageView, nat)> {
    match key_parse(s) {
        Some((tag, wire, k)) => {
            let body = s.skip(k as int);
            if tag == SENDER_TAG || tag == RECIPIENT_TAG {
                if wire != WireKind::Varint {
                    None
                } else {
                    match varint_parse(body) {
                        Some((v, n)) => if tag == SENDER_TAG {
                            Some((MessageView { sender: v as u64, ..acc }, k + n))
                        } else {
                            Some((MessageView { recipient: v as u64, ..acc }, k + n))
                        },
                        None => None,
                    }
                }
            } else if tag == CONTENT_TAG {
                if wire != WireKind::LengthDelimited {
                    None
                } else {
                    match bytes_value_parse(body) {
                        Some((nested, n)) => {
                            let before = match acc.content {
                                Some(c) => c,
                                None => Seq::<char>::empty(),
                            };
                            match content_parse(nested, before) {
                                Some(c) => Some((MessageView { content: Some(c), ..acc }, k + n)),
                                None => None,
                            }
                        },
                        None => None,
                    }
                }
            } else {
                match value_len(wire, tag, body) {
                    Some(n) => Some((acc, k + n)),
                    None => None,
                }
            }
        },
        None => None,
    }
}

/// Reads all of `s` as the fields of a message, starting from `acc`.
pub open spec fn message_parse_from(s: Seq<u8>, acc: MessageView) -> Option<MessageView>
    decreases s.len(),
{
    if s.len() == 0 {
        Some(acc)
    } else {
        match message_field_parse(s, acc) {
            Some((next, n)) => if 0 < n <= s.len() {
                message_parse_from(s.skip(n as int), next)
            } else {
                None
            },
            None => None,
        }
    }
}

/// The message that `s` encodes, or `None` where `s` is no encoding of a
/// message.
pub open spec fn message_parse(s: Seq<u8>) -> Option<MessageView> {
    message_parse_from(s, MessageView::empty())
}

/// The key of a field whose number is below 16 is one byte.
pub proof fn lemma_small_key_len(tag: u32, wire: WireKind)
    requires
        tag < 16,
    ensures
        key_bytes(tag, wire).len() == 1,
{
}

/// Only the empty string has no UTF-8 bytes.
pub proof fn lemma_utf8_empty(chars: Seq<char>)
    ensures
        (encode_utf8(chars).len() == 0) == (chars.len() == 0),
{
}

/// The length of an integer field: at most 11 bytes.
fn integer_field_len(tag: u32, value: u64) -> (len: usize)
    requires
        tag < 16,
    ensures
        len == integer_field_bytes(tag, value).len(),
        len <= 1 + MAX_VARINT_LEN,
{
    if value == 0 {
        0
    } else {
        proof {
            lemma_small_key_len(tag, WireKind::Varint);
            lemma_varint_limit_u64();
            lemma_varint_bytes_len(value as nat, MAX_VARINT_LEN as nat);
        }
        1 + varint_len(value)
    }
}

/// The length of a field that holds `payload_len` bytes, or `None` where it
/// is more than a `usize`.
fn bytes_field_len(tag: u32, payload_len: usize) -> (len: Option<usize>)
    requires
        tag < 16,
    ensures
        match len {
            Some(n) => n == 1 + varint_bytes(payload_len as nat).len() + payload_len,
            None => 1 + varint_bytes(payload_len as nat).len() + payload_len > usize::MAX,
        },
        1 <= varint_bytes(payload_len as nat).len() <= MAX_VARINT_LEN,
{
    proof {
        lemma_varint_limit_u64();
        lemma_varint_bytes_len(payload_len as nat, MAX_VARINT_LEN as nat);
    }
    let head: usize = 1 + varint_len(payload_len as u64);
    head.checked_add(payload_len)
}

/// Appends an integer field to `buf`, which must have room for it.
fn put_integer_field(tag: u32, value: u64, buf: &mut Vec<u8>)
    requires
        1 <= tag < 16,
        old(buf)@.len() + integer_field_bytes(tag, value).len() <= isize::MAX,
    ensures
        final(buf)@ == old(buf)@ + integer_field_bytes(tag, value),
{
    if value != 0 {
        put_key(tag, WireKind::Varint, buf);
        put_varint(value, buf);
        assert(buf@ =~= old(buf)@ + integer_field_bytes(tag, value));
    } else {
        assert(buf@ =~= old(buf)@ + integer_field_bytes(tag, value));
    }
}

/// Appends the key and the length of a field that holds `payload_len` bytes
/// to `buf`, which must have room for them; the bytes themselves follow.
fn put_bytes_field_head(tag: u32, payload_len: usize, buf: &mut Vec<u8>)
    requires
        1 <= tag < 16,
        old(buf)@.len() + key_bytes(tag, WireKind::LengthDelimited).len() + varint_bytes(
            payload_len as nat,
        ).len() <= isize::MAX,
    ensures
        final(buf)@ == old(buf)@ + key_bytes(tag, WireKind::LengthDelimited) + varint_bytes(
            payload_len as nat,
        ),
{
    put_key(tag, WireKind::LengthDelimited, buf);
    put_varint(payload_len as u64, buf);
}

impl MessageContent {
    /// The number of bytes that the encoding of this content takes, or `None`
    /// where that is more than a `usize`.
    pub fn encoded_len(&self) -> (len: Option<usize>)
        ensures
            match len {
                Some(n) => n == content_bytes(self@).len(),
                None => content_bytes(self@).len() > usize::MAX,
            },
    {
        let raw_len = self.contents.as_str().as_bytes().len();
        proof {
            lemma_utf8_empty(self@);
            lemma_small_key_len(CONTENTS_TAG, WireKind::LengthDelimited);
        }
        if raw_len == 0 {
            Some(0)
        } else {
            bytes_field_len(CONTENTS_TAG, raw_len)
        }
    }
}

impl Message {
    /// The number of bytes that the encoding of this message takes, or
    /// `None` where that is more than a `usize`.
    pub fn encoded_len(&self) -> (len: Option<usize>)
        ensures
            match len {
                Some(n) => n == message_bytes(self@).len(),
                None => message_bytes(self@).len() > usize::MAX,
            },
    {
        let integers = integer_field_len(SENDER_TAG, self.sender) + integer_field_len(
            RECIPIENT_TAG,
            self.recipient,
        );
        match &self.content {
            Some(c) => {
                proof {
                    lemma_small_key_len(CONTENT_TAG, WireKind::LengthDelimited);
                }
                let nested = match c.encoded_len() {
                    Some(n) => n,
                    None => {
                        return None;
                    },
                };
                match bytes_field_len(CONTENT_TAG, nested) {
                    Some(n) => integers.checked_add(n),
                    None => None,
                }
            },
            None => Some(integers),
        }
    }

    /// Encodes the message. What comes out decodes to the same message.
    ///
    /// Fails, with `MessageSerializationError`, exactly when the encoding
    /// would be longer than a buffer can be.
    pub fn encode(&self) -> (r: Result<Vec<u8>, MsgrError>)
        ensures
            match r {
                Ok(bytes) => encodable(self@) && bytes@ == message_bytes(self@) && message_parse(
                    bytes@,
                ) == Some(self@),
                Err(e) => !encodable(self@) && e == MsgrError::MessageSerializationError,
            },
    {
        proof {
            if encodable(self@) {
                lemma_message_round_trip(self@);
            }
        }
        let total = match self.encoded_len() {
            Some(n) => n,
            None => {
                return Err(MsgrError::MessageSerializationError);
            },
        };
        if total > isize::MAX as usize {
            return Err(MsgrError::MessageSerializationError);
        }
        let mut buf: Vec<u8> = Vec::with_capacity(total);
        put_integer_field(SENDER_TAG, self.sender, &mut buf);
        put_integer_field(RECIPIENT_TAG, self.recipient, &mut buf);
        match &self.content {
            Some(c) => {
                let raw = c.contents.as_str().as_bytes();
                proof {
                    lemma_utf8_empty(c@);
                    lemma_small_key_len(CONTENT_TAG, WireKind::LengthDelimited);
                    lemma_small_key_len(CONTENTS_TAG, WireKind::LengthDelimited);
                    lemma_varint_limit_u64();
                    lemma_varint_bytes_len(raw@.len(), MAX_VARINT_LEN as nat);
                }
                let ghost before = buf@;
                if raw.len() == 0 {
                    put_bytes_field_head(CONTENT_TAG, 0, &mut buf);
                    assert(buf@ =~= before + content_field_bytes(self@.content));
                } else {
                    let nested: usize = 1 + varint_len(raw.len() as u64) + raw.len();
                    put_bytes_field_head(CONTENT_TAG, nested, &mut buf);
                    put_bytes_field_head(CONTENTS_TAG, raw.len(), &mut buf);
                    buf.extend_from_slice(raw);
                    assert(buf@ =~= before + content_field_bytes(self@.content));
                }
            },
            None => {
                assert(buf@ =~= buf@ + content_field_bytes(self@.content));
            },
        }
        Ok(buf)
    }
}

/// Reads a length and that many bytes from the front of `bytes`; gives the
/// place of those bytes in `bytes`, as the index of the first and the index
/// after the last.
fn take_bytes_value(bytes: &[u8]) -> (r: Result<(usize, usize), MsgrError>)
    ensures
        match r {
            Ok((start, end)) => start <= end <= bytes@.len() && bytes_value_parse(bytes@) == Some(
                (bytes@.subrange(start as int, end as int), end as nat),
            ),
            Err(e) => bytes_value_parse(bytes@) is None && e
                == MsgrError::MessageDeserializationError,
        },
{
    proof {
        lemma_varint_parse_bounds(bytes@, MAX_VARINT_LEN as nat);
    }
    match take_varint(bytes) {
        Ok((len, left)) => {
            if len > left as u64 {
                Err(MsgrError::MessageDeserializationError)
            } else {
                let start = bytes.len() - left;
                Ok((start, start + len as usize))
            }
        },
        Err(_) => Err(MsgrError::MessageDeserializationError),
    }
}

/// Steps over the value of a field that the schema does not know; gives the
/// number of bytes it took.
fn skip_unknown(wire: WireKind, tag: u32, bytes: &[u8]) -> (r: Result<usize, MsgrError>)
    ensures
        match r {
            Ok(n) => n <= bytes@.len() && value_len(wire, tag, bytes@) == Some(n as nat),
            Err(e) => value_len(wire, tag, bytes@) is None && e
                == MsgrError::MessageDeserializationError,
        },
{
    match skip_value(wire, tag, bytes) {
        Ok(left) => Ok(bytes.len() - left),
        Err(_) => Err(MsgrError::MessageDeserializationError),
    }
}

/// Reads one field of a content from the front of `bytes`; gives the
/// content after it, which is `acc` where the field is not `contents`, and
/// the number of bytes taken.
fn take_content_field(bytes: &[u8], acc: String) -> (r: Result<(String, usize), MsgrError>)
    ensures
        match r {
            Ok((next, n)) => 0 < n <= bytes@.len() && content_field_parse(bytes@, acc@) == Some(
                (next@, n as nat),
            ),
            Err(e) => e == MsgrError::MessageDeserializationError && (content_field_parse(
                bytes@,
                acc@,
            ) matches Some((_, n)) ==> !(0 < n <= bytes@.len())),
        },
{
    proof {
        lemma_varint_parse_bounds(bytes@, MAX_VARINT_LEN as nat);
    }
    let (tag, wire, left) = match take_key(bytes) {
        Ok(key) => key,
        Err(_) => {
            return Err(MsgrError::MessageDeserializationError);
        },
    };
    let k = bytes.len() - left;
    let body = slice_subrange(bytes, k, bytes.len());
    assert(body@ == bytes@.skip(k as int));
    if tag == CONTENTS_TAG {
        if wire != WireKind::LengthDelimited {
            return Err(MsgrError::MessageDeserializationError);
        }
        let (start, end) = take_bytes_value(body)?;
        let raw = slice_to_vec(slice_subrange(body, start, end));
        match string_from_utf8(raw) {
            Some(text) => Ok((text, k + end)),
            None => Err(MsgrError::MessageDeserializationError),
        }
    } else {
        let n = skip_unknown(wire, tag, body)?;
        Ok((acc, k + n))
    }
}

/// Reads all of `bytes` as the fields of a content, starting from `before`.
pub fn decode_content(bytes: &[u8], before: String) -> (r: Result<String, MsgrError>)
    ensures
        match r {
            Ok(contents) => content_parse(bytes@, before@) == Some(contents@),
            Err(e) => content_parse(bytes@, before@) is None && e
                == MsgrError::MessageDeserializationError,
        },
{
    let mut acc = before;
    let mut pos: usize = 0;
    assert(bytes@.skip(0) =~= bytes@);
    while pos < bytes.len()
        invariant
            pos <= bytes@.len(),
            content_parse(bytes@.skip(pos as int), acc@) == content_parse(bytes@, before@),
        decreases bytes@.len() - pos,
    {
        let rest = slice_subrange(bytes, pos, bytes.len());
        assert(rest@ == bytes@.skip(pos as int));
        let (next, n) = take_content_field(rest, acc)?;
        assert(rest@.skip(n as int) =~= bytes@.skip(pos + n));
        acc = next;
        pos = pos + n;
    }
    assert(bytes@.skip(pos as int).len() == 0);
    Ok(acc)
}

/// Reads one field of a message from the front of `bytes`; gives the
/// message after it and the number of bytes taken.
fn take_message_field(bytes: &[u8], acc: Message) -> (r: Result<(Message, usize), MsgrError>)
    ensures
        match r {
            Ok((next, n)) => 0 < n <= bytes@.len() && message_field_parse(bytes@, acc@) == Some(
                (next@, n as nat),
            ),
            Err(e) => e == MsgrError::MessageDeserializationError && (message_field_parse(
                bytes@,
                acc@,
            ) matches Some((_, n)) ==> !(0 < n <= bytes@.len())),
        },
{
    proof {
        lemma_varint_parse_bounds(bytes@, MAX_VARINT_LEN as nat);
    }
    let (tag, wire, left) = match take_key(bytes) {
        Ok(key) => key,
        Err(_) => {
            return Err(MsgrError::MessageDeserializationError);
        },
    };
    let k = bytes.len() - left;
    let body = slice_subrange(bytes, k, bytes.len());
    assert(body@ == bytes@.skip(k as int));
    if tag == SENDER_TAG || tag == RECIPIENT_TAG {
        if wire != WireKind::Varint {
            return Err(MsgrError::MessageDeserializationError);
        }
        proof {
            lemma_varint_parse_bounds(body@, MAX_VARINT_LEN as nat);
            lemma_varint_limit_u64();
        }
        let (value, after) = match take_varint(body) {
            Ok(v) => v,
            Err(_) => {
                return Err(MsgrError::MessageDeserializationError);
            },
        };
        let n = bytes.len() - after;
        if tag == SENDER_TAG {
            Ok((Message { sender: value, recipient: acc.recipient, content: acc.content }, n))
        } else {
            Ok((Message { sender: acc.sender, recipient: value, content: acc.content }, n))
        }
    } else if tag == CONTENT_TAG {
        if wire != WireKind::LengthDelimited {
            return Err(MsgrError::MessageDeserializationError);
        }
        let (start, end) = take_bytes_value(body)?;
        let nested = slice_subrange(body, start, end);
        let before = match acc.content {
            Some(c) => c.contents,
            None => String::new(),
        };
        let contents = decode_content(nested, before)?;
        Ok(
            (
                Message {
                    sender: acc.sender,
                    recipient: acc.recipient,
                    content: Some(MessageContent { contents }),
                },
                k + end,
            ),
        )
    } else {
        let n = skip_unknown(wire, tag, body)?;
        Ok((acc, k + n))
    }
}

impl Message {
    /// Decodes a message from `bytes`, all of which must belong to it.
    ///
    /// Fails, with `MessageDeserializationError`, exactly when `bytes` is no
    /// encoding of a message: a key or a length is malformed, a known field
    /// has the wrong layout, a value runs past the end, or the contents are
    /// not UTF-8.
    pub fn decode(bytes: &[u8]) -> (r: Result<Message, MsgrError>)
        ensures
            match r {
                Ok(m) => message_parse(bytes@) == Some(m@),
                Err(e) => message_parse(bytes@) is None && e
                    == MsgrError::MessageDeserializationError,
            },
    {
        let mut acc = Message::default();
        let mut pos: usize = 0;
        assert(bytes@.skip(0) =~= bytes@);
        while pos < bytes.len()
            invariant
                pos <= bytes@.len(),
                message_parse_from(bytes@.skip(pos as int), acc@) == message_parse(bytes@),
            decreases bytes@.len() - pos,
        {
            let rest = slice_subrange(bytes, pos, bytes.len());
            assert(rest@ == bytes@.skip(pos as int));
            let (next, n) = take_message_field(rest, acc)?;
            assert(rest@.skip(n as int) =~= bytes@.skip(pos + n));
            acc = next;
            pos = pos + n;
        }
        assert(bytes@.skip(pos as int).len() == 0);
        Ok(acc)
    }
}

/// Decodes a message from `buf`, all of which must belong to it.
///
/// Fails, with `MessageDeserializationError`, exactly when `buf` is no
/// encoding of a message.
pub fn deserialize_message(buf: &[u8]) -> (r: Result<Message, MsgrError>)
    ensures
        match r {
            Ok(m) => message_parse(buf@) == Some(m@),
            Err(e) => message_parse(buf@) is None && e == MsgrError::MessageDeserializationError,
        },
{
    Message::decode(buf)
}

/// The message that carries `contents` and leaves both identifiers unset.
pub open spec fn carrying(contents: Seq<char>) -> MessageView {
    MessageView { sender: 0, recipient: 0, content: Some(contents) }
}

/// Encodes a message that carries `contents` and leaves both identifiers
/// unset. What comes out decodes to that message.
///
/// Fails, with `MessageSerializationError`, exactly when the encoding would
/// be longer than a buffer can be.
pub fn serialize_message(contents: String) -> (r: Result<Vec<u8>, MsgrError>)
    ensures
        match r {
            Ok(bytes) => encodable(carrying(contents@)) && bytes@ == message_bytes(
                carrying(contents@),
            ) && message_parse(bytes@) == Some(carrying(contents@)),
            Err(e) => !encodable(carrying(contents@)) && e == MsgrError::MessageSerializationError,
        },
{
    let msg = Message::with_contents(contents);
    msg.encode()
}

} // verus!
