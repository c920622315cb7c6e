//! Reading back what the codec wrote gives the message that was written.

use vstd::prelude::*;
use vstd::utf8::{encode_utf8, encode_utf8_decode_utf8, encode_utf8_valid_utf8};
use crate::codec::{
    bytes_value_parse, content_bytes, content_field_bytes, content_field_parse, content_parse,
    encodable, integer_field_bytes, message_bytes, message_field_parse, message_parse,
    message_parse_from, CONTENTS_TAG, CONTENT_TAG, RECIPIENT_TAG, SENDER_TAG,
};
use crate::message::MessageView;
use crate::varint::{lemma_varint_round_trip, varint_bytes, varint_parse};
use crate::wire::{key_bytes, key_parse, WireKind, MAX_TAG, MIN_TAG};

verus! {

/// A key that was written is read back as the same field number and layout.
pub proof fn lemma_key_round_trip(tag: u32, wire: WireKind, rest: Seq<u8>)
    requires
        MIN_TAG <= tag <= MAX_TAG,
    ensures
        key_parse(key_bytes(tag, wire) + rest) == Some((tag, wire, key_bytes(tag, wire).len())),
        1 <= key_bytes(tag, wire).len(),
{
    let key = (tag as nat * 8 + wire.code()) as u64;
    lemma_varint_round_trip(key, rest);
    assert(key as nat % 8 == wire.code());
    assert(key as nat / 8 == tag as nat);
    assert(WireKind::of_code(wire.code()) == wire);
}

/// A length and bytes that were written are read back as those bytes.
pub proof fn lemma_bytes_value_round_trip(payload: Seq<u8>, rest: Seq<u8>)
    requires
        payload.len() <= u64::MAX,
    ensures
        bytes_value_parse(varint_bytes(payload.len()) + payload + rest) == Some(
            (payload, varint_bytes(payload.len()).len() + payload.len()),
        ),
{
    let head = varint_bytes(payload.len());
    let s = head + payload + rest;
    lemma_varint_round_trip(payload.len() as u64, payload + rest);
    assert(s =~= head + (payload + rest));
    assert(s.subrange(head.len() as int, (head.len() + payload.len()) as int) =~= payload);
}

/// A content that was written is read back, whatever was there before.
pub proof fn lemma_content_round_trip(contents: Seq<char>, before: Seq<char>)
    requires
        content_bytes(contents).len() <= u64::MAX,
        contents.len() == 0 ==> before.len() == 0,
    ensures
        content_parse(content_bytes(contents), before) == Some(contents),
{
    if contents.len() != 0 {
        let raw = encode_utf8(contents);
        let s = content_bytes(contents);
        let key = key_bytes(CONTENTS_TAG, WireKind::LengthDelimited);
        let value = varint_bytes(raw.len()) + raw;
        assert(s =~= key + value);
        lemma_key_round_trip(CONTENTS_TAG, WireKind::LengthDelimited, value);
        assert(s.skip(key.len() as int) =~= value);
        assert(value =~= varint_bytes(raw.len()) + raw + Seq::<u8>::empty());
        lemma_bytes_value_round_trip(raw, Seq::<u8>::empty());
        encode_utf8_valid_utf8(contents);
        encode_utf8_decode_utf8(contents);
        assert(content_field_parse(s, before) == Some((contents, s.len())));
        assert(s.skip(s.len() as int) =~= Seq::<u8>::empty());
        assert(content_parse(s.skip(s.len() as int), contents) == Some(contents));
    } else {
        assert(before =~= contents);
    }
}

/// An integer field that was written is read back into its place.
pub proof fn lemma_integer_field_round_trip(tag: u32, value: u64, rest: Seq<u8>, acc: MessageView)
    requires
        tag == SENDER_TAG || tag == RECIPIENT_TAG,
        value != 0,
    ensures
        message_field_parse(integer_field_bytes(tag, value) + rest, acc) == Some(
            (
                if tag == SENDER_TAG {
                    MessageView { sender: value, ..acc }
                } else {
                    MessageView { recipient: value, ..acc }
                },
                integer_field_bytes(tag, value).len(),
            ),
        ),
        0 < integer_field_bytes(tag, value).len(),
{
    let key = key_bytes(tag, WireKind::Varint);
    let s = integer_field_bytes(tag, value) + rest;
    assert(s =~= key + (varint_bytes(value as nat) + rest));
    lemma_key_round_trip(tag, WireKind::Varint, varint_bytes(value as nat) + rest);
    assert(s.skip(key.len() as int) =~= varint_bytes(value as nat) + rest);
    lemma_varint_round_trip(value, rest);
}

/// A content field that was written is read back into a message that had
/// no content yet.
pub proof fn lemma_content_field_round_trip(contents: Seq<char>, rest: Seq<u8>, acc: MessageView)
    requires
        content_bytes(contents).len() <= u64::MAX,
        acc.content is None,
    ensures
        message_field_parse(content_field_bytes(Some(contents)) + rest, acc) == Some(
            (
                MessageView { content: Some(contents), ..acc },
                content_field_bytes(Some(contents)).len(),
            ),
        ),
        0 < content_field_bytes(Some(contents)).len(),
{
    let nested = content_bytes(contents);
    let key = key_bytes(CONTENT_TAG, WireKind::LengthDelimited);
    let value = varint_bytes(nested.len()) + nested + rest;
    let s = content_field_bytes(Some(contents)) + rest;
    assert(s =~= key + value);
    lemma_key_round_trip(CONTENT_TAG, WireKind::LengthDelimited, value);
    assert(s.skip(key.len() as int) =~= value);
    lemma_bytes_value_round_trip(nested, rest);
    lemma_content_round_trip(contents, Seq::<char>::empty());
}

/// Reading the fields of `field + rest` goes on with `rest` once the first
/// field has been read.
proof fn lemma_parse_first_field(field: Seq<u8>, rest: Seq<u8>, acc: MessageView, next: MessageView)
    requires
        0 < field.len(),
        message_field_parse(field + rest, acc) == Some((next, field.len())),
    ensures
        message_parse_from(field + rest, acc) == message_parse_from(rest, next),
{
    assert((field + rest).skip(field.len() as int) =~= rest);
}

/// Every message that can be encoded is read back from its encoding.
pub proof fn lemma_message_round_trip(m: MessageView)
    requires
        encodable(m),
    ensures
        message_parse(message_bytes(m)) == Some(m),
{
    let empty = Seq::<u8>::empty();
    let a = integer_field_bytes(SENDER_TAG, m.sender);
    let b = integer_field_bytes(RECIPIENT_TAG, m.recipient);
    let c = content_field_bytes(m.content);
    let m0 = MessageView::empty();
    let m1 = MessageView { sender: m.sender, ..m0 };
    let m2 = MessageView { recipient: m.recipient, ..m1 };
    assert(message_bytes(m) =~= a + (b + c));
    assert(message_bytes(m).len() == a.len() + b.len() + c.len());
    assert(message_parse_from(a + (b + c), m0) == message_parse_from(b + c, m1)) by {
        if m.sender != 0 {
            lemma_integer_field_round_trip(SENDER_TAG, m.sender, b + c, m0);
            lemma_parse_first_field(a, b + c, m0, m1);
        } else {
            assert(a + (b + c) =~= b + c);
        }
    }
    assert(message_parse_from(b + c, m1) == message_parse_from(c, m2)) by {
        if m.recipient != 0 {
            lemma_integer_field_round_trip(RECIPIENT_TAG, m.recipient, c, m1);
            lemma_parse_first_field(b, c, m1, m2);
        } else {
            assert(b + c =~= c);
        }
    }
    assert(message_parse_from(c, m2) == Some(m)) by {
        match m.content {
            Some(contents) => {
                assert(c.len() >= content_bytes(contents).len());
                lemma_content_field_round_trip(contents, empty, m2);
                assert(c + empty =~= c);
                lemma_parse_first_field(c, empty, m2, m);
            },
            None => {},
        }
    }
}

} // verus!
