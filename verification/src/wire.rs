//! The primitives of the wire format: field keys, variable-length integers
//! and the skipping of fields that the schema does not know.
//!
//! Each function here hands the work to `prost`. Its contract states, over
//! the spec functions of `crate::varint` and of this module, what `prost`
//! does; nothing in this module is proved.

use vstd::prelude::*;
use vstd::utf8::{decode_utf8, valid_utf8};
use crate::varint::{varint_bytes, varint_parse};

verus! {

/// The error that `prost` reports when bytes do not decode. Opaque here: the
/// codec only learns that decoding failed.
#[verifier::external_type_specification]
#[verifier::external_body]
pub struct ExDecodeError(prost::DecodeError);

/// How the value of a field is laid out after its key.
#[derive(Clone, Copy, Debug, PartialEq, Eq, Structural)]
pub enum WireKind {
    Varint,
    SixtyFourBit,
    LengthDelimited,
    StartGroup,
    EndGroup,
    ThirtyTwoBit,
}

impl WireKind {
    /// The number that stands for this layout in the low three bits of a key.
    pub open spec fn code(self) -> nat {
        match self {
            WireKind::Varint => 0,
            WireKind::SixtyFourBit => 1,
            WireKind::LengthDelimited => 2,
            WireKind::StartGroup => 3,
            WireKind::EndGroup => 4,
            WireKind::ThirtyTwoBit => 5,
        }
    }

    /// The layout that `code` stands for; codes above 5 stand for none.
    pub open spec fn of_code(code: nat) -> WireKind {
        if code == 0 {
            WireKind::Varint
        } else if code == 1 {
            WireKind::SixtyFourBit
        } else if code == 2 {
            WireKind::LengthDelimited
        } else if code == 3 {
            WireKind::StartGroup
        } else if code == 4 {
            WireKind::EndGroup
        } else {
            WireKind::ThirtyTwoBit
        }
    }
}

/// The smallest field number.
pub const MIN_TAG: u32 = 1;

/// The largest field number: a key is the number shifted left by three bits
/// and has to fit in 32 bits.
pub const MAX_TAG: u32 = 0x1FFF_FFFF;

/// The bytes of the key of field `tag` with layout `wire`.
pub open spec fn key_bytes(tag: u32, wire: WireKind) -> Seq<u8> {
    varint_bytes(tag as nat * 8 + wire.code())
}

/// Reads a key from the front of `s`: the field number, the layout and the
/// number of bytes taken. A key must fit in 32 bits, name one of the six
/// layouts and a field number of at least 1.
pub open spec fn key_parse(s: Seq<u8>) -> Option<(u32, WireKind, nat)> {
    match varint_parse(s) {
        Some((key, n)) => if key <= u32::MAX && key % 8 <= 5 && key / 8 >= 1 {
            Some(((key / 8) as u32, WireKind::of_code(key % 8), n))
        } else {
            None
        },
        None => None,
    }
}

/// The number of bytes that the value of a field with layout `wire` takes at
/// the front of `s`, for every layout but a group: an integer, four bytes,
/// eight bytes, or a length followed by that many bytes. The end of a group
/// without its start is an error.
pub open spec fn plain_value_len(wire: WireKind, s: Seq<u8>) -> Option<nat> {
    match wire {
        WireKind::Varint => match varint_parse(s) {
            Some((_, n)) => Some(n),
            None => None,
        },
        WireKind::SixtyFourBit => if s.len() >= 8 {
            Some(8nat)
        } else {
            None
        },
        WireKind::ThirtyTwoBit => if s.len() >= 4 {
            Some(4nat)
        } else {
            None
        },
        WireKind::LengthDelimited => match varint_parse(s) {
            Some((len, n)) => if n + len <= s.len() {
                Some(n + len)
            } else {
                None
            },
            None => None,
        },
        WireKind::StartGroup => None,
        WireKind::EndGroup => None,
    }
}

/// The number of bytes that `prost` skips for a group of field `tag` whose
/// start key has just been read and whose content begins at the front of
/// `s`, or `None` where it reports an error.
pub uninterp spec fn group_len(tag: u32, s: Seq<u8>) -> Option<nat>;

/// The number of bytes that the value of an unknown field takes.
pub open spec fn value_len(wire: WireKind, tag: u32, s: Seq<u8>) -> Option<nat> {
    if wire == WireKind::StartGroup {
        group_len(tag, s)
    } else {
        plain_value_len(wire, s)
    }
}

/// Appends the encoding of `value` to `buf`, which must have room for it: a
/// buffer holds at most `isize::MAX` bytes.
///
/// Calls `prost::encoding::encode_varint`, which writes seven bits per byte,
/// low group first, and sets the high bit on all bytes but the last.
#[verifier::external_body]
pub(crate) fn put_varint(value: u64, buf: &mut Vec<u8>)
    requires
        old(buf)@.len() + varint_bytes(value as nat).len() <= isize::MAX,
    ensures
        final(buf)@ == old(buf)@ + varint_bytes(value as nat),
{
    prost::encoding::encode_varint(value, buf)
}

/// The number of bytes that the encoding of `value` takes.
///
/// Calls `prost::encoding::encoded_len_varint`, documented to return the
/// length of the encoding that `encode_varint` writes.
#[verifier::external_body]
pub(crate) fn varint_len(value: u64) -> (len: usize)
    ensures
        len == varint_bytes(value as nat).len(),
{
    prost::encoding::encoded_len_varint(value)
}

/// Reads an integer from the front of `bytes`; gives the value and the
/// number of bytes that are left after it.
///
/// Calls `prost::encoding::decode_varint`, which reads up to ten bytes, stops
/// at the first byte without the high bit, refuses a tenth byte above 1 and
/// fails when the bytes end before such a byte.
#[verifier::external_body]
pub(crate) fn take_varint(bytes: &[u8]) -> (r: Result<(u64, usize), prost::DecodeError>)
    ensures
        match varint_parse(bytes@) {
            Some((value, n)) => r matches Ok((v, left)) && v == value && left + n == bytes@.len(),
            None => r is Err,
        },
{
    let mut rest = bytes;
    let value = prost::encoding::decode_varint(&mut rest)?;
    Ok((value, rest.len()))
}

/// Appends the key of field `tag` with layout `wire` to `buf`, which must
/// have room for it.
///
/// Calls `prost::encoding::encode_key`, which encodes the field number
/// shifted left by three bits, joined with the layout's code, as an integer.
#[verifier::external_body]
pub(crate) fn put_key(tag: u32, wire: WireKind, buf: &mut Vec<u8>)
    requires
        MIN_TAG <= tag <= MAX_TAG,
        old(buf)@.len() + key_bytes(tag, wire).len() <= isize::MAX,
    ensures
        final(buf)@ == old(buf)@ + key_bytes(tag, wire),
{
    let wire_type = match wire {
        WireKind::Varint => prost::encoding::WireType::Varint,
        WireKind::SixtyFourBit => prost::encoding::WireType::SixtyFourBit,
        WireKind::LengthDelimited => prost::encoding::WireType::LengthDelimited,
        WireKind::StartGroup => prost::encoding::WireType::StartGroup,
        WireKind::EndGroup => prost::encoding::WireType::EndGroup,
        WireKind::ThirtyTwoBit => prost::encoding::WireType::ThirtyTwoBit,
    };
    prost::encoding::encode_key(tag, wire_type, buf)
}

/// Reads a key from the front of `bytes`; gives the field number, the layout
/// and the number of bytes that are left after the key.
///
/// Calls `prost::encoding::decode_key`, which reads an integer and fails
/// unless it fits in 32 bits, its low three bits are at most 5 and the rest
/// is at least 1.
#[verifier::external_body]
pub(crate) fn take_key(bytes: &[u8]) -> (r: Result<(u32, WireKind, usize), prost::DecodeError>)
    ensures
        match key_parse(bytes@) {
            Some((tag, wire, n)) => r matches Ok((t, w, left)) && t == tag && w == wire && left + n
                == bytes@.len(),
            None => r is Err,
        },
{
    let mut rest = bytes;
    let (tag, wire_type) = prost::encoding::decode_key(&mut rest)?;
    let wire = match wire_type {
        prost::encoding::WireType::Varint => WireKind::Varint,
        prost::encoding::WireType::SixtyFourBit => WireKind::SixtyFourBit,
        prost::encoding::WireType::LengthDelimited => WireKind::LengthDelimited,
        prost::encoding::WireType::StartGroup => WireKind::StartGroup,
        prost::encoding::WireType::EndGroup => WireKind::EndGroup,
        prost::encoding::WireType::ThirtyTwoBit => WireKind::ThirtyTwoBit,
    };
    Ok((tag, wire, rest.len()))
}

/// Skips the value of field `tag` with layout `wire` at the front of
/// `bytes`; gives the number of bytes that are left after it.
///
/// Calls `prost::encoding::skip_field` with a fresh decode context. For the
/// layouts other than a group it reads an integer, or steps over four bytes,
/// eight bytes or a length and that many bytes, and fails where the bytes do
/// not reach. For a group it walks the nested fields up to the matching end
/// key, within its recursion limit: the result is named, not spelled out.
#[verifier::external_body]
pub(crate) fn skip_value(wire: WireKind, tag: u32, bytes: &[u8]) -> (r: Result<
    usize,
    prost::DecodeError,
>)
    ensures
        wire != WireKind::StartGroup ==> match plain_value_len(wire, bytes@) {
            Some(n) => r matches Ok(left) && left + n == bytes@.len(),
            None => r is Err,
        },
        wire == WireKind::StartGroup ==> match group_len(tag, bytes@) {
            Some(n) => r matches Ok(left) && left + n == bytes@.len(),
            None => r is Err,
        },
{
    let mut rest = bytes;
    let wire_type = match wire {
        WireKind::Varint => prost::encoding::WireType::Varint,
        WireKind::SixtyFourBit => prost::encoding::WireType::SixtyFourBit,
        WireKind::LengthDelimited => prost::encoding::WireType::LengthDelimited,
        WireKind::StartGroup => prost::encoding::WireType::StartGroup,
        WireKind::EndGroup => prost::encoding::WireType::EndGroup,
        WireKind::ThirtyTwoBit => prost::encoding::WireType::ThirtyTwoBit,
    };
    prost::encoding::skip_field(wire_type, tag, &mut rest, prost::encoding::DecodeContext::default())?;
    Ok(rest.len())
}

/// Turns UTF-8 bytes into a string.
///
/// Calls `String::from_utf8`, which gives the string with exactly these
/// bytes when they are valid UTF-8 and an error otherwise.
#[verifier::external_body]
pub(crate) fn string_from_utf8(bytes: Vec<u8>) -> (r: Option<String>)
    ensures
        r is Some == valid_utf8(bytes@),
        r matches Some(s) ==> s@ == decode_utf8(bytes@),
{
    match String::from_utf8(bytes) {
        Ok(s) => Some(s),
        Err(_) => None,
    }
}

} // verus!
