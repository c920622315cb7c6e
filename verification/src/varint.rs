//! Base-128 variable-length integers, as the wire format uses them for keys,
//! lengths and integer fields.
//!
//! The format is stated here as two spec functions, `varint_bytes` and
//! `varint_parse`, and proved to round-trip. The bytes themselves are
//! written and read by `prost`.

use vstd::prelude::*;

verus! {

/// The longest encoding of a 64-bit value, in bytes.
pub const MAX_VARINT_LEN: usize = 10;

/// The encoding of `v`: seven bits per byte, least significant group first,
/// the high bit set on every byte but the last.
pub open spec fn varint_bytes(v: nat) -> Seq<u8>
    decreases v,
{
    if v < 128 {
        seq![v as u8]
    } else {
        seq![(v % 128 + 128) as u8] + varint_bytes(v / 128)
    }
}

/// Reads one encoded integer from the front of `s`, looking at no more than
/// `budget` bytes. Gives the value and the number of bytes it took.
///
/// The last byte that a 64-bit value can have, the tenth, holds a single bit:
/// a larger one does not fit and is refused.
pub open spec fn varint_parse_within(s: Seq<u8>, budget: nat) -> Option<(nat, nat)>
    decreases budget,
{
    if budget == 0 || s.len() == 0 {
        None
    } else if s[0] < 128 {
        if budget == 1 && s[0] >= 2 {
            None
        } else {
            Some((s[0] as nat, 1nat))
        }
    } else {
        match varint_parse_within(s.skip(1), (budget - 1) as nat) {
            Some((v, n)) => Some(((s[0] - 128 + 128 * v) as nat, n + 1)),
            None => None,
        }
    }
}

/// Reads one encoded 64-bit integer from the front of `s`.
pub open spec fn varint_parse(s: Seq<u8>) -> Option<(nat, nat)> {
    varint_parse_within(s, MAX_VARINT_LEN as nat)
}

/// The first value that `budget` bytes cannot hold.
pub open spec fn varint_limit(budget: nat) -> nat
    decreases budget,
{
    if budget == 0 {
        0
    } else if budget == 1 {
        2
    } else {
        128 * varint_limit((budget - 1) as nat)
    }
}

/// Ten bytes hold exactly the 64-bit values.
pub proof fn lemma_varint_limit_u64()
    ensures
        varint_limit(MAX_VARINT_LEN as nat) == 0x1_0000_0000_0000_0000,
{
    reveal_with_fuel(varint_limit, 11);
}

/// An encoding is never empty, and a value under `varint_limit(budget)` takes
/// at most `budget` bytes.
pub proof fn lemma_varint_bytes_len(v: nat, budget: nat)
    requires
        v < varint_limit(budget),
    ensures
        1 <= varint_bytes(v).len() <= budget,
    decreases budget,
{
    if v >= 128 {
        assert(budget >= 2);
        lemma_varint_bytes_len(v / 128, (budget - 1) as nat);
    }
}

/// A parse takes at least one byte and no more than are there or allowed, and
/// its value is under the limit of the budget.
pub proof fn lemma_varint_parse_bounds(s: Seq<u8>, budget: nat)
    ensures
        match varint_parse_within(s, budget) {
            Some((v, n)) => 1 <= n <= s.len() && n <= budget && v < varint_limit(budget),
            None => true,
        },
    decreases budget,
{
    if budget != 0 && s.len() != 0 && s[0] >= 128 {
        lemma_varint_parse_bounds(s.skip(1), (budget - 1) as nat);
        match varint_parse_within(s.skip(1), (budget - 1) as nat) {
            Some((v, n)) => {
                assert(budget >= 2);
            },
            None => {},
        }
    } else if budget != 0 && s.len() != 0 {
        if budget > 1 {
            assert(varint_limit(budget) >= 128) by {
                lemma_varint_limit_grows(budget);
            }
        }
    }
}

/// From two bytes on, the limit is at least 256.
pub proof fn lemma_varint_limit_grows(budget: nat)
    requires
        budget >= 2,
    ensures
        varint_limit(budget) >= 256,
    decreases budget,
{
    if budget > 2 {
        lemma_varint_limit_grows((budget - 1) as nat);
    } else {
        reveal_with_fuel(varint_limit, 3);
    }
}

/// Parsing what was encoded gives the value back, whatever follows it.
pub proof fn lemma_varint_round_trip_within(v: nat, rest: Seq<u8>, budget: nat)
    requires
        v < varint_limit(budget),
    ensures
        varint_parse_within(varint_bytes(v) + rest, budget) == Some((v, varint_bytes(v).len())),
    decreases budget,
{
    let s = varint_bytes(v) + rest;
    if v < 128 {
        assert(s[0] == v as u8);
    } else {
        assert(budget >= 2);
        assert(s[0] == (v % 128 + 128) as u8);
        assert(s.skip(1) =~= varint_bytes(v / 128) + rest);
        lemma_varint_round_trip_within(v / 128, rest, (budget - 1) as nat);
    }
}

/// Parsing the encoding of a 64-bit value gives it back, whatever follows it.
pub proof fn lemma_varint_round_trip(v: u64, rest: Seq<u8>)
    ensures
        varint_parse(varint_bytes(v as nat) + rest) == Some((v as nat, varint_bytes(v as nat).len())),
        1 <= varint_bytes(v as nat).len() <= MAX_VARINT_LEN,
{
    lemma_varint_limit_u64();
    lemma_varint_round_trip_within(v as nat, rest, MAX_VARINT_LEN as nat);
    lemma_varint_bytes_len(v as nat, MAX_VARINT_LEN as nat);
}

} // verus!
