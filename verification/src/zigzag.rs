//! ZigZag transform for signed integers.
//!
//! ZigZag maps signed integers to unsigned ones so that values of small
//! magnitude — negative or positive — become small unsigned values and thus
//! encode compactly as varints: 0, -1, 1, -2, 2, ... map to 0, 1, 2, 3, 4,
//! ... It is used for the `sint32` and `sint64` field types.

use vstd::prelude::*;

use crate::error::WireError;
use crate::varint::{
    decode_varint64_spec, lemma_varint_u32_round_trip, lemma_varint_u64_round_trip, varint_bytes,
    varint_len, decode_varint32_spec,
};

verus! {

/// The ZigZag image of `v`: a non-negative value maps to twice itself, a
/// negative value to one less than twice its magnitude.
pub open spec fn zigzag_spec(v: int) -> nat {
    if v >= 0 {
        (2 * v) as nat
    } else {
        (-2 * v - 1) as nat
    }
}

/// The inverse of `zigzag_spec`: even values come from non-negative
/// integers, odd values from negative ones.
pub open spec fn unzigzag_spec(u: nat) -> int {
    if u % 2 == 0 {
        (u / 2) as int
    } else {
        -1 - (u / 2) as int
    }
}

/// ZigZag is inverted exactly by `unzigzag_spec`, for every integer.
pub proof fn lemma_zigzag_round_trip(v: int)
    ensures
        unzigzag_spec(zigzag_spec(v)) == v,
{
}

/// Maps a signed 64-bit value to its ZigZag image.
pub fn encode_zigzag(value: i64) -> (r: u64)
    ensures
        r == zigzag_spec(value as int),
{
    if value >= 0 {
        (value as u64) * 2
    } else {
        (-(value + 1)) as u64 * 2 + 1
    }
}

/// Recovers a signed 64-bit value from its ZigZag image.
pub fn decode_zigzag(value: u64) -> (r: i64)
    ensures
        r == unzigzag_spec(value as nat),
{
    if value % 2 == 0 {
        (value / 2) as i64
    } else {
        -((value / 2) as i64) - 1
    }
}

/// Maps a signed 32-bit value to its ZigZag image.
pub fn encode_zigzag32(value: i32) -> (r: u32)
    ensures
        r == zigzag_spec(value as int),
{
    if value >= 0 {
        (value as u32) * 2
    } else {
        (-(value + 1)) as u32 * 2 + 1
    }
}

/// Recovers a signed 32-bit value from its ZigZag image.
pub fn decode_zigzag32(value: u32) -> (r: i32)
    ensures
        r == unzigzag_spec(value as nat),
{
    if value % 2 == 0 {
        (value / 2) as i32
    } else {
        -((value / 2) as i32) - 1
    }
}

/// Round trip for `sint64` values: the ZigZag image of any signed 64-bit
/// value fits in 64 bits, its canonical varint decodes back to that image,
/// and undoing the transform recovers the original value.
pub proof fn lemma_sint64_round_trip(v: i64)
    ensures
        zigzag_spec(v as int) <= u64::MAX,
        decode_varint64_spec(varint_bytes(zigzag_spec(v as int)), 0) == Ok::<
            (nat, int),
            WireError,
        >((zigzag_spec(v as int), varint_len(zigzag_spec(v as int)) as int)),
        unzigzag_spec(zigzag_spec(v as int)) == v as int,
{
    lemma_varint_u64_round_trip(zigzag_spec(v as int) as u64);
}

/// Round trip for `sint32` values, through the 32-bit varint decoder.
pub proof fn lemma_sint32_round_trip(v: i32)
    ensures
        zigzag_spec(v as int) <= u32::MAX,
        decode_varint32_spec(varint_bytes(zigzag_spec(v as int)), 0) == Ok::<
            (nat, int),
            WireError,
        >((zigzag_spec(v as int), varint_len(zigzag_spec(v as int)) as int)),
        unzigzag_spec(zigzag_spec(v as int)) == v as int,
{
    lemma_varint_u32_round_trip(zigzag_spec(v as int) as u32);
}

} // verus!
