//! Field-tag codec: packs a field number and a wire type into one varint.
//!
//! A tag is the single value `field_number * 8 + wire_type`, itself encoded
//! as a varint. Encoding validates the components; decoding trusts the
//! producer and only unpacks.

use vstd::prelude::*;

use crate::error::WireError;
use crate::varint::{
    decode_varint32_spec, decode_varint_u32, encode_varint, lemma_varint_u32_round_trip,
    varint_bytes, varint_len,
};

verus! {

/// A field number the encoder accepts: within the 29-bit protocol range and
/// outside the reserved block 19000..=19999.
pub open spec fn valid_field_number(field_number: nat) -> bool {
    1 <= field_number <= 0x1FFF_FFFF && !(19000 <= field_number <= 19999)
}

/// A wire type the encoder accepts: 0 (varint), 1 (64-bit), 2
/// (length-delimited), 3 (start group), 4 (end group) or 5 (32-bit).
pub open spec fn valid_wire_type(wire_type: nat) -> bool {
    wire_type <= 5
}

/// The packed tag value for a field number and wire type.
pub open spec fn tag_value(field_number: nat, wire_type: nat) -> nat {
    field_number * 8 + wire_type
}

/// Validates a field number and wire type, then encodes their packed tag as
/// a varint. Fails with `InvalidTag` exactly when either component is out of
/// range.
pub fn encode_field_tag(field_number: u32, wire_type: u32) -> (r: Result<Vec<u8>, WireError>)
    ensures
        r is Ok <==> valid_field_number(field_number as nat) && valid_wire_type(wire_type as nat),
        r is Ok ==> r->Ok_0@ == varint_bytes(tag_value(field_number as nat, wire_type as nat)),
        r is Err ==> r == Err::<Vec<u8>, WireError>(WireError::InvalidTag),
{
    if field_number < 1 || field_number > 0x1FFF_FFFF {
        return Err(WireError::InvalidTag);
    }
    if 19000 <= field_number && field_number <= 19999 {
        return Err(WireError::InvalidTag);
    }
    if wire_type > 5 {
        return Err(WireError::InvalidTag);
    }
    let tag: u32 = field_number * 8 + wire_type;
    Ok(encode_varint(tag as u64))
}

/// Unpacks a varint-encoded field tag into its field number and wire type.
/// No range re-validation happens on decode: a tag received over the wire is
/// trusted to have been validated by its producer.
pub fn decode_field_tag(buffer: &[u8]) -> (r: Result<(u32, u32), WireError>)
    ensures
        match decode_varint32_spec(buffer@, 0) {
            Ok((t, _)) => r is Ok && r->Ok_0.0 == t / 8 && r->Ok_0.1 == t % 8,
            Err(e) => r == Err::<(u32, u32), WireError>(e),
        },
{
    match decode_varint_u32(buffer) {
        Ok((tag, _)) => Ok((tag / 8, tag % 8)),
        Err(e) => Err(e),
    }
}

/// Round trip: decoding the varint of a valid packed tag recovers the field
/// number and wire type that were encoded.
pub proof fn lemma_tag_round_trip(field_number: u32, wire_type: u32)
    requires
        valid_field_number(field_number as nat),
        valid_wire_type(wire_type as nat),
    ensures
        ({
            let t = tag_value(field_number as nat, wire_type as nat);
            &&& t <= u32::MAX
            &&& decode_varint32_spec(varint_bytes(t), 0) == Ok::<(nat, int), WireError>(
                (t, varint_len(t) as int),
            )
            &&& t / 8 == field_number
            &&& t % 8 == wire_type
        }),
{
    let t = tag_value(field_number as nat, wire_type as nat);
    assert(t / 8 == field_number && t % 8 == wire_type) by (nonlinear_arith)
        requires
            t == (field_number as nat) * 8 + wire_type,
            wire_type < 8,
    ;
    lemma_varint_u32_round_trip(t as u32);
}

} // verus!
