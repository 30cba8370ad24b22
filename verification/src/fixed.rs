//! Fixed-width codec: 32- and 64-bit values in little-endian byte order.
//!
//! These carry the `fixed32`, `sfixed32`, `fixed64` and `sfixed64` field
//! types, and — bit-reinterpreted by the caller — single- and
//! double-precision floating point.

use vstd::prelude::*;

verus! {

/// The four little-endian bytes of `v`.
pub open spec fn le32_bytes(v: nat) -> Seq<u8> {
    seq![
        (v % 0x100) as u8,
        ((v / 0x100) % 0x100) as u8,
        ((v / 0x1_0000) % 0x100) as u8,
        ((v / 0x100_0000) % 0x100) as u8,
    ]
}

/// The eight little-endian bytes of `v`.
pub open spec fn le64_bytes(v: nat) -> Seq<u8> {
    seq![
        (v % 0x100) as u8,
        ((v / 0x100) % 0x100) as u8,
        ((v / 0x1_0000) % 0x100) as u8,
        ((v / 0x100_0000) % 0x100) as u8,
        ((v / 0x1_0000_0000) % 0x100) as u8,
        ((v / 0x100_0000_0000) % 0x100) as u8,
        ((v / 0x1_0000_0000_0000) % 0x100) as u8,
        ((v / 0x100_0000_0000_0000) % 0x100) as u8,
    ]
}

/// The value of the four little-endian bytes at `s[i .. i + 4]`.
pub open spec fn le32_value(s: Seq<u8>, i: int) -> nat {
    (s[i] as nat) + 0x100 * (s[i + 1] as nat) + 0x1_0000 * (s[i + 2] as nat) + 0x100_0000 * (s[i
        + 3] as nat)
}

/// The value of the eight little-endian bytes at `s[i .. i + 8]`.
pub open spec fn le64_value(s: Seq<u8>, i: int) -> nat {
    (s[i] as nat) + 0x100 * (s[i + 1] as nat) + 0x1_0000 * (s[i + 2] as nat) + 0x100_0000 * (s[i
        + 3] as nat) + 0x1_0000_0000 * (s[i + 4] as nat) + 0x100_0000_0000 * (s[i + 5] as nat)
        + 0x1_0000_0000_0000 * (s[i + 6] as nat) + 0x100_0000_0000_0000 * (s[i + 7] as nat)
}

/// Reassembling the four little-endian bytes of a 32-bit value gives the
/// value back.
pub proof fn lemma_le32_round_trip(s: Seq<u8>, i: int, v: u32)
    requires
        0 <= i,
        i + 4 <= s.len(),
        s.subrange(i, i + 4) == le32_bytes(v as nat),
    ensures
        le32_value(s, i) == v,
{
    assert(s[i] == s.subrange(i, i + 4)[0]);
    assert(s[i + 1] == s.subrange(i, i + 4)[1]);
    assert(s[i + 2] == s.subrange(i, i + 4)[2]);
    assert(s[i + 3] == s.subrange(i, i + 4)[3]);
    assert(v % 0x100 + 0x100 * ((v / 0x100) % 0x100) + 0x1_0000 * ((v / 0x1_0000) % 0x100)
        + 0x100_0000 * ((v / 0x100_0000) % 0x100) == v) by (bit_vector);
}

/// Reassembling the eight little-endian bytes of a 64-bit value gives the
/// value back.
pub proof fn lemma_le64_round_trip(s: Seq<u8>, i: int, v: u64)
    requires
        0 <= i,
        i + 8 <= s.len(),
        s.subrange(i, i + 8) == le64_bytes(v as nat),
    ensures
        le64_value(s, i) == v,
{
    assert(s[i] == s.subrange(i, i + 8)[0]);
    assert(s[i + 1] == s.subrange(i, i + 8)[1]);
    assert(s[i + 2] == s.subrange(i, i + 8)[2]);
    assert(s[i + 3] == s.subrange(i, i + 8)[3]);
    assert(s[i + 4] == s.subrange(i, i + 8)[4]);
    assert(s[i + 5] == s.subrange(i, i + 8)[5]);
    assert(s[i + 6] == s.subrange(i, i + 8)[6]);
    assert(s[i + 7] == s.subrange(i, i + 8)[7]);
    assert(v % 0x100 + 0x100 * ((v / 0x100) % 0x100) + 0x1_0000 * ((v / 0x1_0000) % 0x100)
        + 0x100_0000 * ((v / 0x100_0000) % 0x100) + 0x1_0000_0000 * ((v / 0x1_0000_0000) % 0x100)
        + 0x100_0000_0000 * ((v / 0x100_0000_0000) % 0x100) + 0x1_0000_0000_0000 * ((v
        / 0x1_0000_0000_0000) % 0x100) + 0x100_0000_0000_0000 * ((v / 0x100_0000_0000_0000)
        % 0x100) == v) by (bit_vector);
}

/// Appends the four little-endian bytes of `value` to `output`.
pub fn encode_fixed32(value: u32, output: &mut Vec<u8>)
    ensures
        final(output)@ == old(output)@ + le32_bytes(value as nat),
{
    output.push((value % 0x100) as u8);
    output.push(((value / 0x100) % 0x100) as u8);
    output.push(((value / 0x1_0000) % 0x100) as u8);
    output.push(((value / 0x100_0000) % 0x100) as u8);
    assert(output@ =~= old(output)@ + le32_bytes(value as nat));
}

/// Appends the eight little-endian bytes of `value` to `output`.
pub fn encode_fixed64(value: u64, output: &mut Vec<u8>)
    ensures
        final(output)@ == old(output)@ + le64_bytes(value as nat),
{
    output.push((value % 0x100) as u8);
    output.push(((value / 0x100) % 0x100) as u8);
    output.push(((value / 0x1_0000) % 0x100) as u8);
    output.push(((value / 0x100_0000) % 0x100) as u8);
    output.push(((value / 0x1_0000_0000) % 0x100) as u8);
    output.push(((value / 0x100_0000_0000) % 0x100) as u8);
    output.push(((value / 0x1_0000_0000_0000) % 0x100) as u8);
    output.push(((value / 0x100_0000_0000_0000) % 0x100) as u8);
    assert(output@ =~= old(output)@ + le64_bytes(value as nat));
}

/// Reads the 32-bit little-endian value at `buf[start .. start + 4]`.
pub fn decode_fixed32_at(buf: &[u8], start: usize) -> (r: u32)
    requires
        start + 4 <= buf@.len(),
    ensures
        r == le32_value(buf@, start as int),
{
    let b0 = buf[start] as u32;
    let b1 = buf[start + 1] as u32;
    let b2 = buf[start + 2] as u32;
    let b3 = buf[start + 3] as u32;
    b0 + 0x100 * b1 + 0x1_0000 * b2 + 0x100_0000 * b3
}

/// Reads the 64-bit little-endian value at `buf[start .. start + 8]`.
pub fn decode_fixed64_at(buf: &[u8], start: usize) -> (r: u64)
    requires
        start + 8 <= buf@.len(),
    ensures
        r == le64_value(buf@, start as int),
{
    let b0 = buf[start] as u64;
    let b1 = buf[start + 1] as u64;
    let b2 = buf[start + 2] as u64;
    let b3 = buf[start + 3] as u64;
    let b4 = buf[start + 4] as u64;
    let b5 = buf[start + 5] as u64;
    let b6 = buf[start + 6] as u64;
    let b7 = buf[start + 7] as u64;
    b0 + 0x100 * b1 + 0x1_0000 * b2 + 0x100_0000 * b3 + 0x1_0000_0000 * b4 + 0x100_0000_0000 * b5
        + 0x1_0000_0000_0000 * b6 + 0x100_0000_0000_0000 * b7
}

} // verus!
