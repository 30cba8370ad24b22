//! Base-128 variable-length integer codec.
//!
//! A varint stores an unsigned integer as a sequence of 7-bit groups, least
//! significant group first. Every byte except the last has its high bit set
//! (the continuation bit); the last byte's high bit is clear. Encoding is
//! canonical (one byte sequence per value); decoding also accepts padded
//! encodings that stay within the length and overflow rules.

use vstd::arithmetic::div_mod::lemma_div_denominator;
use vstd::prelude::*;

use crate::error::WireError;

verus! {

/// The canonical base-128 encoding of `v`: 7-bit groups, least significant
/// first, continuation bit on every byte but the last.
pub open spec fn varint_bytes(v: nat) -> Seq<u8>
    decreases v,
{
    if v < 0x80 {
        seq![v as u8]
    } else {
        seq![(v % 0x80 + 0x80) as u8] + varint_bytes(v / 0x80)
    }
}

/// Number of bytes in the canonical encoding of `v`.
pub open spec fn varint_len(v: nat) -> nat {
    varint_bytes(v).len()
}

/// 128 raised to `n`; the weight of the `n`-th 7-bit group.
pub open spec fn pow128(n: nat) -> nat
    decreases n,
{
    if n == 0 {
        1
    } else {
        0x80 * pow128((n - 1) as nat)
    }
}

/// Index of the first byte at or after `i` whose continuation bit is clear,
/// if any.
pub open spec fn terminator_from(s: Seq<u8>, i: int) -> Option<int>
    decreases s.len() - i,
{
    if i < 0 || i >= s.len() {
        None
    } else if s[i] < 0x80 {
        Some(i)
    } else {
        terminator_from(s, i + 1)
    }
}

/// Value of the 7-bit groups carried by `s[i ..= k]`, least significant
/// group first.
pub open spec fn group_value(s: Seq<u8>, i: int, k: int) -> nat
    decreases k - i,
{
    if i < 0 || k >= s.len() || i > k {
        0
    } else if i == k {
        (s[i] % 0x80) as nat
    } else {
        (s[i] % 0x80) as nat + 0x80 * group_value(s, i + 1, k)
    }
}

/// The strict 64-bit varint decode of `s` starting at `i`: the value and the
/// position just past the varint, or the error the decoder reports.
///
/// A terminator within the first nine bytes always succeeds. A tenth byte may
/// carry only bit 0 (the top bit of the 64-bit value); more significant bits
/// there overflow, and a tenth continuation bit means the varint runs past
/// its maximum length.
pub open spec fn decode_varint64_spec(s: Seq<u8>, i: int) -> Result<(nat, int), WireError> {
    match terminator_from(s, i) {
        Some(k) => {
            if k - i < 9 {
                Ok((group_value(s, i, k), k + 1))
            } else if k - i == 9 {
                if s[k] > 1 {
                    Err(WireError::VarintOverflow)
                } else {
                    Ok((group_value(s, i, k), k + 1))
                }
            } else {
                Err(WireError::VarintTooLong)
            }
        },
        None => {
            if s.len() - i >= 10 {
                Err(WireError::VarintTooLong)
            } else {
                Err(WireError::IncompleteVarint)
            }
        },
    }
}

/// The strict 32-bit varint decode of `s` starting at `i`.
///
/// At most five bytes are consumed, and the fifth byte may carry only its low
/// four bits; any fifth byte above 0x0F — a continuation byte included —
/// signals a value that does not fit in 32 bits.
pub open spec fn decode_varint32_spec(s: Seq<u8>, i: int) -> Result<(nat, int), WireError> {
    match terminator_from(s, i) {
        Some(k) => {
            if k - i < 4 {
                Ok((group_value(s, i, k), k + 1))
            } else if k - i == 4 && s[k] <= 0x0F {
                Ok((group_value(s, i, k), k + 1))
            } else {
                Err(WireError::VarintOverflow)
            }
        },
        None => {
            if s.len() - i >= 5 {
                Err(WireError::VarintOverflow)
            } else {
                Err(WireError::IncompleteVarint)
            }
        },
    }
}

/// A terminator index lies between the scan start and the end of the buffer.
pub proof fn lemma_terminator_bounds(s: Seq<u8>, i: int)
    requires
        terminator_from(s, i) is Some,
    ensures
        i <= terminator_from(s, i)->Some_0 < s.len(),
        s[terminator_from(s, i)->Some_0] < 0x80,
        forall|j: int| i <= j < terminator_from(s, i)->Some_0 ==> s[j] >= 0x80,
    decreases s.len() - i,
{
    if !(i < 0 || i >= s.len()) && s[i] >= 0x80 {
        lemma_terminator_bounds(s, i + 1);
    }
}

/// A successful decode consumes at least one byte and stays in the buffer.
pub proof fn lemma_decode64_end_bounds(s: Seq<u8>, i: int)
    requires
        decode_varint64_spec(s, i) is Ok,
    ensures
        i < decode_varint64_spec(s, i)->Ok_0.1 <= s.len(),
{
    lemma_terminator_bounds(s, i);
}

/// A successful 32-bit decode consumes at least one byte and stays in the
/// buffer.
pub proof fn lemma_decode32_end_bounds(s: Seq<u8>, i: int)
    requires
        decode_varint32_spec(s, i) is Ok,
    ensures
        i < decode_varint32_spec(s, i)->Ok_0.1 <= s.len(),
{
    lemma_terminator_bounds(s, i);
}

/// Powers of 128 are positive.
pub proof fn lemma_pow128_pos(n: nat)
    ensures
        pow128(n) >= 1,
    decreases n,
{
    if n > 0 {
        lemma_pow128_pos((n - 1) as nat);
    }
}

/// The first ten powers of 128, as concrete bounds for the decoders.
pub proof fn lemma_pow128_values()
    ensures
        pow128(0) == 1,
        pow128(1) == 0x80,
        pow128(2) == 0x4000,
        pow128(3) == 0x20_0000,
        pow128(4) == 0x1000_0000,
        pow128(5) == 0x8_0000_0000,
        pow128(6) == 0x400_0000_0000,
        pow128(7) == 0x2_0000_0000_0000,
        pow128(8) == 0x100_0000_0000_0000,
        pow128(9) == 0x8000_0000_0000_0000,
{
    reveal_with_fuel(pow128, 11);
}

/// Powers of 128 grow with the exponent.
pub proof fn lemma_pow128_monotone(a: nat, b: nat)
    requires
        a <= b,
    ensures
        pow128(a) <= pow128(b),
    decreases b,
{
    if a < b {
        lemma_pow128_monotone(a, (b - 1) as nat);
        lemma_pow128_pos((b - 1) as nat);
    }
}

/// Scanning for a terminator may start past any run of continuation bytes.
pub proof fn lemma_terminator_skip(s: Seq<u8>, i: int, m: int)
    requires
        0 <= i <= m <= s.len(),
        forall|j: int| i <= j < m ==> s[j] >= 0x80,
    ensures
        terminator_from(s, i) == terminator_from(s, m),
    decreases m - i,
{
    if i < m {
        lemma_terminator_skip(s, i + 1, m);
    }
}

/// Extending a group range by one byte adds that byte's payload at the next
/// power-of-128 weight.
pub proof fn lemma_group_value_snoc(s: Seq<u8>, i: int, k: int)
    requires
        0 <= i < k < s.len(),
    ensures
        group_value(s, i, k) == group_value(s, i, k - 1) + pow128((k - i) as nat) * (
        (s[k] % 0x80) as nat),
    decreases k - i,
{
    reveal_with_fuel(group_value, 3);
    if i + 1 == k {
        assert(pow128(1) == 0x80 * pow128(0));
    } else {
        lemma_group_value_snoc(s, i + 1, k);
        let n = (k - i - 1) as nat;
        assert(pow128(n + 1) == 0x80 * pow128(n));
        assert(0x80 * (group_value(s, i + 1, k - 1) + pow128(n) * ((s[k] % 0x80) as nat))
            == 0x80 * group_value(s, i + 1, k - 1) + (0x80 * pow128(n)) * ((s[k] % 0x80) as nat))
            by (nonlinear_arith);
    }
}

/// Appends the canonical encoding of `value` to `output`.
///
/// This is the 64-bit encoder every wider operation builds on.
pub fn encode_varint_u64(value: u64, output: &mut Vec<u8>)
    ensures
        final(output)@ == old(output)@ + varint_bytes(value as nat),
{
    let mut v: u64 = value;
    while v >= 0x80
        invariant
            output@.len() >= old(output)@.len(),
            varint_bytes(value as nat) == output@.subrange(
                old(output)@.len() as int,
                output@.len() as int,
            ) + varint_bytes(v as nat),
            output@.subrange(0, old(output)@.len() as int) == old(output)@,
        decreases v,
    {
        let byte: u8 = (v % 0x80 + 0x80) as u8;
        output.push(byte);
        assert(varint_bytes(v as nat) == seq![byte] + varint_bytes((v / 0x80) as nat));
        v = v / 0x80;
        assert(output@.subrange(old(output)@.len() as int, output@.len() as int)
            == output@.subrange(old(output)@.len() as int, output@.len() - 1)
                + seq![output@[output@.len() - 1]]);
    }
    let byte: u8 = v as u8;
    output.push(byte);
    assert(varint_bytes(v as nat) == seq![byte]);
    assert(output@.subrange(old(output)@.len() as int, output@.len() as int)
        == output@.subrange(old(output)@.len() as int, output@.len() - 1)
            + seq![output@[output@.len() - 1]]);
    assert(output@ =~= old(output)@ + varint_bytes(value as nat));
}

/// Appends the canonical encoding of `value` to `output`.
pub fn encode_varint_u32(value: u32, output: &mut Vec<u8>)
    ensures
        final(output)@ == old(output)@ + varint_bytes(value as nat),
{
    encode_varint_u64(value as u64, output);
}

/// The canonical encoding of `value` as a fresh buffer.
pub fn encode_varint(value: u64) -> (r: Vec<u8>)
    ensures
        r@ == varint_bytes(value as nat),
{
    let mut out: Vec<u8> = Vec::new();
    encode_varint_u64(value, &mut out);
    out
}

/// Decodes a strict 64-bit varint from `buf` starting at `start`, returning
/// the value and the position just past it.
pub fn decode_varint64_at(buf: &[u8], start: usize) -> (r: Result<(u64, usize), WireError>)
    requires
        start <= buf@.len(),
    ensures
        match decode_varint64_spec(buf@, start as int) {
            Ok((v, end)) => r is Ok && r->Ok_0.0 == v && r->Ok_0.1 == end,
            Err(e) => r == Err::<(u64, usize), WireError>(e),
        },
{
    let ghost s: Seq<u8> = buf@;
    proof {
        lemma_pow128_values();
    }
    let len: usize = buf.len();
    let mut value: u64 = 0;
    let mut mult: u64 = 1;
    let mut count: usize = 0;
    while count < 9
        invariant
            len == s.len(),
            start + count <= s.len(),
            count <= 9,
            s == buf@,
            mult == pow128(count as nat),
            value < mult,
            count == 0 ==> value == 0,
            count > 0 ==> value == group_value(s, start as int, start + count - 1),
            forall|j: int| start <= j < start + count ==> s[j] >= 0x80,
        decreases 9 - count,
    {
        proof {
            lemma_pow128_values();
            lemma_terminator_skip(s, start as int, start + count as int);
        }
        if start + count == len {
            return Err(WireError::IncompleteVarint);
        }
        let byte: u8 = buf[start + count];
        let payload: u64 = (byte % 0x80) as u64;
        proof {
            lemma_pow128_values();
            lemma_pow128_monotone(count as nat, 8);
            if count > 0 {
                lemma_group_value_snoc(s, start as int, start + count as int);
                assert(pow128(count as nat) * ((s[start + count] % 0x80) as nat) == payload
                    * mult) by (nonlinear_arith)
                    requires
                        payload == (s[start + count] % 0x80) as nat,
                        mult == pow128(count as nat),
                ;
            }
            assert(value + payload * mult < 0x80 * mult) by (nonlinear_arith)
                requires
                    payload < 0x80,
                    value < mult,
            ;
        }
        value = value + payload * mult;
        if byte < 0x80 {
            assert(terminator_from(s, start as int) == Some(start + count as int));
            return Ok((value, start + count + 1));
        }
        proof {
            lemma_pow128_values();
            lemma_pow128_monotone(count as nat, 8);
        }
        mult = mult * 0x80;
        count = count + 1;
        assert(pow128(count as nat) == 0x80 * pow128((count - 1) as nat));
    }
    proof {
        lemma_pow128_values();
        lemma_terminator_skip(s, start as int, start + 9);
    }
    if start + 9 == len {
        return Err(WireError::IncompleteVarint);
    }
    let byte: u8 = buf[start + 9];
    if byte >= 0x80 {
        proof {
            lemma_terminator_skip(s, start as int, start + 10);
            if terminator_from(s, start + 10) is Some {
                lemma_terminator_bounds(s, start + 10);
            }
        }
        return Err(WireError::VarintTooLong);
    }
    if byte > 1 {
        return Err(WireError::VarintOverflow);
    }
    proof {
        lemma_group_value_snoc(s, start as int, start + 9);
        assert(pow128(9) * ((s[start + 9] % 0x80) as nat) == (byte as u64) * mult)
            by (nonlinear_arith)
            requires
                byte == s[start + 9],
                byte < 0x80,
                mult == pow128(9),
        ;
    }
    Ok((value + (byte as u64) * mult, start + 10))
}

/// Decodes a strict 32-bit varint from `buf` starting at `start`, returning
/// the value and the position just past it.
pub fn decode_varint32_at(buf: &[u8], start: usize) -> (r: Result<(u32, usize), WireError>)
    requires
        start <= buf@.len(),
    ensures
        match decode_varint32_spec(buf@, start as int) {
            Ok((v, end)) => r is Ok && r->Ok_0.0 == v && r->Ok_0.1 == end,
            Err(e) => r == Err::<(u32, usize), WireError>(e),
        },
{
    let ghost s: Seq<u8> = buf@;
    proof {
        lemma_pow128_values();
    }
    let len: usize = buf.len();
    let mut value: u32 = 0;
    let mut mult: u32 = 1;
    let mut count: usize = 0;
    while count < 4
        invariant
            len == s.len(),
            start + count <= s.len(),
            count <= 4,
            s == buf@,
            mult == pow128(count as nat),
            value < mult,
            count == 0 ==> value == 0,
            count > 0 ==> value == group_value(s, start as int, start + count - 1),
            forall|j: int| start <= j < start + count ==> s[j] >= 0x80,
        decreases 4 - count,
    {
        proof {
            lemma_pow128_values();
            lemma_terminator_skip(s, start as int, start + count as int);
        }
        if start + count == len {
            return Err(WireError::IncompleteVarint);
        }
        let byte: u8 = buf[start + count];
        let payload: u32 = (byte % 0x80) as u32;
        proof {
            lemma_pow128_values();
            lemma_pow128_monotone(count as nat, 3);
            if count > 0 {
                lemma_group_value_snoc(s, start as int, start + count as int);
                assert(pow128(count as nat) * ((s[start + count] % 0x80) as nat) == payload
                    * mult) by (nonlinear_arith)
                    requires
                        payload == (s[start + count] % 0x80) as nat,
                        mult == pow128(count as nat),
                ;
            }
            assert(value + payload * mult < 0x80 * mult) by (nonlinear_arith)
                requires
                    payload < 0x80,
                    value < mult,
            ;
        }
        value = value + payload * mult;
        if byte < 0x80 {
            assert(terminator_from(s, start as int) == Some(start + count as int));
            return Ok((value, start + count + 1));
        }
        proof {
            lemma_pow128_values();
            lemma_pow128_monotone(count as nat, 3);
        }
        mult = mult * 0x80;
        count = count + 1;
        assert(pow128(count as nat) == 0x80 * pow128((count - 1) as nat));
    }
    proof {
        lemma_pow128_values();
        lemma_terminator_skip(s, start as int, start + 4);
    }
    if start + 4 == len {
        return Err(WireError::IncompleteVarint);
    }
    let byte: u8 = buf[start + 4];
    if byte > 0x0F {
        proof {
            if byte >= 0x80 {
                lemma_terminator_skip(s, start as int, start + 5);
                if terminator_from(s, start + 5) is Some {
                    lemma_terminator_bounds(s, start + 5);
                }
            }
        }
        return Err(WireError::VarintOverflow);
    }
    proof {
        lemma_group_value_snoc(s, start as int, start + 4);
        assert(pow128(4) * ((s[start + 4] % 0x80) as nat) == (byte as u32) * mult)
            by (nonlinear_arith)
            requires
                byte == s[start + 4],
                byte < 0x80,
                mult == pow128(4),
        ;
    }
    Ok((value + (byte as u32) * mult, start + 5))
}

/// Decodes a strict 64-bit varint at the head of `buffer`, returning the
/// value alone.
pub fn decode_varint(buffer: &[u8]) -> (r: Result<u64, WireError>)
    ensures
        match decode_varint64_spec(buffer@, 0) {
            Ok((v, end)) => r is Ok && r->Ok_0 == v,
            Err(e) => r == Err::<u64, WireError>(e),
        },
{
    match decode_varint64_at(buffer, 0) {
        Ok((v, _)) => Ok(v),
        Err(e) => Err(e),
    }
}

/// Decodes a strict 32-bit varint at the head of `buffer`, returning the
/// value and the number of bytes consumed.
pub fn decode_varint_u32(buffer: &[u8]) -> (r: Result<(u32, usize), WireError>)
    ensures
        match decode_varint32_spec(buffer@, 0) {
            Ok((v, end)) => r is Ok && r->Ok_0.0 == v && r->Ok_0.1 == end,
            Err(e) => r == Err::<(u32, usize), WireError>(e),
        },
{
    decode_varint32_at(buffer, 0)
}

/// The bytes of the canonical encoding of `v`, by position: every byte but
/// the last carries the continuation bit over the matching base-128 digit of
/// `v`, and the last byte is the leading digit alone.
pub proof fn lemma_varint_bytes_shape(v: nat)
    ensures
        1 <= varint_len(v),
        v < pow128(varint_len(v)),
        varint_len(v) > 1 ==> pow128((varint_len(v) - 1) as nat) <= v,
        forall|j: int|
            0 <= j < varint_len(v) - 1 ==> (#[trigger] varint_bytes(v)[j]) == ((v / pow128(
                j as nat,
            )) % 0x80 + 0x80) as u8,
        varint_bytes(v)[varint_len(v) - 1] == (v / pow128((varint_len(v) - 1) as nat)) as u8,
        v / pow128((varint_len(v) - 1) as nat) < 0x80,
    decreases v,
{
    assert(pow128(1) == 0x80 * pow128(0));
    if v < 0x80 {
        assert(varint_bytes(v) == seq![v as u8]);
    } else {
        let v2 = v / 0x80;
        lemma_varint_bytes_shape(v2);
        let b = varint_bytes(v);
        let b2 = varint_bytes(v2);
        let len = varint_len(v) as int;
        let len2 = varint_len(v2) as int;
        assert(b == seq![(v % 0x80 + 0x80) as u8] + b2);
        assert(len == len2 + 1);
        assert forall|j: int| 1 <= j < len - 1 implies (#[trigger] b[j]) == ((v / pow128(j as nat))
            % 0x80 + 0x80) as u8 by {
            lemma_pow128_pos((j - 1) as nat);
            lemma_div_denominator(v as int, 0x80, pow128((j - 1) as nat) as int);
            assert(pow128(j as nat) == 0x80 * pow128((j - 1) as nat));
            assert(b[j] == b2[j - 1]);
        }
        assert(b[0] == ((v / pow128(0)) % 0x80 + 0x80) as u8);
        lemma_pow128_pos((len2 - 1) as nat);
        lemma_div_denominator(v as int, 0x80, pow128((len2 - 1) as nat) as int);
        assert(pow128((len - 1) as nat) == 0x80 * pow128((len2 - 1) as nat));
        assert(b[len - 1] == b2[len2 - 1]);
        assert(v / pow128((len - 1) as nat) == v2 / pow128((len2 - 1) as nat));
        assert(v < pow128(varint_len(v))) by (nonlinear_arith)
            requires
                v2 == v / 0x80,
                v2 < pow128(varint_len(v / 0x80)),
                pow128(varint_len(v)) == 0x80 * pow128(varint_len(v / 0x80)),
        ;
        assert(pow128((len - 1) as nat) <= v) by (nonlinear_arith)
            requires
                v >= 0x80,
                v2 == v / 0x80,
                len2 >= 1,
                pow128((len - 1) as nat) == 0x80 * pow128((len2 - 1) as nat),
                len2 > 1 ==> pow128((len2 - 1) as nat) <= v2,
                pow128(0) == 1,
                len2 == 1 ==> pow128((len2 - 1) as nat) == 1,
        ;
    }
}

/// The canonical encoding of `v` placed at `i` in `s` carries exactly the
/// value `v` in its 7-bit groups.
pub proof fn lemma_group_value_of_encoding(s: Seq<u8>, i: int, v: nat)
    requires
        0 <= i,
        i + varint_len(v) <= s.len(),
        s.subrange(i, i + varint_len(v) as int) == varint_bytes(v),
    ensures
        group_value(s, i, i + varint_len(v) - 1) == v,
    decreases v,
{
    let len = varint_len(v) as int;
    if v < 0x80 {
        assert(varint_bytes(v) == seq![v as u8]);
        assert(s[i] == s.subrange(i, i + 1)[0]);
    } else {
        let v2 = v / 0x80;
        let len2 = varint_len(v2) as int;
        assert(varint_bytes(v) == seq![(v % 0x80 + 0x80) as u8] + varint_bytes(v2));
        assert(s.subrange(i + 1, i + 1 + len2) =~= varint_bytes(v2)) by {
            assert forall|j: int| 0 <= j < len2 implies s.subrange(i + 1, i + 1 + len2)[j]
                == varint_bytes(v2)[j] by {
                assert(s.subrange(i, i + len)[j + 1] == varint_bytes(v)[j + 1]);
            }
        }
        lemma_group_value_of_encoding(s, i + 1, v2);
        assert(s[i] == s.subrange(i, i + len)[0]);
        assert(group_value(s, i, i + len - 1) == (s[i] % 0x80) as nat + 0x80 * group_value(
            s,
            i + 1,
            i + len - 1,
        ));
    }
}

/// Decoding at the start of a canonical 64-bit encoding recovers the encoded
/// value and consumes exactly the encoding.
pub proof fn lemma_decode64_of_encoding(s: Seq<u8>, i: int, v: u64)
    requires
        0 <= i,
        i + varint_len(v as nat) <= s.len(),
        s.subrange(i, i + varint_len(v as nat) as int) == varint_bytes(v as nat),
    ensures
        decode_varint64_spec(s, i) == Ok::<(nat, int), WireError>(
            (v as nat, i + varint_len(v as nat)),
        ),
{
    lemma_varint_bytes_shape(v as nat);
    lemma_group_value_of_encoding(s, i, v as nat);
    lemma_pow128_values();
    let len = varint_len(v as nat) as int;
    if len > 10 {
        lemma_pow128_monotone(10, (len - 1) as nat);
        assert(false);
    }
    assert forall|j: int| i <= j < i + len - 1 implies s[j] >= 0x80 by {
        assert(s[j] == s.subrange(i, i + len)[j - i]);
    }
    assert(s[i + len - 1] == s.subrange(i, i + len)[len - 1]);
    lemma_terminator_skip(s, i, i + len - 1);
    assert(terminator_from(s, i) == Some(i + len - 1));
    if len == 10 {
        assert((v as nat) / pow128(9) <= 1) by (nonlinear_arith)
            requires
                (v as nat) < 0x1_0000_0000_0000_0000,
                pow128(9) == 0x8000_0000_0000_0000,
        ;
    }
}

/// Decoding at the start of a canonical 32-bit encoding recovers the encoded
/// value and consumes exactly the encoding.
pub proof fn lemma_decode32_of_encoding(s: Seq<u8>, i: int, v: u32)
    requires
        0 <= i,
        i + varint_len(v as nat) <= s.len(),
        s.subrange(i, i + varint_len(v as nat) as int) == varint_bytes(v as nat),
    ensures
        decode_varint32_spec(s, i) == Ok::<(nat, int), WireError>(
            (v as nat, i + varint_len(v as nat)),
        ),
{
    lemma_varint_bytes_shape(v as nat);
    lemma_group_value_of_encoding(s, i, v as nat);
    lemma_pow128_values();
    let len = varint_len(v as nat) as int;
    if len > 5 {
        lemma_pow128_monotone(5, (len - 1) as nat);
        assert(false);
    }
    assert forall|j: int| i <= j < i + len - 1 implies s[j] >= 0x80 by {
        assert(s[j] == s.subrange(i, i + len)[j - i]);
    }
    assert(s[i + len - 1] == s.subrange(i, i + len)[len - 1]);
    lemma_terminator_skip(s, i, i + len - 1);
    assert(terminator_from(s, i) == Some(i + len - 1));
    if len == 5 {
        assert((v as nat) / pow128(4) <= 0x0F) by (nonlinear_arith)
            requires
                (v as nat) < 0x1_0000_0000,
                pow128(4) == 0x1000_0000,
        ;
    }
}

/// Round trip: decoding the canonical encoding of any 32-bit value yields
/// that value back and consumes the whole encoding.
pub proof fn lemma_varint_u32_round_trip(v: u32)
    ensures
        decode_varint32_spec(varint_bytes(v as nat), 0) == Ok::<(nat, int), WireError>(
            (v as nat, varint_len(v as nat) as int),
        ),
{
    let b = varint_bytes(v as nat);
    assert(b.subrange(0, varint_len(v as nat) as int) =~= b);
    lemma_decode32_of_encoding(b, 0, v);
}

/// Round trip: decoding the canonical encoding of any 64-bit value yields
/// that value back and consumes the whole encoding.
pub proof fn lemma_varint_u64_round_trip(v: u64)
    ensures
        decode_varint64_spec(varint_bytes(v as nat), 0) == Ok::<(nat, int), WireError>(
            (v as nat, varint_len(v as nat) as int),
        ),
{
    let b = varint_bytes(v as nat);
    assert(b.subrange(0, varint_len(v as nat) as int) =~= b);
    lemma_decode64_of_encoding(b, 0, v);
}

} // verus!
