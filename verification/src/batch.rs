//! Batch varint codec: many 32-bit values in one contiguous buffer.
//!
//! The batch encoding of a sequence of values is simply the concatenation of
//! their varints; decoding reads varints back to back until the buffer is
//! exhausted.

use vstd::prelude::*;

use crate::error::WireError;
use crate::varint::{
    decode_varint32_at, decode_varint32_spec, encode_varint_u32, lemma_decode32_end_bounds,
    varint_bytes,
};

verus! {

/// The concatenation of the canonical encodings of `vals`, in order.
pub open spec fn batch_bytes(vals: Seq<u32>) -> Seq<u8>
    decreases vals.len(),
{
    if vals.len() == 0 {
        Seq::empty()
    } else {
        varint_bytes(vals[0] as nat) + batch_bytes(vals.drop_first())
    }
}

/// Encoding one more value appends its varint to the batch.
pub proof fn lemma_batch_bytes_snoc(vals: Seq<u32>, n: int)
    requires
        0 <= n < vals.len(),
    ensures
        batch_bytes(vals.take(n + 1)) == batch_bytes(vals.take(n)) + varint_bytes(vals[n] as nat),
    decreases n,
{
    let a = vals.take(n + 1);
    let b = vals.take(n);
    if n == 0 {
        assert(a.drop_first() =~= Seq::<u32>::empty());
        assert(batch_bytes(a.drop_first()) =~= Seq::<u8>::empty());
        assert(batch_bytes(b) =~= Seq::<u8>::empty());
        assert(varint_bytes(vals[0] as nat) + Seq::<u8>::empty() =~= varint_bytes(
            vals[0] as nat,
        ));
        assert(batch_bytes(b) + varint_bytes(vals[0] as nat) =~= varint_bytes(vals[0] as nat));
        assert(a[0] == vals[0]);
        assert(batch_bytes(a) =~= batch_bytes(b) + varint_bytes(vals[0] as nat));
    } else {
        lemma_batch_bytes_snoc(vals.drop_first(), n - 1);
        assert(a.drop_first() =~= vals.drop_first().take(n));
        assert(b.drop_first() =~= vals.drop_first().take(n - 1));
        assert(batch_bytes(a) == varint_bytes(vals[0] as nat) + batch_bytes(
            vals.drop_first().take(n),
        ));
        assert(vals.drop_first()[n - 1] == vals[n]);
        assert(batch_bytes(a) =~= batch_bytes(b) + varint_bytes(vals[n] as nat));
    }
}

/// The strict batch decode of `s` from `i` to the end of the buffer: the
/// decoded values in order, or the first error met.
pub open spec fn decode_batch_spec(s: Seq<u8>, i: int) -> Result<Seq<u32>, WireError>
    decreases s.len() - i,
    via decode_batch_spec_dec
{
    if i >= s.len() {
        Ok(Seq::empty())
    } else {
        match decode_varint32_spec(s, i) {
            Ok((v, end)) => match decode_batch_spec(s, end) {
                Ok(rest) => Ok(seq![v as u32] + rest),
                Err(e) => Err(e),
            },
            Err(e) => Err(e),
        }
    }
}

#[via_fn]
proof fn decode_batch_spec_dec(s: Seq<u8>, i: int) {
    if i < s.len() {
        if decode_varint32_spec(s, i) is Ok {
            lemma_decode32_end_bounds(s, i);
        }
    }
}

/// Encodes every value of `values` into one buffer, varints back to back in
/// the order given.
pub fn encode_varint_batch_scalar(values: &[u32]) -> (r: Vec<u8>)
    ensures
        r@ == batch_bytes(values@),
{
    let mut out: Vec<u8> = Vec::new();
    let mut n: usize = 0;
    while n < values.len()
        invariant
            n <= values@.len(),
            out@ == batch_bytes(values@.take(n as int)),
        decreases values@.len() - n,
    {
        encode_varint_u32(values[n], &mut out);
        proof {
            lemma_batch_bytes_snoc(values@, n as int);
        }
        n = n + 1;
    }
    proof {
        assert(values@.take(n as int) =~= values@);
    }
    out
}

/// Decodes varints back to back until the buffer is exhausted, failing on
/// the first malformed or unterminated varint.
pub fn decode_varint_batch_scalar(buffer: &[u8]) -> (r: Result<Vec<u32>, WireError>)
    ensures
        match decode_batch_spec(buffer@, 0) {
            Ok(vals) => r is Ok && r->Ok_0@ == vals,
            Err(e) => r == Err::<Vec<u32>, WireError>(e),
        },
{
    let ghost s: Seq<u8> = buffer@;
    let len: usize = buffer.len();
    let mut out: Vec<u32> = Vec::new();
    let mut pos: usize = 0;
    while pos < len
        invariant
            pos <= len,
            len == s.len(),
            s == buffer@,
            decode_batch_spec(s, 0) == (match decode_batch_spec(s, pos as int) {
                Ok(rest) => Ok::<Seq<u32>, WireError>(out@ + rest),
                Err(e) => Err::<Seq<u32>, WireError>(e),
            }),
        decreases len - pos,
    {
        match decode_varint32_at(buffer, pos) {
            Ok((v, end)) => {
                proof {
                    lemma_decode32_end_bounds(s, pos as int);
                }
                let ghost prev: Seq<u32> = out@;
                out.push(v);
                proof {
                    match decode_batch_spec(s, end as int) {
                        Ok(rest) => {
                            assert(decode_batch_spec(s, pos as int) == Ok::<Seq<u32>, WireError>(
                                seq![v] + rest,
                            ));
                            assert(prev + (seq![v] + rest) =~= out@ + rest);
                        },
                        Err(_) => {},
                    }
                }
                pos = end;
            },
            Err(e) => {
                return Err(e);
            },
        }
    }
    proof {
        assert(out@ + Seq::<u32>::empty() =~= out@);
    }
    Ok(out)
}

} // verus!
