//! Sequential decode cursor over an immutable byte buffer.
//!
//! A `ReaderImpl` owns its buffer for its lifetime and advances a position
//! monotonically as typed reads consume bytes. Every operation checks bounds
//! and reports a `WireError` instead of reading past the end; a failed read
//! leaves the reader exactly as it was.

use vstd::prelude::*;

use crate::error::WireError;
use crate::fixed::{decode_fixed32_at, decode_fixed64_at, le32_value, le64_value};
use crate::varint::{
    decode_varint32_at, decode_varint32_spec, decode_varint64_at, decode_varint64_spec,
    lemma_decode32_end_bounds, lemma_decode64_end_bounds, lemma_decode64_of_encoding,
    varint_bytes, varint_len,
};
use crate::zigzag::unzigzag_spec;
use vstd::string::StringSliceAdditionalSpecFns;
use vstd::utf8::{
    decode_utf8, encode_utf8, encode_utf8_decode_utf8, encode_utf8_valid_utf8, valid_utf8,
};

verus! {

/// How a reader reports a varint decode failure: a buffer that ends
/// mid-varint is an underflow of the requested read; other failures pass
/// through.
pub open spec fn reader_varint_err(e: WireError) -> WireError {
    if e == WireError::IncompleteVarint {
        WireError::BufferUnderflow
    } else {
        e
    }
}

/// The length-delimited read at `i`: a varint length, then that many payload
/// bytes. Underflows when the payload would run past the end of the buffer.
pub open spec fn ldelim_spec(s: Seq<u8>, i: int) -> Result<(Seq<u8>, int), WireError> {
    match decode_varint64_spec(s, i) {
        Ok((n, p)) => if p + n <= s.len() {
            Ok((s.subrange(p, p + n), p + n))
        } else {
            Err(WireError::BufferUnderflow)
        },
        Err(e) => Err(reader_varint_err(e)),
    }
}

/// Round trip for length-delimited fields: a payload laid down as the varint
/// of its length followed by the payload itself is read back whole, and the
/// cursor lands just past it.
pub proof fn lemma_ldelim_round_trip(s: Seq<u8>, i: int, payload: Seq<u8>)
    requires
        0 <= i,
        payload.len() <= u64::MAX,
        i + varint_len(payload.len()) + payload.len() <= s.len(),
        s.subrange(i, i + varint_len(payload.len()) + payload.len()) == varint_bytes(
            payload.len(),
        ) + payload,
    ensures
        ldelim_spec(s, i) == Ok::<(Seq<u8>, int), WireError>(
            (payload, i + varint_len(payload.len()) + payload.len()),
        ),
{
    let n = payload.len() as int;
    let l = varint_len(payload.len()) as int;
    let whole = s.subrange(i, i + l + n);
    assert(s.subrange(i, i + l) =~= varint_bytes(payload.len())) by {
        assert forall|j: int| 0 <= j < l implies s.subrange(i, i + l)[j] == varint_bytes(
            payload.len(),
        )[j] by {
            assert(whole[j] == (varint_bytes(payload.len()) + payload)[j]);
        }
    }
    lemma_decode64_of_encoding(s, i, payload.len() as u64);
    assert(s.subrange(i + l, i + l + n) =~= payload) by {
        assert forall|j: int| 0 <= j < n implies s.subrange(i + l, i + l + n)[j] == payload[j] by {
            assert(whole[j + l] == (varint_bytes(payload.len()) + payload)[j + l]);
        }
    }
}

/// Round trip for `string` fields: the bytes a writer lays down for any text
/// — the varint of its UTF-8 length, then its UTF-8 encoding — are read back
/// as a valid payload that decodes to that same text.
pub proof fn lemma_string_round_trip(s: Seq<u8>, i: int, text: Seq<char>)
    requires
        0 <= i,
        encode_utf8(text).len() <= u64::MAX,
        i + varint_len(encode_utf8(text).len()) + encode_utf8(text).len() <= s.len(),
        s.subrange(i, i + varint_len(encode_utf8(text).len()) + encode_utf8(text).len())
            == varint_bytes(encode_utf8(text).len()) + encode_utf8(text),
    ensures
        ldelim_spec(s, i) is Ok,
        ldelim_spec(s, i)->Ok_0.0 == encode_utf8(text),
        valid_utf8(ldelim_spec(s, i)->Ok_0.0),
        decode_utf8(ldelim_spec(s, i)->Ok_0.0) == text,
        ldelim_spec(s, i)->Ok_0.1 == i + varint_len(encode_utf8(text).len()) + encode_utf8(
            text,
        ).len(),
{
    lemma_ldelim_round_trip(s, i, encode_utf8(text));
    encode_utf8_valid_utf8(text);
    encode_utf8_decode_utf8(text);
}

/// Where the cursor stands after skipping one field of wire type
/// `wire_type` starting at `i`, when the skip succeeds: a varint is consumed
/// whole, fixed-width fields take their exact width, a length-delimited
/// field takes its length varint plus its payload, and a start-group tag
/// consumes tags and nested fields up to its matching end-group tag. Wire
/// type 4 (a bare end group) and anything above 5 never succeed.
pub open spec fn skip_field_end(s: Seq<u8>, i: int, wire_type: nat) -> Option<int>
    decreases s.len() - i, 1nat,
{
    if wire_type == 0 {
        match decode_varint64_spec(s, i) {
            Ok((v, p)) => Some(p),
            Err(e) => None,
        }
    } else if wire_type == 1 {
        if i + 8 <= s.len() {
            Some(i + 8)
        } else {
            None
        }
    } else if wire_type == 2 {
        match decode_varint64_spec(s, i) {
            Ok((n, p)) => if p + n <= s.len() {
                Some(p + n)
            } else {
                None
            },
            Err(e) => None,
        }
    } else if wire_type == 3 {
        skip_group_end(s, i)
    } else if wire_type == 5 {
        if i + 4 <= s.len() {
            Some(i + 4)
        } else {
            None
        }
    } else {
        None
    }
}

/// Where the cursor stands after the matching end-group tag, reading tags
/// and skipping their fields from `i` on.
pub open spec fn skip_group_end(s: Seq<u8>, i: int) -> Option<int>
    decreases s.len() - i, 0nat,
{
    match decode_varint32_spec(s, i) {
        Ok((tag, p)) => if tag % 8 == 4 {
            Some(p)
        } else if i < p <= s.len() {
            match skip_field_end(s, p, tag % 8) {
                Some(q) => if p < q <= s.len() {
                    skip_group_end(s, q)
                } else {
                    None
                },
                None => None,
            }
        } else {
            None
        },
        Err(e) => None,
    }
}

/// A successful skip moves the cursor forward and keeps it in the buffer.
pub proof fn lemma_skip_field_end_bounds(s: Seq<u8>, i: int, wire_type: nat)
    requires
        skip_field_end(s, i, wire_type) is Some,
    ensures
        i < skip_field_end(s, i, wire_type)->Some_0 <= s.len(),
    decreases s.len() - i, 1nat,
{
    if wire_type == 0 || wire_type == 2 {
        lemma_decode64_end_bounds(s, i);
    } else if wire_type == 3 {
        lemma_skip_group_end_bounds(s, i);
    }
}

/// A successful group skip moves the cursor forward and keeps it in the
/// buffer.
pub proof fn lemma_skip_group_end_bounds(s: Seq<u8>, i: int)
    requires
        skip_group_end(s, i) is Some,
    ensures
        i < skip_group_end(s, i)->Some_0 <= s.len(),
    decreases s.len() - i, 0nat,
{
    match decode_varint32_spec(s, i) {
        Ok((tag, p)) => {
            lemma_decode32_end_bounds(s, i);
            if tag % 8 != 4 {
                match skip_field_end(s, p, tag % 8) {
                    Some(q) => {
                        if p < q <= s.len() {
                            lemma_skip_group_end_bounds(s, q);
                        }
                    },
                    None => {},
                }
            }
        },
        Err(e) => {},
    }
}

#[verifier::external_type_specification]
#[verifier::external_body]
pub struct ExUtf8Error(core::str::Utf8Error);

/// Relies on core::str::from_utf8: it succeeds exactly on well-formed UTF-8
/// input and returns a string slice over those same bytes.
pub assume_specification[ core::str::from_utf8 ](v: &[u8]) -> (r: Result<
    &str,
    core::str::Utf8Error,
>)
    ensures
        r is Ok <==> valid_utf8(v@),
        r is Ok ==> r->Ok_0.spec_bytes() == v@,
;

/// A cursor over an immutable byte buffer. `spec_bytes` never changes over
/// the reader's lifetime; `spec_pos` only moves forward, except through
/// `reset`.
pub struct ReaderImpl {
    buf: Vec<u8>,
    pos: usize,
}

impl ReaderImpl {
    /// The buffer under the cursor.
    pub closed spec fn spec_bytes(self) -> Seq<u8> {
        self.buf@
    }

    /// The cursor position, always within `0 ..= spec_bytes().len()`.
    pub closed spec fn spec_pos(self) -> int {
        self.pos as int
    }

    #[verifier::type_invariant]
    spec fn wf(self) -> bool {
        self.pos <= self.buf@.len()
    }

    /// Creates a reader positioned at the start of `buf`.
    pub fn new(buf: Vec<u8>) -> (r: ReaderImpl)
        ensures
            r.spec_bytes() == buf@,
            r.spec_pos() == 0,
    {
        ReaderImpl { buf, pos: 0 }
    }

    /// Current position in the buffer.
    pub fn pos(&self) -> (r: usize)
        ensures
            r == self.spec_pos(),
    {
        self.pos
    }

    /// Total length of the buffer.
    pub fn len(&self) -> (r: usize)
        ensures
            r == self.spec_bytes().len(),
    {
        self.buf.len()
    }

    /// Whether the cursor has reached the end of the buffer.
    pub fn is_empty(&self) -> (r: bool)
        ensures
            r == (self.spec_pos() >= self.spec_bytes().len()),
    {
        self.pos >= self.buf.len()
    }

    /// Number of bytes left between the cursor and the end of the buffer.
    pub fn remaining(&self) -> (r: usize)
        ensures
            r == self.spec_bytes().len() - self.spec_pos(),
    {
        proof {
            use_type_invariant(&*self);
        }
        self.buf.len() - self.pos
    }

    /// Moves the cursor back to the start; the buffer is unchanged.
    pub fn reset(&mut self)
        ensures
            final(self).spec_bytes() == old(self).spec_bytes(),
            final(self).spec_pos() == 0,
    {
        self.pos = 0;
    }

    /// Advances the cursor by `n` bytes. Fails with `BufferUnderflow`, and
    /// leaves the cursor in place, exactly when fewer than `n` bytes remain.
    pub fn skip(&mut self, n: usize) -> (r: Result<(), WireError>)
        ensures
            final(self).spec_bytes() == old(self).spec_bytes(),
            r is Ok <==> old(self).spec_pos() + n <= old(self).spec_bytes().len(),
            r is Ok ==> final(self).spec_pos() == old(self).spec_pos() + n,
            r is Err ==> r == Err::<(), WireError>(WireError::BufferUnderflow) && final(self).spec_pos() == old(self).spec_pos(),
    {
        proof {
            use_type_invariant(&*self);
        }
        if n > self.buf.len() - self.pos {
            return Err(WireError::BufferUnderflow);
        }
        self.pos = self.pos + n;
        Ok(())
    }

    /// Reads `n` bytes as a fresh buffer and advances past them. Fails with
    /// `BufferUnderflow`, leaving the cursor in place, exactly when fewer
    /// than `n` bytes remain.
    pub fn read_bytes(&mut self, n: usize) -> (r: Result<Vec<u8>, WireError>)
        ensures
            final(self).spec_bytes() == old(self).spec_bytes(),
            r is Ok <==> old(self).spec_pos() + n <= old(self).spec_bytes().len(),
            r is Ok ==> r->Ok_0@ == old(self).spec_bytes().subrange(
                old(self).spec_pos(),
                old(self).spec_pos() + n,
            ) && final(self).spec_pos() == old(self).spec_pos() + n,
            r is Err ==> r == Err::<Vec<u8>, WireError>(WireError::BufferUnderflow) && final(self).spec_pos() == old(self).spec_pos(),
    {
        proof {
            use_type_invariant(&*self);
        }
        if n > self.buf.len() - self.pos {
            return Err(WireError::BufferUnderflow);
        }
        let len: usize = self.buf.len();
        let mut out: Vec<u8> = Vec::new();
        let mut k: usize = 0;
        while k < n
            invariant
                k <= n,
                len == self.buf@.len(),
                self.pos + n <= len,
                out@ == self.buf@.subrange(self.pos as int, self.pos + k),
            decreases n - k,
        {
            out.push(self.buf[self.pos + k]);
            proof {
                assert(out@ =~= self.buf@.subrange(self.pos as int, self.pos + k + 1));
            }
            k = k + 1;
        }
        self.pos = self.pos + n;
        Ok(out)
    }

    /// Reads a strict 32-bit varint and advances past it. A buffer that ends
    /// mid-varint is reported as `BufferUnderflow`; an oversized value as
    /// `VarintOverflow`. A failed read leaves the cursor in place.
    pub fn read_varint32(&mut self) -> (r: Result<u32, WireError>)
        ensures
            final(self).spec_bytes() == old(self).spec_bytes(),
            match decode_varint32_spec(old(self).spec_bytes(), old(self).spec_pos()) {
                Ok((v, end)) => r is Ok && r->Ok_0 == v && final(self).spec_pos() == end,
                Err(e) => r == Err::<u32, WireError>(reader_varint_err(e)) && final(self).spec_pos() == old(self).spec_pos(),
            },
    {
        proof {
            use_type_invariant(&*self);
        }
        match decode_varint32_at(self.buf.as_slice(), self.pos) {
            Ok((v, end)) => {
                proof {
                    lemma_decode32_end_bounds(self.buf@, self.pos as int);
                }
                self.pos = end;
                Ok(v)
            },
            Err(WireError::IncompleteVarint) => Err(WireError::BufferUnderflow),
            Err(e) => Err(e),
        }
    }

    /// Reads a strict 64-bit varint and advances past it. A buffer that ends
    /// mid-varint is reported as `BufferUnderflow`. A failed read leaves the
    /// cursor in place.
    pub fn read_varint64(&mut self) -> (r: Result<u64, WireError>)
        ensures
            final(self).spec_bytes() == old(self).spec_bytes(),
            match decode_varint64_spec(old(self).spec_bytes(), old(self).spec_pos()) {
                Ok((v, end)) => r is Ok && r->Ok_0 == v && final(self).spec_pos() == end,
                Err(e) => r == Err::<u64, WireError>(reader_varint_err(e)) && final(self).spec_pos() == old(self).spec_pos(),
            },
    {
        proof {
            use_type_invariant(&*self);
        }
        match decode_varint64_at(self.buf.as_slice(), self.pos) {
            Ok((v, end)) => {
                proof {
                    lemma_decode64_end_bounds(self.buf@, self.pos as int);
                }
                self.pos = end;
                Ok(v)
            },
            Err(WireError::IncompleteVarint) => Err(WireError::BufferUnderflow),
            Err(e) => Err(e),
        }
    }

    /// Reads an `int32` field: a 64-bit varint whose low 32 bits carry the
    /// value (a negative `int32` is sign-extended on the wire).
    pub fn read_int32(&mut self) -> (r: Result<i32, WireError>)
        ensures
            final(self).spec_bytes() == old(self).spec_bytes(),
            match decode_varint64_spec(old(self).spec_bytes(), old(self).spec_pos()) {
                Ok((v, end)) => r is Ok && r->Ok_0 == v as u64 as i32 && final(self).spec_pos()
                    == end,
                Err(e) => r == Err::<i32, WireError>(reader_varint_err(e)) && final(self).spec_pos() == old(self).spec_pos(),
            },
    {
        match self.read_varint64() {
            Ok(v) => Ok(
                #[verifier::truncate]
                (v as i32),
            ),
            Err(e) => Err(e),
        }
    }

    /// Reads an `int64` field: a 64-bit varint reinterpreted as signed.
    pub fn read_int64(&mut self) -> (r: Result<i64, WireError>)
        ensures
            final(self).spec_bytes() == old(self).spec_bytes(),
            match decode_varint64_spec(old(self).spec_bytes(), old(self).spec_pos()) {
                Ok((v, end)) => r is Ok && r->Ok_0 == v as u64 as i64 && final(self).spec_pos()
                    == end,
                Err(e) => r == Err::<i64, WireError>(reader_varint_err(e)) && final(self).spec_pos() == old(self).spec_pos(),
            },
    {
        match self.read_varint64() {
            Ok(v) => Ok(
                #[verifier::truncate]
                (v as i64),
            ),
            Err(e) => Err(e),
        }
    }

    /// Reads a `sint32` field: a 32-bit varint carrying a ZigZag image.
    pub fn read_sint32(&mut self) -> (r: Result<i32, WireError>)
        ensures
            final(self).spec_bytes() == old(self).spec_bytes(),
            match decode_varint32_spec(old(self).spec_bytes(), old(self).spec_pos()) {
                Ok((v, end)) => r is Ok && r->Ok_0 == unzigzag_spec(v) && final(self).spec_pos()
                    == end,
                Err(e) => r == Err::<i32, WireError>(reader_varint_err(e)) && final(self).spec_pos() == old(self).spec_pos(),
            },
    {
        match self.read_varint32() {
            Ok(v) => Ok(crate::zigzag::decode_zigzag32(v)),
            Err(e) => Err(e),
        }
    }

    /// Reads a `sint64` field: a 64-bit varint carrying a ZigZag image.
    pub fn read_sint64(&mut self) -> (r: Result<i64, WireError>)
        ensures
            final(self).spec_bytes() == old(self).spec_bytes(),
            match decode_varint64_spec(old(self).spec_bytes(), old(self).spec_pos()) {
                Ok((v, end)) => r is Ok && r->Ok_0 == unzigzag_spec(v) && final(self).spec_pos()
                    == end,
                Err(e) => r == Err::<i64, WireError>(reader_varint_err(e)) && final(self).spec_pos() == old(self).spec_pos(),
            },
    {
        match self.read_varint64() {
            Ok(v) => Ok(crate::zigzag::decode_zigzag(v)),
            Err(e) => Err(e),
        }
    }

    /// Reads a `bool` field: a 32-bit varint, true when non-zero.
    pub fn read_bool(&mut self) -> (r: Result<bool, WireError>)
        ensures
            final(self).spec_bytes() == old(self).spec_bytes(),
            match decode_varint32_spec(old(self).spec_bytes(), old(self).spec_pos()) {
                Ok((v, end)) => r is Ok && r->Ok_0 == (v != 0) && final(self).spec_pos() == end,
                Err(e) => r == Err::<bool, WireError>(reader_varint_err(e)) && final(self).spec_pos() == old(self).spec_pos(),
            },
    {
        match self.read_varint32() {
            Ok(v) => Ok(v != 0),
            Err(e) => Err(e),
        }
    }

    /// Reads a little-endian `fixed32` value. Fails with `BufferUnderflow`,
    /// leaving the cursor in place, exactly when fewer than four bytes
    /// remain.
    pub fn read_fixed32(&mut self) -> (r: Result<u32, WireError>)
        ensures
            final(self).spec_bytes() == old(self).spec_bytes(),
            r is Ok <==> old(self).spec_pos() + 4 <= old(self).spec_bytes().len(),
            r is Ok ==> r->Ok_0 == le32_value(old(self).spec_bytes(), old(self).spec_pos())
                && final(self).spec_pos() == old(self).spec_pos() + 4,
            r is Err ==> r == Err::<u32, WireError>(WireError::BufferUnderflow) && final(self).spec_pos() == old(self).spec_pos(),
    {
        proof {
            use_type_invariant(&*self);
        }
        if 4 > self.buf.len() - self.pos {
            return Err(WireError::BufferUnderflow);
        }
        let v = decode_fixed32_at(self.buf.as_slice(), self.pos);
        self.pos = self.pos + 4;
        Ok(v)
    }

    /// Reads a little-endian `sfixed32` value: the same four bytes
    /// reinterpreted as a signed integer.
    pub fn read_sfixed32(&mut self) -> (r: Result<i32, WireError>)
        ensures
            final(self).spec_bytes() == old(self).spec_bytes(),
            r is Ok <==> old(self).spec_pos() + 4 <= old(self).spec_bytes().len(),
            r is Ok ==> r->Ok_0 == le32_value(old(self).spec_bytes(), old(self).spec_pos()) as u32
                as i32 && final(self).spec_pos() == old(self).spec_pos() + 4,
            r is Err ==> r == Err::<i32, WireError>(WireError::BufferUnderflow) && final(self).spec_pos() == old(self).spec_pos(),
    {
        match self.read_fixed32() {
            Ok(v) => Ok(
                #[verifier::truncate]
                (v as i32),
            ),
            Err(e) => Err(e),
        }
    }

    /// Reads a little-endian `fixed64` value. Fails with `BufferUnderflow`,
    /// leaving the cursor in place, exactly when fewer than eight bytes
    /// remain.
    pub fn read_fixed64(&mut self) -> (r: Result<u64, WireError>)
        ensures
            final(self).spec_bytes() == old(self).spec_bytes(),
            r is Ok <==> old(self).spec_pos() + 8 <= old(self).spec_bytes().len(),
            r is Ok ==> r->Ok_0 == le64_value(old(self).spec_bytes(), old(self).spec_pos())
                && final(self).spec_pos() == old(self).spec_pos() + 8,
            r is Err ==> r == Err::<u64, WireError>(WireError::BufferUnderflow) && final(self).spec_pos() == old(self).spec_pos(),
    {
        proof {
            use_type_invariant(&*self);
        }
        if 8 > self.buf.len() - self.pos {
            return Err(WireError::BufferUnderflow);
        }
        let v = decode_fixed64_at(self.buf.as_slice(), self.pos);
        self.pos = self.pos + 8;
        Ok(v)
    }

    /// Reads a little-endian `sfixed64` value: the same eight bytes
    /// reinterpreted as a signed integer.
    pub fn read_sfixed64(&mut self) -> (r: Result<i64, WireError>)
        ensures
            final(self).spec_bytes() == old(self).spec_bytes(),
            r is Ok <==> old(self).spec_pos() + 8 <= old(self).spec_bytes().len(),
            r is Ok ==> r->Ok_0 == le64_value(old(self).spec_bytes(), old(self).spec_pos()) as u64
                as i64 && final(self).spec_pos() == old(self).spec_pos() + 8,
            r is Err ==> r == Err::<i64, WireError>(WireError::BufferUnderflow) && final(self).spec_pos() == old(self).spec_pos(),
    {
        match self.read_fixed64() {
            Ok(v) => Ok(
                #[verifier::truncate]
                (v as i64),
            ),
            Err(e) => Err(e),
        }
    }

    /// Reads a length-delimited field — a varint length, then that many
    /// payload bytes — returning the payload as a fresh buffer. A failed
    /// read leaves the cursor in place.
    pub fn read_length_delimited(&mut self) -> (r: Result<Vec<u8>, WireError>)
        ensures
            final(self).spec_bytes() == old(self).spec_bytes(),
            match ldelim_spec(old(self).spec_bytes(), old(self).spec_pos()) {
                Ok((payload, end)) => r is Ok && r->Ok_0@ == payload && final(self).spec_pos()
                    == end,
                Err(e) => r == Err::<Vec<u8>, WireError>(e) && final(self).spec_pos() == old(
                    self,
                ).spec_pos(),
            },
    {
        proof {
            use_type_invariant(&*self);
        }
        let start = self.pos;
        let n64 = match self.read_varint64() {
            Ok(n64) => n64,
            Err(e) => {
                return Err(e);
            },
        };
        proof {
            use_type_invariant(&*self);
        }
        let rem = self.buf.len() - self.pos;
        if n64 > rem as u64 {
            self.pos = start;
            return Err(WireError::BufferUnderflow);
        }
        match self.read_bytes(n64 as usize) {
            Ok(payload) => Ok(payload),
            Err(e) => Err(e),
        }
    }

    /// Reads a length-delimited UTF-8 string. Fails with `InvalidUtf8`,
    /// leaving the cursor in place, when the payload is present but not
    /// valid UTF-8; the whole read fails or succeeds atomically.
    pub fn read_string(&mut self) -> (r: Result<String, WireError>)
        ensures
            final(self).spec_bytes() == old(self).spec_bytes(),
            match ldelim_spec(old(self).spec_bytes(), old(self).spec_pos()) {
                Ok((payload, end)) => if valid_utf8(payload) {
                    &&& r is Ok
                    &&& encode_utf8(r->Ok_0@) == payload
                    &&& final(self).spec_pos() == end
                } else {
                    &&& r == Err::<String, WireError>(WireError::InvalidUtf8)
                    &&& final(self).spec_pos() == old(self).spec_pos()
                },
                Err(e) => r == Err::<String, WireError>(e) && final(self).spec_pos() == old(
                    self,
                ).spec_pos(),
            },
    {
        let start = self.pos;
        let payload = match self.read_length_delimited() {
            Ok(payload) => payload,
            Err(e) => {
                return Err(e);
            },
        };
        match core::str::from_utf8(payload.as_slice()) {
            Ok(text) => Ok(text.to_owned()),
            Err(_) => {
                self.pos = start;
                Err(WireError::InvalidUtf8)
            },
        }
    }

    /// Skips one field of the given wire type: a varint is consumed whole, a
    /// fixed-width field takes its width, a length-delimited field its
    /// length varint plus payload, and a start group everything up to its
    /// matching end-group tag. A bare end group or a wire type above 5 fails
    /// with `InvalidWireType`.
    pub fn skip_type(&mut self, wire_type: u32) -> (r: Result<(), WireError>)
        ensures
            final(self).spec_bytes() == old(self).spec_bytes(),
            match skip_field_end(old(self).spec_bytes(), old(self).spec_pos(), wire_type as nat) {
                Some(p) => r is Ok && final(self).spec_pos() == p,
                None => r is Err && old(self).spec_pos() <= final(self).spec_pos() <= old(
                    self,
                ).spec_bytes().len(),
            },
            wire_type == 4 || wire_type > 5 ==> r == Err::<(), WireError>(WireError::InvalidWireType)
                && final(self).spec_pos() == old(self).spec_pos(),
        decreases old(self).spec_bytes().len() - old(self).spec_pos(), 1int,
    {
        proof {
            use_type_invariant(&*self);
        }
        if wire_type == 0 {
            match self.read_varint64() {
                Ok(v) => Ok(()),
                Err(e) => Err(e),
            }
        } else if wire_type == 1 {
            self.skip(8)
        } else if wire_type == 2 {
            let start = self.pos;
            let n64 = match self.read_varint64() {
                Ok(n64) => n64,
                Err(e) => {
                    return Err(e);
                },
            };
            proof {
                use_type_invariant(&*self);
            }
            let rem = self.buf.len() - self.pos;
            if n64 > rem as u64 {
                self.pos = start;
                return Err(WireError::BufferUnderflow);
            }
            self.skip(n64 as usize)
        } else if wire_type == 3 {
            self.skip_group()
        } else if wire_type == 5 {
            self.skip(4)
        } else {
            Err(WireError::InvalidWireType)
        }
    }

    /// Skips tags and their fields until the matching end-group tag.
    fn skip_group(&mut self) -> (r: Result<(), WireError>)
        ensures
            final(self).spec_bytes() == old(self).spec_bytes(),
            match skip_group_end(old(self).spec_bytes(), old(self).spec_pos()) {
                Some(p) => r is Ok && final(self).spec_pos() == p,
                None => r is Err && old(self).spec_pos() <= final(self).spec_pos() <= old(
                    self,
                ).spec_bytes().len(),
            },
        decreases old(self).spec_bytes().len() - old(self).spec_pos(), 0int,
    {
        proof {
            use_type_invariant(&*self);
        }
        let ghost s: Seq<u8> = self.buf@;
        let ghost i0: int = self.pos as int;
        loop
            invariant
                s == old(self).spec_bytes(),
                i0 == old(self).spec_pos(),
                self.buf@ == s,
                i0 <= self.pos <= s.len(),
                skip_group_end(s, i0) == skip_group_end(s, self.pos as int),
            decreases s.len() - self.pos,
        {
            let ghost before: int = self.pos as int;
            let tag = match self.read_varint32() {
                Ok(tag) => tag,
                Err(e) => {
                    return Err(e);
                },
            };
            proof {
                lemma_decode32_end_bounds(s, before);
            }
            let wt = tag % 8;
            if wt == 4 {
                return Ok(());
            }
            let ghost p: int = self.pos as int;
            match self.skip_type(wt) {
                Ok(()) => {
                    proof {
                        lemma_skip_field_end_bounds(s, p, wt as nat);
                    }
                },
                Err(e) => {
                    return Err(e);
                },
            }
        }
    }
}

} // verus!
