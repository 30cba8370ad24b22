//! Appendable encode buffer with a fork/commit stack.
//!
//! A `WriterImpl` collects typed writes into a growing byte buffer. A
//! length-prefixed sub-message whose size is not yet known is written by
//! `fork` — which sets the bytes written so far aside and starts a fresh
//! section — and closed by `ldelim`, which rejoins the saved bytes, the
//! varint of the section's length, and the section itself. Frames nest as a
//! stack, so an outer commit's length covers every inner section already
//! spliced in.

use vstd::prelude::*;
use vstd::string::StringSliceAdditionalSpecFns;
use vstd::utf8::encode_utf8;

use crate::error::WireError;
use crate::fixed::{encode_fixed32, encode_fixed64, le32_bytes, le64_bytes};
use crate::tag::{tag_value, valid_field_number, valid_wire_type};
use crate::varint::{encode_varint_u32, encode_varint_u64, varint_bytes};
use crate::zigzag::{encode_zigzag, encode_zigzag32, zigzag_spec};

verus! {

/// A saved fork frame: the bytes written before the fork opened, and their
/// count.
#[derive(Debug)]
pub struct State {
    /// Length of `buf` when the frame was pushed.
    pub len: usize,
    /// The bytes written before the fork opened.
    pub buf: Vec<u8>,
}

/// An append-only encode buffer plus a stack of fork frames. `spec_cur` is
/// the section being written; `spec_stack` holds the bytes set aside by each
/// open fork, outermost first.
pub struct WriterImpl {
    buf: Vec<u8>,
    states: Vec<State>,
}

impl WriterImpl {
    /// The bytes of the section currently being written.
    pub closed spec fn spec_cur(self) -> Seq<u8> {
        self.buf@
    }

    /// The bytes set aside by each open fork, outermost first.
    pub closed spec fn spec_stack(self) -> Seq<Seq<u8>> {
        self.states@.map_values(|st: State| st.buf@)
    }

    /// Creates an empty writer with no open fork.
    pub fn new() -> (r: WriterImpl)
        ensures
            r.spec_cur() == Seq::<u8>::empty(),
            r.spec_stack() == Seq::<Seq<u8>>::empty(),
    {
        let r = WriterImpl { buf: Vec::new(), states: Vec::new() };
        proof {
            assert(r.spec_stack() =~= Seq::<Seq<u8>>::empty());
        }
        r
    }

    /// Creates an empty writer whose buffer starts with room for about
    /// `capacity` bytes.
    pub fn with_capacity(capacity: usize) -> (r: WriterImpl)
        ensures
            r.spec_cur() == Seq::<u8>::empty(),
            r.spec_stack() == Seq::<Seq<u8>>::empty(),
    {
        let r = WriterImpl { buf: Vec::with_capacity(capacity), states: Vec::new() };
        proof {
            assert(r.spec_stack() =~= Seq::<Seq<u8>>::empty());
        }
        r
    }

    /// Number of bytes in the current section.
    pub fn len(&self) -> (r: usize)
        ensures
            r == self.spec_cur().len(),
    {
        self.buf.len()
    }

    /// Whether the current section is empty.
    pub fn is_empty(&self) -> (r: bool)
        ensures
            r == (self.spec_cur().len() == 0),
    {
        self.buf.is_empty()
    }

    /// Appends the varint of a 32-bit unsigned value.
    pub fn write_varint32(&mut self, value: u32)
        ensures
            final(self).spec_cur() == old(self).spec_cur() + varint_bytes(value as nat),
            final(self).spec_stack() == old(self).spec_stack(),
    {
        encode_varint_u32(value, &mut self.buf);
    }

    /// Appends the varint of a 64-bit unsigned value.
    pub fn write_varint64(&mut self, value: u64)
        ensures
            final(self).spec_cur() == old(self).spec_cur() + varint_bytes(value as nat),
            final(self).spec_stack() == old(self).spec_stack(),
    {
        encode_varint_u64(value, &mut self.buf);
    }

    /// Appends an `int32` field: sign-extended to 64 bits, so a negative
    /// value takes the full ten-byte varint.
    pub fn write_int32(&mut self, value: i32)
        ensures
            final(self).spec_cur() == old(self).spec_cur() + varint_bytes(
                (value as i64 as u64) as nat,
            ),
            final(self).spec_stack() == old(self).spec_stack(),
    {
        encode_varint_u64(
            #[verifier::truncate]
            (value as i64 as u64),
            &mut self.buf,
        );
    }

    /// Appends an `int64` field: the value's two's-complement bits as a
    /// varint.
    pub fn write_int64(&mut self, value: i64)
        ensures
            final(self).spec_cur() == old(self).spec_cur() + varint_bytes((value as u64) as nat),
            final(self).spec_stack() == old(self).spec_stack(),
    {
        encode_varint_u64(
            #[verifier::truncate]
            (value as u64),
            &mut self.buf,
        );
    }

    /// Appends a `sint32` field: the ZigZag image of the value as a varint.
    pub fn write_sint32(&mut self, value: i32)
        ensures
            final(self).spec_cur() == old(self).spec_cur() + varint_bytes(zigzag_spec(value as int)),
            final(self).spec_stack() == old(self).spec_stack(),
    {
        let z = encode_zigzag32(value);
        encode_varint_u32(z, &mut self.buf);
    }

    /// Appends a `sint64` field: the ZigZag image of the value as a varint.
    pub fn write_sint64(&mut self, value: i64)
        ensures
            final(self).spec_cur() == old(self).spec_cur() + varint_bytes(zigzag_spec(value as int)),
            final(self).spec_stack() == old(self).spec_stack(),
    {
        let z = encode_zigzag(value);
        encode_varint_u64(z, &mut self.buf);
    }

    /// Appends a `bool` field: one varint byte, 1 for true and 0 for false.
    pub fn write_bool(&mut self, value: bool)
        ensures
            final(self).spec_cur() == old(self).spec_cur() + varint_bytes(
                if value {
                    1
                } else {
                    0
                },
            ),
            final(self).spec_stack() == old(self).spec_stack(),
    {
        encode_varint_u32(if value { 1 } else { 0 }, &mut self.buf);
    }

    /// Appends a `fixed32` field: four little-endian bytes.
    pub fn write_fixed32(&mut self, value: u32)
        ensures
            final(self).spec_cur() == old(self).spec_cur() + le32_bytes(value as nat),
            final(self).spec_stack() == old(self).spec_stack(),
    {
        encode_fixed32(value, &mut self.buf);
    }

    /// Appends an `sfixed32` field: the value's two's-complement bits as
    /// four little-endian bytes.
    pub fn write_sfixed32(&mut self, value: i32)
        ensures
            final(self).spec_cur() == old(self).spec_cur() + le32_bytes((value as u32) as nat),
            final(self).spec_stack() == old(self).spec_stack(),
    {
        encode_fixed32(
            #[verifier::truncate]
            (value as u32),
            &mut self.buf,
        );
    }

    /// Appends a `fixed64` field: eight little-endian bytes.
    pub fn write_fixed64(&mut self, value: u64)
        ensures
            final(self).spec_cur() == old(self).spec_cur() + le64_bytes(value as nat),
            final(self).spec_stack() == old(self).spec_stack(),
    {
        encode_fixed64(value, &mut self.buf);
    }

    /// Appends an `sfixed64` field: the value's two's-complement bits as
    /// eight little-endian bytes.
    pub fn write_sfixed64(&mut self, value: i64)
        ensures
            final(self).spec_cur() == old(self).spec_cur() + le64_bytes((value as u64) as nat),
            final(self).spec_stack() == old(self).spec_stack(),
    {
        encode_fixed64(
            #[verifier::truncate]
            (value as u64),
            &mut self.buf,
        );
    }

    /// Appends raw bytes with no length prefix.
    pub fn write_bytes(&mut self, data: &[u8])
        ensures
            final(self).spec_cur() == old(self).spec_cur() + data@,
            final(self).spec_stack() == old(self).spec_stack(),
    {
        self.buf.extend_from_slice(data);
    }

    /// Appends a length-delimited field: the varint of `data`'s length, then
    /// `data` itself.
    pub fn write_len_delimited(&mut self, data: &[u8])
        ensures
            final(self).spec_cur() == old(self).spec_cur() + varint_bytes(data@.len()) + data@,
            final(self).spec_stack() == old(self).spec_stack(),
    {
        encode_varint_u64(data.len() as u64, &mut self.buf);
        self.buf.extend_from_slice(data);
    }

    /// Appends a length-delimited `string` field: the varint of the
    /// string's UTF-8 byte length, then those bytes.
    pub fn write_string(&mut self, value: &str)
        ensures
            final(self).spec_cur() == old(self).spec_cur() + varint_bytes(
                encode_utf8(value@).len(),
            ) + encode_utf8(value@),
            final(self).spec_stack() == old(self).spec_stack(),
    {
        let bytes = value.as_bytes();
        self.write_len_delimited(bytes);
    }

    /// Validates a field number and wire type, then appends their packed tag
    /// as a varint. Fails with `InvalidTag`, leaving the writer unchanged,
    /// exactly when a component is out of range.
    pub fn write_tag(&mut self, field_number: u32, wire_type: u32) -> (r: Result<(), WireError>)
        ensures
            final(self).spec_stack() == old(self).spec_stack(),
            r is Ok <==> valid_field_number(field_number as nat) && valid_wire_type(
                wire_type as nat,
            ),
            r is Ok ==> final(self).spec_cur() == old(self).spec_cur() + varint_bytes(
                tag_value(field_number as nat, wire_type as nat),
            ),
            r is Err ==> r == Err::<(), WireError>(WireError::InvalidTag) && final(self).spec_cur()
                == old(self).spec_cur(),
    {
        if field_number < 1 || field_number > 0x1FFF_FFFF {
            return Err(WireError::InvalidTag);
        }
        if 19000 <= field_number && field_number <= 19999 {
            return Err(WireError::InvalidTag);
        }
        if wire_type > 5 {
            return Err(WireError::InvalidTag);
        }
        let tag: u32 = field_number * 8 + wire_type;
        encode_varint_u32(tag, &mut self.buf);
        Ok(())
    }

    /// Opens a length-delimited section: sets the bytes written so far aside
    /// on the fork stack and starts an empty section.
    pub fn fork(&mut self)
        ensures
            final(self).spec_cur() == Seq::<u8>::empty(),
            final(self).spec_stack() == old(self).spec_stack().push(old(self).spec_cur()),
    {
        let mut saved: Vec<u8> = Vec::new();
        core::mem::swap(&mut saved, &mut self.buf);
        let frame_len = saved.len();
        self.states.push(State { len: frame_len, buf: saved });
        proof {
            assert(self.spec_stack() =~= old(self).spec_stack().push(old(self).spec_cur()));
        }
    }

    /// Commits the innermost open fork: the current section is prefixed with
    /// the varint of its own length and appended to the bytes saved by the
    /// matching `fork`. Fails with `NoOpenFork`, leaving the writer
    /// unchanged, exactly when no fork is open.
    pub fn ldelim(&mut self) -> (r: Result<(), WireError>)
        ensures
            r is Ok <==> old(self).spec_stack().len() > 0,
            r is Ok ==> final(self).spec_cur() == old(self).spec_stack().last() + varint_bytes(
                old(self).spec_cur().len(),
            ) + old(self).spec_cur() && final(self).spec_stack() == old(
                self,
            ).spec_stack().drop_last(),
            r is Err ==> r == Err::<(), WireError>(WireError::NoOpenFork) && final(self).spec_cur()
                == old(self).spec_cur() && final(self).spec_stack() == old(self).spec_stack(),
    {
        match self.states.pop() {
            None => {
                proof {
                    assert(self.spec_stack() =~= old(self).spec_stack());
                }
                Err(WireError::NoOpenFork)
            },
            Some(frame) => {
                let mut section: Vec<u8> = frame.buf;
                core::mem::swap(&mut section, &mut self.buf);
                encode_varint_u64(section.len() as u64, &mut self.buf);
                self.buf.extend_from_slice(section.as_slice());
                proof {
                    assert(self.spec_stack() =~= old(self).spec_stack().drop_last());
                    assert(old(self).spec_stack().last() == old(
                        self,
                    ).states@.last().buf@);
                }
                Ok(())
            },
        }
    }

    /// Hands back the bytes of the current section and leaves that section
    /// empty. Open fork frames are untouched: the caller is responsible for
    /// committing every fork before extracting output.
    pub fn finish(&mut self) -> (r: Vec<u8>)
        ensures
            r@ == old(self).spec_cur(),
            final(self).spec_cur() == Seq::<u8>::empty(),
            final(self).spec_stack() == old(self).spec_stack(),
    {
        let mut out: Vec<u8> = Vec::new();
        core::mem::swap(&mut out, &mut self.buf);
        out
    }

    /// Clears the buffer and the fork stack, keeping allocated capacity for
    /// reuse.
    pub fn reset(&mut self)
        ensures
            final(self).spec_cur() == Seq::<u8>::empty(),
            final(self).spec_stack() == Seq::<Seq<u8>>::empty(),
    {
        self.buf.clear();
        self.states.clear();
        proof {
            assert(self.spec_stack() =~= Seq::<Seq<u8>>::empty());
        }
    }
}

/// One typed write, as a plain value: the batch form of the writer's
/// individual write calls.
pub enum WriteOp {
    /// A 32-bit unsigned varint.
    Uint32(u32),
    /// An `int32` field, sign-extended to 64 bits on the wire.
    Int32(i32),
    /// A 64-bit unsigned varint.
    Uint64(u64),
    /// A `sint64` field: ZigZag then varint.
    Sint64(i64),
    /// A `bool` field.
    Bool(bool),
    /// A `fixed32` field, or the bits of a single-precision float.
    Fixed32(u32),
    /// A `fixed64` field, or the bits of a double-precision float.
    Fixed64(u64),
    /// A length-delimited byte field.
    Bytes(Vec<u8>),
    /// A length-delimited UTF-8 string field.
    Str(String),
}

/// The bytes one operation appends.
pub open spec fn write_op_bytes(op: WriteOp) -> Seq<u8> {
    match op {
        WriteOp::Uint32(v) => varint_bytes(v as nat),
        WriteOp::Int32(v) => varint_bytes((v as i64 as u64) as nat),
        WriteOp::Uint64(v) => varint_bytes(v as nat),
        WriteOp::Sint64(v) => varint_bytes(zigzag_spec(v as int)),
        WriteOp::Bool(b) => varint_bytes(if b { 1 } else { 0 }),
        WriteOp::Fixed32(v) => le32_bytes(v as nat),
        WriteOp::Fixed64(v) => le64_bytes(v as nat),
        WriteOp::Bytes(b) => varint_bytes(b@.len()) + b@,
        WriteOp::Str(t) => varint_bytes(encode_utf8(t@).len()) + encode_utf8(t@),
    }
}

/// The concatenation of the bytes of each operation, in order.
pub open spec fn ops_bytes(ops: Seq<WriteOp>) -> Seq<u8>
    decreases ops.len(),
{
    if ops.len() == 0 {
        Seq::empty()
    } else {
        write_op_bytes(ops[0]) + ops_bytes(ops.drop_first())
    }
}

/// Performing one more operation appends its bytes to the batch.
pub proof fn lemma_ops_bytes_snoc(ops: Seq<WriteOp>, n: int)
    requires
        0 <= n < ops.len(),
    ensures
        ops_bytes(ops.take(n + 1)) == ops_bytes(ops.take(n)) + write_op_bytes(ops[n]),
    decreases n,
{
    let a = ops.take(n + 1);
    let b = ops.take(n);
    if n == 0 {
        assert(a.drop_first() =~= Seq::<WriteOp>::empty());
        assert(ops_bytes(a.drop_first()) =~= Seq::<u8>::empty());
        assert(ops_bytes(b) =~= Seq::<u8>::empty());
        assert(a[0] == ops[0]);
        assert(ops_bytes(a) =~= ops_bytes(b) + write_op_bytes(ops[0]));
    } else {
        lemma_ops_bytes_snoc(ops.drop_first(), n - 1);
        assert(a.drop_first() =~= ops.drop_first().take(n));
        assert(b.drop_first() =~= ops.drop_first().take(n - 1));
        assert(ops_bytes(a) == write_op_bytes(ops[0]) + ops_bytes(ops.drop_first().take(n)));
        assert(ops.drop_first()[n - 1] == ops[n]);
        assert(ops_bytes(a) =~= ops_bytes(b) + write_op_bytes(ops[n]));
    }
}

impl WriterImpl {
    /// Encodes a whole batch of operations into one buffer, in order: the
    /// result is the concatenation of each operation's bytes.
    pub fn encode_all(ops: &Vec<WriteOp>) -> (r: Vec<u8>)
        ensures
            r@ == ops_bytes(ops@),
    {
        let mut w = WriterImpl::new();
        let mut n: usize = 0;
        while n < ops.len()
            invariant
                n <= ops@.len(),
                w.spec_cur() == ops_bytes(ops@.take(n as int)),
                w.spec_stack() == Seq::<Seq<u8>>::empty(),
            decreases ops@.len() - n,
        {
            match &ops[n] {
                WriteOp::Uint32(v) => w.write_varint32(*v),
                WriteOp::Int32(v) => w.write_int32(*v),
                WriteOp::Uint64(v) => w.write_varint64(*v),
                WriteOp::Sint64(v) => w.write_sint64(*v),
                WriteOp::Bool(b) => w.write_bool(*b),
                WriteOp::Fixed32(v) => w.write_fixed32(*v),
                WriteOp::Fixed64(v) => w.write_fixed64(*v),
                WriteOp::Bytes(b) => w.write_len_delimited(b.as_slice()),
                WriteOp::Str(t) => w.write_string(t.as_str()),
            }
            proof {
                lemma_ops_bytes_snoc(ops@, n as int);
            }
            n = n + 1;
        }
        proof {
            assert(ops@.take(n as int) =~= ops@);
        }
        w.finish()
    }
}

} // verus!
