//! Protocol Buffers wire-format primitives with verified contracts.
//!
//! The crate provides the low-level byte-layer codec a generated-code layer
//! would call: base-128 varints, the ZigZag transform for signed integers,
//! field-tag packing, little-endian fixed-width values, a sequential decode
//! cursor (`ReaderImpl`), an append-only encode buffer with a fork/commit
//! stack for length-prefixed sub-messages (`WriterImpl`), and a size-classed
//! pool of reusable scratch buffers.

pub mod batch;
pub mod error;
pub mod fixed;
pub mod pool;
pub mod reader;
pub mod tag;
pub mod varint;
pub mod writer;
pub mod zigzag;
