//! Host-side helpers around a byte-pair-encoding tokenizer: encoding byte
//! strings that may stop in the middle of a character, laying batches out as
//! one padded row-major buffer, stripping that padding again before decoding,
//! and describing the read-only view under which a buffer is handed out.
use vstd::prelude::*;

pub mod padding;
pub mod text;
pub mod vocab;
pub mod engine;
pub mod boundary;
pub mod batch;
pub mod decode;
pub mod export;

verus! {

/// Identifier of a vocabulary entry.
pub type Rank = u32;

} // verus!
