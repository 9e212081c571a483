//! Conversion of binary-encoded block-hash and bytecode maps to JSON text.
//!
//! The library turns an ordered map of block numbers to 32-byte hashes, and an
//! ordered map of 32-byte content hashes to bytecode records, into
//! pretty-printed JSON objects whose key order follows the input order.

use vstd::prelude::*;

pub mod blockhash;
pub mod bytecode;
pub mod dec;
pub mod driver;
pub mod hex;
pub mod json;
pub mod parse;

verus! {

/// An error of a converter: the binary payload did not decode — the bytes do
/// not match the expected map schema, or a compressed stream is not well
/// formed.
#[derive(Clone, Copy, Debug, PartialEq, Eq, Structural)]
pub enum ConvertError {
    Decode,
}

} // verus!
