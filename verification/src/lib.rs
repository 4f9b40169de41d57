//! Client-side engine for a binary chat-relay protocol: a data model for the
//! wire values, a streaming decoder, a textual command encoder, typed
//! projections of pushed events, and the bookkeeping that correlates replies
//! with pending commands.
use vstd::prelude::*;

pub mod codec;
pub mod command;
pub mod encode;
pub mod message;
pub mod num;
pub mod parse;
pub mod server;
pub mod sync;

verus! {

/// Big-endian interpretation of four bytes.
pub open spec fn be_u32(b0: u8, b1: u8, b2: u8, b3: u8) -> u32 {
    (((b0 as u32) << 24) | ((b1 as u32) << 16) | ((b2 as u32) << 8) | (b3 as u32)) as u32
}

/// Reads a big-endian 32-bit unsigned integer from the four bytes at `pos`.
pub fn read_be_u32(bytes: &[u8], pos: usize) -> (r: u32)
    requires
        pos + 4 <= bytes@.len(),
    ensures
        r == be_u32(bytes@[pos as int], bytes@[pos + 1], bytes@[pos + 2], bytes@[pos + 3]),
{
    let b0 = bytes[pos];
    let b1 = bytes[pos + 1];
    let b2 = bytes[pos + 2];
    let b3 = bytes[pos + 3];
    ((b0 as u32) << 24) | ((b1 as u32) << 16) | ((b2 as u32) << 8) | (b3 as u32)
}

} // verus!
