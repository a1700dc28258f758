//! Fixed-width account identifiers: opaque 160-bit addresses.

use vstd::prelude::*;

verus! {

/// A 160-bit account identifier, split into a low and a middle 64-bit
/// word and a high 32-bit word. The ledger only ever compares
/// identifiers for equality.
#[derive(Clone, Copy, Debug, PartialEq, Eq, Structural)]
pub struct Address {
    pub low: u64,
    pub mid: u64,
    pub high: u32,
}

impl Address {
    pub fn new(high: u32, mid: u64, low: u64) -> (r: Address)
        ensures
            r == (Address { low, mid, high }),
    {
        Address { low, mid, high }
    }

    /// A small identifier, convenient where the full 160 bits are not needed.
    pub fn from_u64(low: u64) -> (r: Address)
        ensures
            r == (Address { low, mid: 0, high: 0 }),
    {
        Address { low, mid: 0, high: 0 }
    }
}

} // verus!
