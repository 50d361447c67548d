use vstd::prelude::*;

verus! {

/// A 20-byte account address, held as three machine integers
/// (8 + 8 + 4 bytes, big-endian order: `hi` holds the leading bytes).
#[derive(Clone, Copy, PartialEq, Eq, Structural, Debug, Hash)]
pub struct Address {
    pub hi: u64,
    pub mid: u64,
    pub lo: u32,
}

impl Address {
    /// The all-zero address.
    pub fn zero() -> (r: Address)
        ensures
            r == (Address { hi: 0u64, mid: 0u64, lo: 0u32 }),
    {
        Address { hi: 0, mid: 0, lo: 0 }
    }
}

} // verus!
