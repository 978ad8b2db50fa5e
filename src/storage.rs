//! The storage kinds that deployed code is kept in, as encoded in one byte.
use vstd::prelude::*;

verus! {

/// Where deployed code is kept, as encoded in one byte.
#[derive(Debug, Clone, Copy, PartialEq, Eq, Structural)]
pub enum Storage {
    SWARM,
    IPFS,
    UNKNOWN(u8),
}

/// The storage kind that a byte names.
pub open spec fn storage_of(n: u8) -> Storage {
    if n == 0 {
        Storage::SWARM
    } else if n == 1 {
        Storage::IPFS
    } else {
        Storage::UNKNOWN(n)
    }
}

/// The byte that encodes a storage kind.
pub open spec fn byte_of(s: Storage) -> u8 {
    match s {
        Storage::SWARM => 0,
        Storage::IPFS => 1,
        Storage::UNKNOWN(u) => u,
    }
}

impl Storage {
    /// The storage kind that byte `n` encodes.
    pub fn from(n: u8) -> (r: Storage)
        ensures
            r == storage_of(n),
    {
        match n {
            0 => Storage::SWARM,
            1 => Storage::IPFS,
            u => Storage::UNKNOWN(u),
        }
    }

    /// The byte that encodes this storage kind.
    pub fn to_u8(&self) -> (r: u8)
        ensures
            r == byte_of(*self),
    {
        match self {
            Storage::SWARM => 0,
            Storage::IPFS => 1,
            Storage::UNKNOWN(u) => *u,
        }
    }
}

/// Decoding a byte and encoding the result gives the byte back.
pub proof fn lemma_byte_round_trip(n: u8)
    ensures
        byte_of(storage_of(n)) == n,
{
}

} // verus!
