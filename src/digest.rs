//! Digests and the plain values that the engine reads off chain objects.
use vstd::prelude::*;

verus! {

/// A five-element hash digest, as used for block hashes, commitments and
/// lock-script hashes.
#[derive(Clone, Copy, PartialEq, Eq, Structural, Debug, Hash)]
pub struct Digest(pub u64, pub u64, pub u64, pub u64, pub u64);

impl Digest {
    /// Equality of two digests, element by element.
    pub fn same(&self, other: &Digest) -> (r: bool)
        ensures
            r == (*self == *other),
    {
        self.0 == other.0 && self.1 == other.1 && self.2 == other.2 && self.3 == other.3
            && self.4 == other.4
    }
}

/// Where a record was confirmed or spent: block height, block digest and the
/// block's timestamp.
#[derive(Clone, Copy, PartialEq, Eq, Structural, Debug)]
pub struct BlockRef {
    pub height: u64,
    pub digest: Digest,
    pub timestamp: u64,
}

} // verus!
