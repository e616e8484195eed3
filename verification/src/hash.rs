//! Hashes, by which items are found in the store.
use vstd::prelude::*;

verus! {

/// A hash of 32 bytes.
#[derive(Debug, Clone, Copy, PartialEq, Eq, PartialOrd, Ord, Hash)]
pub struct Hash256 {
    bytes: [u8; 32],
}

impl View for Hash256 {
    type V = Seq<u8>;

    /// The bytes of the hash.
    closed spec fn view(&self) -> Seq<u8> {
        self.bytes@
    }
}

impl Hash256 {
    /// The hash whose bytes are those of `src`.
    pub fn from_slice(src: &[u8]) -> (r: Hash256)
        requires
            src@.len() == 32,
        ensures
            r@ == src@,
    {
        let mut bytes: [u8; 32] = [0u8; 32];
        let mut i: usize = 0;
        while i < 32
            invariant
                i <= 32,
                src@.len() == 32,
                forall|j: int| 0 <= j < i ==> bytes@[j] == src@[j],
            decreases 32 - i,
        {
            bytes[i] = src[i];
            i = i + 1;
        }
        assert(bytes@ =~= src@);
        Hash256 { bytes }
    }

    /// The bytes of the hash.
    pub fn as_bytes(&self) -> (r: &[u8])
        ensures
            r@ == self@,
            r@.len() == 32,
    {
        self.bytes.as_slice()
    }

    /// A hash holds 32 bytes, and is known by them: no two hashes hold the same.
    pub proof fn hash_is_its_bytes(a: Hash256, b: Hash256)
        ensures
            a@.len() == 32,
            a@ == b@ <==> a == b,
    {
        if a@ == b@ {
            assert forall|i: int| 0 <= i < 32 implies a.bytes[i] == b.bytes[i] by {
                assert(a.bytes@[i] == b.bytes@[i]);
            }
            assert(a.bytes =~= b.bytes);
        }
    }
}

} // verus!
