//! The circuit-side digest: four field elements, as the proof system hashes.
use vstd::prelude::*;
use crate::codec::{base64_encode, base64_encoded};
use crate::field::{bytes_to_elements, elements_to_bytes, bytes_from_elements, elements_from_bytes, canonical_chunks};

verus! {

/// A hash digest of four field elements.
pub struct Digest(pub [u64; 4]);

impl Digest {
    /// The canonical little-endian bytes of the four elements (32 bytes).
    pub fn to_vec(&self) -> (v: Vec<u8>)
        ensures
            v@ == elements_to_bytes(self.0@),
    {
        let b = bytes_from_elements(&self.0);
        let mut v: Vec<u8> = Vec::new();
        let mut i: usize = 0;
        while i < 32
            invariant
                0 <= i <= 32,
                v@ == b@.subrange(0, i as int),
            decreases 32 - i,
        {
            v.push(b[i]);
            i = i + 1;
            assert(v@ =~= b@.subrange(0, i as int));
        }
        assert(b@.subrange(0, 32) =~= b@);
        v
    }

    /// The number of elements in a digest.
    pub fn size(&self) -> (n: usize)
        ensures
            n == 4,
    {
        4
    }

    /// The base64 text of the digest's bytes (its serialized and printed form).
    pub fn to_base64(&self) -> (s: String)
        ensures
            s@ == base64_encoded(elements_to_bytes(self.0@)),
    {
        let b = bytes_from_elements(&self.0);
        base64_encode(b.as_slice())
    }

    /// The digest held by the first 32 bytes, eight little-endian bytes per
    /// element; the bytes must be there and hold canonical elements.
    pub fn from_bytes(bytes: &[u8]) -> (d: Digest)
        requires
            bytes@.len() >= 32,
            canonical_chunks(bytes@.subrange(0, 32)),
        ensures
            d.0@ == bytes_to_elements(bytes@.subrange(0, 32)),
    {
        let mut a = [0u8; 32];
        let mut i: usize = 0;
        while i < 32
            invariant
                0 <= i <= 32,
                bytes@.len() >= 32,
                forall|j: int| 0 <= j < i ==> a@[j] == bytes@[j],
            decreases 32 - i,
        {
            a[i] = bytes[i];
            i = i + 1;
        }
        assert(a@ =~= bytes@.subrange(0, 32));
        Digest(elements_from_bytes(&a))
    }
}

} // verus!
