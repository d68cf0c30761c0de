//! Content hashes: a 256-bit value identifying a node by its contents.

use vstd::prelude::*;
use vstd::bytes::{
    lemma_auto_spec_u64_to_from_le_bytes, spec_u64_from_le_bytes, spec_u64_to_le_bytes,
    u64_from_le_bytes, u64_to_le_bytes,
};
use vstd::slice::slice_subrange;
use sha3::Digest;

verus! {

/// A 256-bit content hash, held as four little-endian 64-bit words.
///
/// Two values are equal exactly when all four words are equal, so a hash can
/// serve as a cache key and as the identity of a stored node.
#[derive(Clone, Copy, Debug, PartialEq, Eq, Hash, Structural)]
pub struct HashValue {
    pub w0: u64,
    pub w1: u64,
    pub w2: u64,
    pub w3: u64,
}

/// The 32 bytes that the sha3-256 digest of `data` yields.
pub uninterp spec fn digest_of(data: Seq<u8>) -> Seq<u8>;

/// Relies on `sha3::Sha3_256` (via the `digest` traits): the digest is a
/// function of the input bytes alone and is exactly 32 bytes long.
#[verifier::external_body]
pub(crate) fn sha3_256_of(data: &Vec<u8>) -> (r: Vec<u8>)
    ensures
        r@ == digest_of(data@),
        r@.len() == 32,
{
    sha3::Sha3_256::digest(data.as_slice()).to_vec()
}

impl HashValue {
    /// The words of `s` (32 little-endian bytes) as a hash value.
    pub open spec fn spec_from_le_bytes(s: Seq<u8>) -> HashValue {
        HashValue {
            w0: spec_u64_from_le_bytes(s.subrange(0, 8)),
            w1: spec_u64_from_le_bytes(s.subrange(8, 16)),
            w2: spec_u64_from_le_bytes(s.subrange(16, 24)),
            w3: spec_u64_from_le_bytes(s.subrange(24, 32)),
        }
    }

    /// The 32 little-endian bytes of this hash value.
    pub open spec fn spec_to_le_bytes(self) -> Seq<u8> {
        spec_u64_to_le_bytes(self.w0) + spec_u64_to_le_bytes(self.w1)
            + spec_u64_to_le_bytes(self.w2) + spec_u64_to_le_bytes(self.w3)
    }

    pub fn from_words(w0: u64, w1: u64, w2: u64, w3: u64) -> (r: HashValue)
        ensures
            r == (HashValue { w0, w1, w2, w3 }),
    {
        HashValue { w0, w1, w2, w3 }
    }

    /// The all-zero hash value.
    pub fn zero() -> (r: HashValue)
        ensures
            r == (HashValue { w0: 0u64, w1: 0u64, w2: 0u64, w3: 0u64 }),
    {
        HashValue { w0: 0, w1: 0, w2: 0, w3: 0 }
    }

    pub fn from_le_bytes(bytes: &[u8]) -> (r: HashValue)
        requires
            bytes@.len() == 32,
        ensures
            r == HashValue::spec_from_le_bytes(bytes@),
    {
        let w0 = u64_from_le_bytes(slice_subrange(bytes, 0, 8));
        let w1 = u64_from_le_bytes(slice_subrange(bytes, 8, 16));
        let w2 = u64_from_le_bytes(slice_subrange(bytes, 16, 24));
        let w3 = u64_from_le_bytes(slice_subrange(bytes, 24, 32));
        HashValue { w0, w1, w2, w3 }
    }

    pub fn to_le_bytes(&self) -> (r: Vec<u8>)
        ensures
            r@ == self.spec_to_le_bytes(),
            r@.len() == 32,
    {
        proof {
            lemma_auto_spec_u64_to_from_le_bytes();
        }
        let mut r = u64_to_le_bytes(self.w0);
        let mut r1 = u64_to_le_bytes(self.w1);
        let mut r2 = u64_to_le_bytes(self.w2);
        let mut r3 = u64_to_le_bytes(self.w3);
        r.append(&mut r1);
        r.append(&mut r2);
        r.append(&mut r3);
        r
    }
}

} // verus!
