//! BLAKE3 digests, through the `blake3` crate.
use vstd::prelude::*;

verus! {

/// The BLAKE3 digest of bytes.
pub uninterp spec fn blake3_digest(bytes: Seq<u8>) -> Seq<u8>;

/// The BLAKE3 digest of bytes under a key.
pub uninterp spec fn blake3_keyed(key: Seq<u8>, bytes: Seq<u8>) -> Seq<u8>;

/// `blake3::hash`: the 32-byte digest of the input, named `blake3_digest`.
#[verifier::external_body]
pub(crate) fn hash_bytes(bytes: &[u8]) -> (r: [u8; 32])
    ensures
        r@ == blake3_digest(bytes@),
{
    *blake3::hash(bytes).as_bytes()
}

/// `blake3::keyed_hash`: the 32-byte digest of the input under a key, named
/// `blake3_keyed`.
#[verifier::external_body]
pub(crate) fn keyed_hash_bytes(key: &[u8; 32], bytes: &[u8]) -> (r: [u8; 32])
    ensures
        r@ == blake3_keyed(key@, bytes@),
{
    *blake3::keyed_hash(key, bytes).as_bytes()
}

} // verus!
