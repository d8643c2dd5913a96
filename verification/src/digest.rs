//! Content addressing.

use crate::bytes::Cid;
use vstd::prelude::*;

verus! {

/// The BLAKE3 digest of a byte sequence: 32 bytes.
pub uninterp spec fn blake3_digest(bytes: Seq<u8>) -> Seq<u8>;

/// `blake3::hash`: the digest of `bytes`, which depends on them alone.
#[verifier::external_body]
fn blake3_hash(bytes: &[u8]) -> (digest: [u8; 32])
    ensures
        digest@ == blake3_digest(bytes@),
{
    *blake3::hash(bytes).as_bytes()
}

impl Cid {
    /// The address of `bytes`.
    pub fn of(bytes: &[u8]) -> (cid: Cid)
        ensures
            cid.0@ == blake3_digest(bytes@),
    {
        Cid(blake3_hash(bytes))
    }
}

} // verus!
