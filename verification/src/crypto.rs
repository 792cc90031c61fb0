use vstd::prelude::*;
use sha3::Digest;

verus! {

/// The digest that Keccak-256 assigns to a byte string: a function of the
/// input bytes alone.
pub uninterp spec fn keccak256_of(data: Seq<u8>) -> Seq<u8>;

/// Relies on sha3::Keccak256::digest: the 32-byte Keccak-256 digest,
/// determined by the input bytes alone.
#[verifier::external_body]
pub fn keccak256(data: &[u8]) -> (r: Vec<u8>)
    ensures
        r@ == keccak256_of(data@),
        r@.len() == 32,
{
    sha3::Keccak256::digest(data).to_vec()
}

} // verus!
