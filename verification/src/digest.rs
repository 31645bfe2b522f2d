//! SHA-256 and the PCR extend operation built on it.
use sha2::{Digest, Sha256};
use vstd::prelude::*;

verus! {

/// The SHA-256 digest (FIPS 180-4) of `data`, as the `sha2` crate computes it.
pub uninterp spec fn sha256(data: Seq<u8>) -> Seq<u8>;

/// Calls `sha2::Sha256` (`Digest::new`, `Digest::update` with `first`,
/// `Digest::update` with `second`, `Digest::finalize`). Claimed: the 32-byte
/// result is the SHA-256 digest of `first` followed by `second`, since a
/// hasher fed in pieces hashes their concatenation.
#[verifier::external_body]
fn sha256_two(first: &[u8], second: &[u8]) -> (digest: [u8; 32])
    ensures
        digest@ == sha256(first@ + second@),
{
    let mut hasher = Sha256::new();
    hasher.update(first);
    hasher.update(second);
    hasher.finalize().into()
}

/// PCR extend: the register becomes `SHA-256(old register || data)`.
/// Nothing is allocated: the two parts are fed to the hasher in turn.
pub fn pcr_extend(pcr: &mut [u8; 32], data: &[u8])
    ensures
        final(pcr)@ == sha256(old(pcr)@ + data@),
{
    let digest = sha256_two(pcr.as_slice(), data);
    *pcr = digest;
}

} // verus!
