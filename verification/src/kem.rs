//! ML-KEM-768 decapsulation of the embedded ciphertext, and the check that it
//! yields the expected shared secret.
use ml_kem::array::Array;
use ml_kem::kem::Decapsulate;
use ml_kem::{DecapsulationKey, MlKem768};
use vstd::prelude::*;

verus! {

/// Bytes in an ML-KEM decapsulation-key seed.
pub const SEED_LEN: usize = 64;

/// Bytes in an ML-KEM-768 ciphertext.
pub const CIPHERTEXT_LEN: usize = 1088;

/// The shared secret that ML-KEM-768 (FIPS 203) decapsulation yields for the
/// key made from the 64-byte `seed` and the 1088-byte `ciphertext`, as the
/// `ml-kem` crate computes it.
pub uninterp spec fn ml_kem_768_shared_secret(seed: Seq<u8>, ciphertext: Seq<u8>) -> Seq<u8>;

/// Calls `ml_kem::DecapsulationKey::<MlKem768>::from_seed` on `seed`, then
/// `Decapsulate::decapsulate` on `ciphertext`. Claimed: the 32-byte result is
/// the named shared secret of these two inputs (both steps are deterministic).
/// The slice-to-array conversions cannot fail under the `requires`.
#[verifier::external_body]
fn ml_kem_768_decapsulate(seed: &[u8], ciphertext: &[u8]) -> (secret: [u8; 32])
    requires
        seed@.len() == SEED_LEN,
        ciphertext@.len() == CIPHERTEXT_LEN,
    ensures
        secret@ == ml_kem_768_shared_secret(seed@, ciphertext@),
{
    let dk = DecapsulationKey::<MlKem768>::from_seed(Array::try_from(seed).unwrap());
    let ct = Array::try_from(ciphertext).unwrap();
    dk.decapsulate(&ct).into()
}

/// Byte-for-byte equality of two slices.
pub fn bytes_equal(a: &[u8], b: &[u8]) -> (eq: bool)
    ensures
        eq == (a@ == b@),
{
    if a.len() != b.len() {
        return false;
    }
    let n = a.len();
    let mut i: usize = 0;
    while i < n
        invariant
            n == a@.len() == b@.len(),
            i <= n,
            forall|k: int| 0 <= k < i ==> a@[k] == b@[k],
        decreases n - i,
    {
        if a[i] != b[i] {
            return false;
        }
        i = i + 1;
    }
    assert(a@ =~= b@);
    true
}

/// Decapsulates `ciphertext` with the key made from `seed`, and says whether
/// the shared secret is `expected`.
pub fn kem_check(seed: &[u8], ciphertext: &[u8], expected: &[u8]) -> (r: ([u8; 32], bool))
    requires
        seed@.len() == SEED_LEN,
        ciphertext@.len() == CIPHERTEXT_LEN,
    ensures
        r.0@ == ml_kem_768_shared_secret(seed@, ciphertext@),
        r.1 == (r.0@ == expected@),
{
    let secret = ml_kem_768_decapsulate(seed, ciphertext);
    let ok = bytes_equal(secret.as_slice(), expected);
    (secret, ok)
}

} // verus!
