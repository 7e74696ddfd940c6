//! SHA-256 digests, computed by the `sha2` crate.

use sha2::Digest;
use vstd::prelude::*;

verus! {

/// `sha2::Sha256`, the running state of a SHA-256 computation.  Nothing of
/// its inside is known here; `hashed` names what was fed to it.
#[verifier::external_type_specification]
#[verifier::external_body]
pub struct ExSha256(sha2::Sha256);

/// The SHA-256 digest of `data`: the 32 bytes that `sha2` computes for it.
pub uninterp spec fn sha256(data: Seq<u8>) -> Seq<u8>;

/// The bytes that were fed to a hasher so far, in order.
pub uninterp spec fn hashed(hasher: sha2::Sha256) -> Seq<u8>;

/// `Sha256::new` of `sha2`: a hasher to which nothing was fed yet.
#[verifier::external_body]
pub(crate) fn hasher_new() -> (hasher: sha2::Sha256)
    ensures
        hashed(hasher) == Seq::<u8>::empty(),
{
    sha2::Sha256::new()
}

/// `Digest::update` of `sha2`: feeds `data` to the hasher, behind what it
/// was fed before.
#[verifier::external_body]
pub(crate) fn hasher_update(hasher: &mut sha2::Sha256, data: &[u8])
    ensures
        hashed(*final(hasher)) == hashed(*old(hasher)) + data@,
{
    hasher.update(data);
}

/// `Digest::finalize` of `sha2`: the digest of everything that was fed to
/// the hasher, 32 bytes long.
#[verifier::external_body]
pub(crate) fn hasher_finalize(hasher: sha2::Sha256) -> (digest: Vec<u8>)
    ensures
        digest@ == sha256(hashed(hasher)),
        digest@.len() == 32,
{
    hasher.finalize().to_vec()
}

} // verus!
