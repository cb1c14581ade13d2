//! SHA-256 through the `sha2` crate.
//!
//! The digest itself is not modelled: `sha256` names it. What is proved here
//! is how the library feeds the hasher, so that hashing a message in pieces
//! and hashing it from one buffer are shown to agree.

use vstd::prelude::*;

verus! {

/// A running SHA-256 computation of the `sha2` crate. The hasher is a chain
/// of generic wrappers over `typenum` numbers, so it is kept whole behind
/// this struct and reached only through the three functions below.
#[verifier::external_body]
pub struct Sha256Stream {
    inner: sha2::Sha256,
}

/// The SHA-256 digest of a byte string.
pub uninterp spec fn sha256(data: Seq<u8>) -> Seq<u8>;

/// The bytes a hasher has taken in so far, in order.
pub uninterp spec fn hasher_input(hasher: Sha256Stream) -> Seq<u8>;

/// `sha2::Digest::new` for `Sha256`: a hasher that has taken in nothing.
#[verifier::external_body]
fn hasher_new() -> (hasher: Sha256Stream)
    ensures
        hasher_input(hasher) == Seq::<u8>::empty(),
{
    Sha256Stream { inner: <sha2::Sha256 as sha2::Digest>::new() }
}

/// `sha2::Digest::update`: the hasher takes in `data` after what it already
/// holds.
#[verifier::external_body]
fn hasher_update(hasher: &mut Sha256Stream, data: &[u8])
    ensures
        hasher_input(*final(hasher)) == hasher_input(*old(hasher)) + data@,
{
    sha2::Digest::update(&mut hasher.inner, data);
}

/// `sha2::Digest::finalize`: the 32-byte SHA-256 digest of everything the
/// hasher took in.
#[verifier::external_body]
fn hasher_finalize(hasher: Sha256Stream) -> (digest: [u8; 32])
    ensures
        digest@ == sha256(hasher_input(hasher)),
{
    sha2::Digest::finalize(hasher.inner).into()
}

/// The digest of one buffer.
pub fn sha256_digest(data: &[u8]) -> (digest: [u8; 32])
    ensures
        digest@ == sha256(data@),
{
    let mut hasher = hasher_new();
    hasher_update(&mut hasher, data);
    assert(Seq::<u8>::empty() + data@ =~= data@);
    hasher_finalize(hasher)
}

/// The digest of `first` followed by `second`, fed to the hasher one after
/// the other without building the joined buffer.
pub fn sha256_digest_pair(first: &[u8], second: &[u8]) -> (digest: [u8; 32])
    ensures
        digest@ == sha256(first@ + second@),
{
    let mut hasher = hasher_new();
    hasher_update(&mut hasher, first);
    hasher_update(&mut hasher, second);
    assert(Seq::<u8>::empty() + first@ + second@ =~= first@ + second@);
    hasher_finalize(hasher)
}

} // verus!
