//! The digest of a file that is read piece by piece.

use sha2::{Digest, Sha256};
use vstd::prelude::*;

verus! {

/// A hasher of `sha2`.
#[verifier::external_type_specification]
#[verifier::external_body]
pub struct ExSha256(Sha256);

/// The bytes that a hasher has taken in.
pub uninterp spec fn taken_in(h: Sha256) -> Seq<u8>;

/// The SHA-256 digest of some bytes.
pub uninterp spec fn sha256(bytes: Seq<u8>) -> Seq<u8>;

/// `Digest::new` for `sha2::Sha256`: a hasher that has taken in nothing.
#[verifier::external_body]
fn fresh() -> (r: Sha256)
    ensures
        taken_in(r) == Seq::<u8>::empty(),
{
    Sha256::new()
}

/// `Digest::update` for `sha2::Sha256`: the hasher takes in the bytes behind
/// those that it has taken in before.
#[verifier::external_body]
fn take_in(h: &mut Sha256, bytes: &[u8])
    ensures
        taken_in(*final(h)) == taken_in(*old(h)) + bytes@,
{
    h.update(bytes)
}

/// `Digest::finalize` for `sha2::Sha256`: the digest of the bytes that the hasher
/// has taken in, 32 bytes that depend on those alone.
#[verifier::external_body]
fn finish(h: Sha256) -> (r: [u8; 32])
    ensures
        r@ == sha256(taken_in(h)),
{
    h.finalize().into()
}

/// The digest of a file that is being read.
pub struct Hashing {
    hasher: Sha256,
}

impl View for Hashing {
    type V = Seq<u8>;

    /// The bytes that were read so far.
    closed spec fn view(&self) -> Seq<u8> {
        taken_in(self.hasher)
    }
}

impl Hashing {
    /// Before anything was read.
    pub fn new() -> (r: Hashing)
        ensures
            r@ == Seq::<u8>::empty(),
    {
        Hashing { hasher: fresh() }
    }

    /// A piece was read.
    pub fn feed(&mut self, piece: &[u8])
        ensures
            final(self)@ == old(self)@ + piece@,
    {
        take_in(&mut self.hasher, piece);
    }

    /// The file was read to its end.
    pub fn digest(self) -> (r: [u8; 32])
        ensures
            r@ == sha256(self@),
    {
        finish(self.hasher)
    }
}

} // verus!
