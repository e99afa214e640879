//! Commit digests for the commit-reveal voting scheme.
//!
//! A commit binds a judge to a hidden vote: it is the Keccak-256 digest of
//! the vote bit followed by a secret nonce chosen by the judge.  The digest
//! itself is computed by an outside crate; everything around it is verified.

use vstd::prelude::*;

verus! {

/// The Keccak-256 digest of a byte sequence.  The algorithm is not written
/// out here: the digest is a pure function of the input bytes, computed by
/// the trusted wrapper below, and the contracts speak only of this name.
pub uninterp spec fn keccak256_of(data: Seq<u8>) -> Seq<u8>;

/// Relies on `alloy_primitives::keccak256`: the 32-byte Keccak-256 digest,
/// which depends on the input bytes alone.
#[verifier::external_body]
fn keccak256_bytes(data: &Vec<u8>) -> (r: Vec<u8>)
    ensures
        r@ == keccak256_of(data@),
        r@.len() == 32,
{
    alloy_primitives::keccak256(data.as_slice()).0.to_vec()
}

/// The bytes a judge commits to: the vote bit (1 for the requester,
/// 0 for the beneficiary) followed by the secret nonce.
pub open spec fn commit_preimage(vote: bool, secret: Seq<u8>) -> Seq<u8> {
    seq![if vote { 1u8 } else { 0u8 }] + secret
}

/// The commit digest that binds a judge to a hidden vote and secret.
pub open spec fn commit_digest(vote: bool, secret: Seq<u8>) -> Seq<u8> {
    keccak256_of(commit_preimage(vote, secret))
}

/// Compute the commit digest for a vote bit and a secret nonce.
pub fn commit_hash(vote: bool, secret: &Vec<u8>) -> (r: Vec<u8>)
    ensures
        r@ == commit_digest(vote, secret@),
        r@.len() == 32,
{
    let mut data: Vec<u8> = Vec::new();
    data.push(if vote { 1u8 } else { 0u8 });
    let mut i: usize = 0;
    while i < secret.len()
        invariant
            i <= secret@.len(),
            data@ == commit_preimage(vote, secret@).take(1 + i as int),
        decreases secret@.len() - i,
    {
        data.push(secret[i]);
        i = i + 1;
    }
    proof {
        assert(data@ =~= commit_preimage(vote, secret@));
    }
    keccak256_bytes(&data)
}

/// Byte-for-byte equality of two byte vectors.
pub fn bytes_eq(a: &Vec<u8>, b: &Vec<u8>) -> (r: bool)
    ensures
        r == (a@ == b@),
{
    if a.len() != b.len() {
        return false;
    }
    let mut i: usize = 0;
    while i < a.len()
        invariant
            i <= a@.len(),
            a@.len() == b@.len(),
            forall|j: int| 0 <= j < i ==> a@[j] == b@[j],
        decreases a@.len() - i,
    {
        if a[i] != b[i] {
            return false;
        }
        i = i + 1;
    }
    proof {
        assert(a@ =~= b@);
    }
    true
}

} // verus!
