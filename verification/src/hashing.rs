//! Content hashing and account fingerprints.

use vstd::prelude::*;
use crate::ACCOUNT_ID_LENGTH;

verus! {

/// The digest that the blake2b-256 hash assigns to a byte string.
pub uninterp spec fn blake2b_of(data: Seq<u8>) -> Seq<u8>;

/// Relies on ckb_hash::blake2b_256: a 32-byte blake2b digest of the input
/// bytes, a function of the input alone.
#[verifier::external_body]
pub(crate) fn blake2b(data: &Vec<u8>) -> (r: Vec<u8>)
    ensures
        r@ == blake2b_of(data@),
        r@.len() == 32,
{
    ckb_hash::blake2b_256(data.as_slice()).to_vec()
}

/// The fixed-length fingerprint derived from an account name: the first
/// `ACCOUNT_ID_LENGTH` bytes of its digest.
pub open spec fn fingerprint_of(account: Seq<u8>) -> Seq<u8> {
    blake2b_of(account).take(ACCOUNT_ID_LENGTH as int)
}

pub fn account_fingerprint(account: &Vec<u8>) -> (r: Vec<u8>)
    ensures
        r@ == fingerprint_of(account@),
        r@.len() == ACCOUNT_ID_LENGTH,
{
    let digest = blake2b(account);
    let mut r: Vec<u8> = Vec::new();
    let mut i: usize = 0;
    while i < ACCOUNT_ID_LENGTH
        invariant
            i <= ACCOUNT_ID_LENGTH,
            digest@.len() == 32,
            digest@ == blake2b_of(account@),
            r@ == digest@.take(i as int),
        decreases ACCOUNT_ID_LENGTH - i,
    {
        r.push(digest[i]);
        proof {
            assert(r@ =~= digest@.take(i + 1));
        }
        i += 1;
    }
    r
}

} // verus!
