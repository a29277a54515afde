//! Hashing of operations and block headers. A 256-bit digest of the binary
//! encoding is the sole identity of an operation across the mempool, the
//! prechecker and the statistics, and of a block across bootstrap.

use vstd::prelude::*;
use crate::codec::{enc_header, enc_operation, HASH_SIZE};
use crate::messages::{BlockHeader, Operation};

verus! {

/// The 256-bit digest of a byte sequence, as the blake2 crate computes it.
/// It depends on the input bytes alone.
pub uninterp spec fn blake2b_digest(bytes: Seq<u8>) -> Seq<u8>;

/// Relies on `blake2::Blake2b256` through the `Digest` trait: hashing the
/// whole input yields a 32-byte digest that is a function of the input alone.
#[verifier::external_body]
pub(crate) fn blake2b_256(bytes: &Vec<u8>) -> (r: Vec<u8>)
    ensures
        r@ == blake2b_digest(bytes@),
        r@.len() == HASH_SIZE,
{
    let mut hasher = <blake2::Blake2b256 as blake2::Digest>::new();
    blake2::Digest::update(&mut hasher, bytes.as_slice());
    blake2::Digest::finalize(hasher).to_vec()
}

/// The hash identifying an operation: the digest of its binary encoding.
pub fn operation_hash(op: &Operation) -> (r: Vec<u8>)
    ensures
        r@ == blake2b_digest(enc_operation(op@)),
        r@.len() == HASH_SIZE,
{
    let mut bytes: Vec<u8> = Vec::new();
    op.encode(&mut bytes);
    proof {
        assert(bytes@ =~= enc_operation(op@));
    }
    blake2b_256(&bytes)
}

/// The hash identifying a block: the digest of its header's binary encoding.
/// Fails exactly when the header's fitness cannot be framed.
pub fn block_header_hash(h: &BlockHeader) -> (r: Option<Vec<u8>>)
    ensures
        r matches Some(b) ==> b@ == blake2b_digest(enc_header(h@)) && b@.len() == HASH_SIZE,
        r is Some <==> crate::codec::wf_fitness(h@.fitness) && crate::codec::wf_dyn(
            crate::codec::enc_fitness(h@.fitness),
        ),
{
    let mut bytes: Vec<u8> = Vec::new();
    if !h.encode(&mut bytes) {
        return None;
    }
    Some(blake2b_256(&bytes))
}

} // verus!
