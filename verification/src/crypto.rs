//! The outside cryptographic primitives the protocol consumes: the content
//! hash that keys proposals and the signature check that guards reveals,
//! together with the verified encoding of the signed payload.

use vstd::prelude::*;

use blake2::Digest;

use crate::types::Vote;

verus! {

/// The 32-byte digest the content-hashing primitive assigns to a payload.
pub uninterp spec fn hash_of(data: Seq<u8>) -> Seq<u8>;

/// Relies on blake2's `Blake2b256` hasher: the digest depends on the input
/// bytes alone and is 32 bytes long.
#[verifier::external_body]
pub fn blake2b_256(data: &Vec<u8>) -> (r: Vec<u8>)
    ensures
        r@ == hash_of(data@),
        r@.len() == 32,
{
    let mut hasher = blake2::Blake2b256::new();
    hasher.update(data.as_slice());
    let out = hasher.finalize();
    out.as_slice().to_vec()
}

/// Whether the signature scheme accepts `signature` by `signer` over
/// `message`.
pub uninterp spec fn sig_verifies(message: Seq<u8>, signature: Seq<u8>, signer: Seq<u8>) -> bool;

/// Relies on schnorrkel's `PublicKey::verify_simple` (with `from_bytes` to
/// parse the key and the signature): acceptance depends on the three byte
/// strings alone. Byte strings that parse as no key or no signature are
/// rejected.
#[verifier::external_body]
pub fn verify_signature(message: &Vec<u8>, signature: &Vec<u8>, signer: &Vec<u8>) -> (r: bool)
    ensures
        r == sig_verifies(message@, signature@, signer@),
{
    match (
        schnorrkel::PublicKey::from_bytes(signer.as_slice()),
        schnorrkel::Signature::from_bytes(signature.as_slice()),
    ) {
        (Ok(pk), Ok(sig)) => pk.verify_simple(b"substrate", message.as_slice(), &sig).is_ok(),
        _ => false,
    }
}

/// The payload a commitment must be signed over: the choice as one tag byte
/// followed by the four little-endian bytes of the salt.
pub open spec fn vote_salt_bytes(vote: Vote, salt: u32) -> Seq<u8> {
    seq![
        if vote is Yes {
            0u8
        } else {
            1u8
        },
        (salt & 0xff) as u8,
        ((salt >> 8) & 0xff) as u8,
        ((salt >> 16) & 0xff) as u8,
        ((salt >> 24) & 0xff) as u8,
    ]
}

/// Encodes a choice and a salt into the payload that is signed at commit
/// time and checked at reveal time.
pub fn encode_vote_salt(vote: Vote, salt: u32) -> (r: Vec<u8>)
    ensures
        r@ == vote_salt_bytes(vote, salt),
{
    let mut r: Vec<u8> = Vec::new();
    r.push(
        match vote {
            Vote::Yes => 0u8,
            Vote::No => 1u8,
        },
    );
    r.push((salt & 0xff) as u8);
    r.push(((salt >> 8) & 0xff) as u8);
    r.push(((salt >> 16) & 0xff) as u8);
    r.push(((salt >> 24) & 0xff) as u8);
    proof {
        assert(r@ =~= vote_salt_bytes(vote, salt));
    }
    r
}

} // verus!
