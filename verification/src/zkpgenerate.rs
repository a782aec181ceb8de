//! The public input of a sign-up: the SHA-256 digest of the user's secret,
//! packed into field elements.

use crate::bits::{
    bits_le, bits_value, bytes_to_bits_le, le_value, lemma_bits_le_value, lemma_le_value_injective, lemma_bits_value_bound,
    lemma_bits_value_split,
};
use crate::scalar::{
    compute_multipacking, is_canonical, lemma_capacity_below_modulus, multipacked, packing_chunk,
    ScalarWrapper,
};
use sha2::Digest;
use vstd::arithmetic::power2::*;
use vstd::prelude::*;

verus! {

/// What `sha2::Sha256::digest` returns for `data`.
pub uninterp spec fn sha256_digest(data: Seq<u8>) -> Seq<u8>;

/// `sha2::Sha256::digest`: the SHA-256 digest of `data`, 32 bytes long.
#[verifier::external_body]
fn sha256(data: &[u8]) -> (digest: [u8; 32])
    ensures
        digest@ == sha256_digest(data@),
{
    sha2::Sha256::digest(data).into()
}

/// The secret that the proof is about: the embedding hash followed by the
/// microchip id.
pub open spec fn secret_input(embeddinghash: Seq<u8>, microchipid: Seq<u8>) -> Seq<u8> {
    embeddinghash + microchipid
}

/// The public input of a sign-up for the given secret.
pub open spec fn is_sign_up_public_input(secret: Seq<u8>, public_input: Seq<ScalarWrapper>) -> bool {
    multipacked(bits_le(sha256_digest(secret)), public_input)
}

/// Lays out the 80-byte secret: the 64 bytes of the embedding hash, then the
/// 16 bytes of the microchip id.
pub fn zkpproof_input(embeddinghash: &[u8; 64], microchipid: &[u8; 16]) -> (input: [u8; 80])
    ensures
        input@ == secret_input(embeddinghash@, microchipid@),
{
    let mut input = [0u8; 80];
    for i in 0..64
        invariant
            forall|j: int| 0 <= j < i ==> input@[j] == embeddinghash@[j],
    {
        input[i] = embeddinghash[i];
    }
    for i in 0..16
        invariant
            forall|j: int| 0 <= j < 64 ==> input@[j] == embeddinghash@[j],
            forall|j: int| 0 <= j < i ==> input@[64 + j] == microchipid@[j],
    {
        input[64 + i] = microchipid[i];
    }
    assert(input@ =~= secret_input(embeddinghash@, microchipid@));
    input
}

/// The public input of a sign-up: the SHA-256 digest of the secret, split
/// into bits and packed into two field elements.
///
/// The first element holds the low 254 bits of the digest read in
/// little-endian order, the second the top two bits.
pub fn zkpproof_sign_up(embeddinghash: [u8; 64], microchipid: [u8; 16]) -> (public_input: Vec<
    ScalarWrapper,
>)
    ensures
        is_sign_up_public_input(secret_input(embeddinghash@, microchipid@), public_input@),
        sha256_digest(secret_input(embeddinghash@, microchipid@)).len() == 32,
        public_input@.len() == 2,
        public_input@[0].value() < pow2(254),
        public_input@[1].value() < 4,
        public_input@[0].value() + pow2(254) * public_input@[1].value() == le_value(
            sha256_digest(secret_input(embeddinghash@, microchipid@)),
        ),
        is_canonical(public_input@[0].0@),
        is_canonical(public_input@[1].0@),
{
    let input = zkpproof_input(&embeddinghash, &microchipid);
    let digest = sha256(&input);
    let bits = bytes_to_bits_le(&digest);
    let public_input = compute_multipacking(&bits);
    proof {
        lemma_digest_packing(digest@, public_input@);
    }
    public_input
}

/// The packing of a 32-byte digest loses nothing: it is two canonical field
/// elements, the first below `2^254` and the second below 4, and the first
/// plus `2^254` times the second is the digest read in little-endian order.
pub proof fn lemma_digest_packing(digest: Seq<u8>, packed: Seq<ScalarWrapper>)
    requires
        digest.len() == 32,
        multipacked(bits_le(digest), packed),
    ensures
        packed.len() == 2,
        packed[0].value() < pow2(254),
        packed[1].value() < 4,
        packed[0].value() + pow2(254) * packed[1].value() == le_value(digest),
        is_canonical(packed[0].0@),
        is_canonical(packed[1].0@),
{
    let bits = bits_le(digest);
    assert(bits.len() == 256);
    assert(packed.len() == 2);
    assert(packed[0].value() == bits_value(packing_chunk(bits, 0)));
    assert(packed[1].value() == bits_value(packing_chunk(bits, 1)));
    assert(packing_chunk(bits, 0) == bits.subrange(0, 254));
    assert(packing_chunk(bits, 1) == bits.subrange(254, 256));
    lemma_bits_value_split(bits, 254);
    lemma_bits_le_value(digest);
    lemma_bits_value_bound(bits.subrange(0, 254));
    lemma_bits_value_bound(bits.subrange(254, 256));
    lemma2_to64();
    lemma_capacity_below_modulus();
}

/// A secret has one public input: two packings of the same secret hold the
/// same bytes.
pub proof fn lemma_public_input_determined(
    secret: Seq<u8>,
    p1: Seq<ScalarWrapper>,
    p2: Seq<ScalarWrapper>,
)
    requires
        is_sign_up_public_input(secret, p1),
        is_sign_up_public_input(secret, p2),
    ensures
        p1.len() == p2.len(),
        forall|k: int| 0 <= k < p1.len() ==> #[trigger] p1[k].0@ == p2[k].0@,
{
    assert forall|k: int| 0 <= k < p1.len() implies #[trigger] p1[k].0@ == p2[k].0@ by {
        assert(p1[k].value() == p2[k].value());
        lemma_le_value_injective(p1[k].0@, p2[k].0@);
    }
}

} // verus!
