//! What the HTTP handlers compute: the request fields in the form the proof
//! works on, the public input of a sign-up, and the byte layouts of a proof
//! and of a verifying key.

use crate::bits::append_bytes;
use crate::hex::{decoded_hash, hash_decodes, hash_error, hash_to_array};
use crate::scalar::{is_canonical, ScalarWrapper};
use crate::zkpgenerate::{is_sign_up_public_input, secret_input, zkpproof_sign_up};
use vstd::prelude::*;
use vstd::string::StringSliceAdditionalSpecFns;

verus! {

/// Byte `i` of the big-endian encoding of `x`.
pub open spec fn be_byte(x: u128, i: int) -> u8 {
    ((x >> ((120 - 8 * i) as u128)) & 0xffu128) as u8
}

/// The 16-byte big-endian encoding of `x`.
pub open spec fn be_bytes(x: u128) -> Seq<u8> {
    Seq::new(16, |i: int| be_byte(x, i))
}

/// The microchip id as 16 bytes, most significant first.
pub fn microchip_id_bytes(microchip_id: u128) -> (bytes: [u8; 16])
    ensures
        bytes@ == be_bytes(microchip_id),
{
    let mut bytes = [0u8; 16];
    for i in 0..16
        invariant
            forall|j: int| 0 <= j < i ==> bytes@[j] == be_byte(microchip_id, j),
    {
        bytes[i] = ((microchip_id >> (120 - 8 * i as u128)) & 0xff) as u8;
    }
    assert(bytes@ =~= be_bytes(microchip_id));
    bytes
}

/// Turns the two fields of a request into the embedding hash bytes and the
/// microchip id bytes; refuses an embedding hash that does not decode, with
/// the message of `hash_to_array`.
pub fn parse_request(embedding_hash: &str, microchip_id: u128) -> (res: Result<
    ([u8; 64], [u8; 16]),
    String,
>)
    ensures
        res is Ok <==> hash_decodes(embedding_hash.spec_bytes()),
        res matches Ok(p) ==> p.0@ == decoded_hash(embedding_hash.spec_bytes()) && p.1@ == be_bytes(
            microchip_id,
        ),
        res matches Err(e) ==> hash_error(embedding_hash.spec_bytes(), e@),
{
    let embeddinghash = match hash_to_array(embedding_hash) {
        Ok(a) => a,
        Err(e) => return Err(e),
    };
    Ok((embeddinghash, microchip_id_bytes(microchip_id)))
}

/// The public input that a sign-up request stores: the two field elements
/// packed from the SHA-256 digest of the decoded embedding hash followed by
/// the big-endian microchip id.
pub fn zkp_signup_public_input(embedding_hash: &str, microchip_id: u128) -> (res: Result<
    Vec<ScalarWrapper>,
    String,
>)
    ensures
        res is Ok <==> hash_decodes(embedding_hash.spec_bytes()),
        res matches Ok(v) ==> {
            &&& v@.len() == 2
            &&& is_sign_up_public_input(
                secret_input(decoded_hash(embedding_hash.spec_bytes()), be_bytes(microchip_id)),
                v@,
            )
            &&& is_canonical(v@[0].0@) && is_canonical(v@[1].0@)
        },
        res matches Err(e) ==> hash_error(embedding_hash.spec_bytes(), e@),
{
    let (embeddinghash, microchipid) = match parse_request(embedding_hash, microchip_id) {
        Ok(p) => p,
        Err(e) => return Err(e),
    };
    let public_input = zkpproof_sign_up(embeddinghash, microchipid);
    let mut to_send: Vec<ScalarWrapper> = Vec::new();
    to_send.push(public_input[0]);
    to_send.push(public_input[1]);
    assert(to_send@ =~= public_input@);
    Ok(to_send)
}

/// A Groth16 proof over BLS12-381, each point in its compressed encoding.
pub struct CompressedProof {
    pub a: [u8; 48],
    pub b: [u8; 96],
    pub c: [u8; 48],
}

/// A Groth16 verifying key over BLS12-381, each point in its compressed
/// encoding.
pub struct CompressedVerifyingKey {
    pub alpha_g1: [u8; 48],
    pub beta_g2: [u8; 96],
    pub gamma_g2: [u8; 96],
    pub delta_g2: [u8; 96],
    pub ic: Vec<[u8; 48]>,
}

/// The encodings of `points`, one after the other.
pub open spec fn concat_points(points: Seq<[u8; 48]>) -> Seq<u8>
    decreases points.len(),
{
    if points.len() == 0 {
        Seq::empty()
    } else {
        concat_points(points.drop_last()) + points.last()@
    }
}

/// The bytes of a proof: `a`, then `b`, then `c` (192 bytes).
pub fn serialize_proof(proof: &CompressedProof) -> (serialized: Vec<u8>)
    ensures
        serialized@ == proof.a@ + proof.b@ + proof.c@,
        serialized@.len() == 192,
{
    let mut serialized: Vec<u8> = Vec::new();
    append_bytes(&mut serialized, &proof.a);
    append_bytes(&mut serialized, &proof.b);
    append_bytes(&mut serialized, &proof.c);
    assert(serialized@ =~= proof.a@ + proof.b@ + proof.c@);
    serialized
}

/// The bytes of a verifying key: `alpha_g1`, `beta_g2`, `gamma_g2`,
/// `delta_g2`, then every point of `ic` in order.
pub fn serialize_verifying_key(vk: &CompressedVerifyingKey) -> (bytes: Vec<u8>)
    ensures
        bytes@ == vk.alpha_g1@ + vk.beta_g2@ + vk.gamma_g2@ + vk.delta_g2@ + concat_points(vk.ic@),
        bytes@.len() == 336 + 48 * vk.ic@.len(),
        forall|k: int, j: int|
            0 <= k < vk.ic@.len() && 0 <= j < 48 ==> bytes@[336 + 48 * k + j] == #[trigger] vk.ic@[k]@[j],
{
    let mut bytes: Vec<u8> = Vec::new();
    append_bytes(&mut bytes, &vk.alpha_g1);
    append_bytes(&mut bytes, &vk.beta_g2);
    append_bytes(&mut bytes, &vk.gamma_g2);
    append_bytes(&mut bytes, &vk.delta_g2);
    let ghost head = bytes@;
    let n = vk.ic.len();
    for i in 0..n
        invariant
            n == vk.ic@.len(),
            bytes@ == head + concat_points(vk.ic@.subrange(0, i as int)),
    {
        append_bytes(&mut bytes, &vk.ic[i]);
        assert(vk.ic@.subrange(0, i + 1).drop_last() =~= vk.ic@.subrange(0, i as int));
        assert(bytes@ =~= head + concat_points(vk.ic@.subrange(0, i + 1)));
    }
    assert(vk.ic@.subrange(0, n as int) =~= vk.ic@);
    assert(bytes@ =~= vk.alpha_g1@ + vk.beta_g2@ + vk.gamma_g2@ + vk.delta_g2@ + concat_points(vk.ic@));
    proof {
        lemma_concat_points_len(vk.ic@);
        assert forall|k: int, j: int|
            0 <= k < vk.ic@.len() && 0 <= j < 48 implies bytes@[336 + 48 * k + j] == #[trigger] vk.ic@[k]@[j] by {
            lemma_concat_points_index(vk.ic@, k, j);
        }
    }
    bytes
}

/// The encodings of `n` points take `48 * n` bytes.
pub proof fn lemma_concat_points_len(points: Seq<[u8; 48]>)
    ensures
        concat_points(points).len() == 48 * points.len(),
    decreases points.len(),
{
    if points.len() > 0 {
        lemma_concat_points_len(points.drop_last());
    }
}

/// Distinct microchip ids have distinct big-endian encodings.
pub proof fn lemma_be_bytes_injective(x: u128, y: u128)
    requires
        be_bytes(x) == be_bytes(y),
    ensures
        x == y,
{
    assert forall|i: int| 0 <= i < 16 implies be_byte(x, i) == be_byte(y, i) by {
        assert(be_bytes(x)[i] == be_byte(x, i));
        assert(be_bytes(y)[i] == be_byte(y, i));
        assert(be_bytes(x)[i] == be_bytes(y)[i]);
    }
    assert(be_byte(x, 0) == be_byte(y, 0));
    assert(be_byte(x, 1) == be_byte(y, 1));
    assert(be_byte(x, 2) == be_byte(y, 2));
    assert(be_byte(x, 3) == be_byte(y, 3));
    assert(be_byte(x, 4) == be_byte(y, 4));
    assert(be_byte(x, 5) == be_byte(y, 5));
    assert(be_byte(x, 6) == be_byte(y, 6));
    assert(be_byte(x, 7) == be_byte(y, 7));
    assert(be_byte(x, 8) == be_byte(y, 8));
    assert(be_byte(x, 9) == be_byte(y, 9));
    assert(be_byte(x, 10) == be_byte(y, 10));
    assert(be_byte(x, 11) == be_byte(y, 11));
    assert(be_byte(x, 12) == be_byte(y, 12));
    assert(be_byte(x, 13) == be_byte(y, 13));
    assert(be_byte(x, 14) == be_byte(y, 14));
    assert(be_byte(x, 15) == be_byte(y, 15));
    assert(x == y) by (bit_vector)
        requires
            ((x >> 120u128) & 0xffu128) as u8 == ((y >> 120u128) & 0xffu128) as u8,
            ((x >> 112u128) & 0xffu128) as u8 == ((y >> 112u128) & 0xffu128) as u8,
            ((x >> 104u128) & 0xffu128) as u8 == ((y >> 104u128) & 0xffu128) as u8,
            ((x >> 96u128) & 0xffu128) as u8 == ((y >> 96u128) & 0xffu128) as u8,
            ((x >> 88u128) & 0xffu128) as u8 == ((y >> 88u128) & 0xffu128) as u8,
            ((x >> 80u128) & 0xffu128) as u8 == ((y >> 80u128) & 0xffu128) as u8,
            ((x >> 72u128) & 0xffu128) as u8 == ((y >> 72u128) & 0xffu128) as u8,
            ((x >> 64u128) & 0xffu128) as u8 == ((y >> 64u128) & 0xffu128) as u8,
            ((x >> 56u128) & 0xffu128) as u8 == ((y >> 56u128) & 0xffu128) as u8,
            ((x >> 48u128) & 0xffu128) as u8 == ((y >> 48u128) & 0xffu128) as u8,
            ((x >> 40u128) & 0xffu128) as u8 == ((y >> 40u128) & 0xffu128) as u8,
            ((x >> 32u128) & 0xffu128) as u8 == ((y >> 32u128) & 0xffu128) as u8,
            ((x >> 24u128) & 0xffu128) as u8 == ((y >> 24u128) & 0xffu128) as u8,
            ((x >> 16u128) & 0xffu128) as u8 == ((y >> 16u128) & 0xffu128) as u8,
            ((x >> 8u128) & 0xffu128) as u8 == ((y >> 8u128) & 0xffu128) as u8,
            ((x >> 0u128) & 0xffu128) as u8 == ((y >> 0u128) & 0xffu128) as u8,
    ;
}

/// The secret of a request identifies the request: two requests whose
/// decoded fields lay out the same secret carry the same embedding hash bytes
/// and the same microchip id.
pub proof fn lemma_secret_identifies_request(h1: Seq<u8>, id1: u128, h2: Seq<u8>, id2: u128)
    requires
        h1.len() == 64,
        h2.len() == 64,
        secret_input(h1, be_bytes(id1)) == secret_input(h2, be_bytes(id2)),
    ensures
        h1 == h2,
        id1 == id2,
{
    let s = secret_input(h1, be_bytes(id1));
    assert(s.subrange(0, 64) =~= h1);
    assert(secret_input(h2, be_bytes(id2)).subrange(0, 64) =~= h2);
    assert(s.subrange(64, 80) =~= be_bytes(id1));
    assert(secret_input(h2, be_bytes(id2)).subrange(64, 80) =~= be_bytes(id2));
    lemma_be_bytes_injective(id1, id2);
}

/// Byte `j` of point `k` stands at offset `48 * k + j` of the concatenated
/// encodings: each point is written whole and in order.
pub proof fn lemma_concat_points_index(points: Seq<[u8; 48]>, k: int, j: int)
    requires
        0 <= k < points.len(),
        0 <= j < 48,
    ensures
        concat_points(points).len() == 48 * points.len(),
        concat_points(points)[48 * k + j] == points[k]@[j],
    decreases points.len(),
{
    lemma_concat_points_len(points);
    lemma_concat_points_len(points.drop_last());
    if k < points.len() - 1 {
        lemma_concat_points_index(points.drop_last(), k, j);
    }
}

/// The number that `bytes` denotes, most significant byte first.
pub open spec fn be_value(bytes: Seq<u8>) -> int
    decreases bytes.len(),
{
    if bytes.len() == 0 {
        0
    } else {
        256 * be_value(bytes.drop_last()) + bytes.last() as int
    }
}

/// The 16 bytes of a microchip id denote the id, most significant byte
/// first.
pub proof fn lemma_be_bytes_value(x: u128)
    ensures
        be_value(be_bytes(x)) == x,
{
    let b = be_bytes(x);
    let b0 = ((x >> 120u128) & 0xffu128) as u8;
    let b1 = ((x >> 112u128) & 0xffu128) as u8;
    let b2 = ((x >> 104u128) & 0xffu128) as u8;
    let b3 = ((x >> 96u128) & 0xffu128) as u8;
    let b4 = ((x >> 88u128) & 0xffu128) as u8;
    let b5 = ((x >> 80u128) & 0xffu128) as u8;
    let b6 = ((x >> 72u128) & 0xffu128) as u8;
    let b7 = ((x >> 64u128) & 0xffu128) as u8;
    let b8 = ((x >> 56u128) & 0xffu128) as u8;
    let b9 = ((x >> 48u128) & 0xffu128) as u8;
    let b10 = ((x >> 40u128) & 0xffu128) as u8;
    let b11 = ((x >> 32u128) & 0xffu128) as u8;
    let b12 = ((x >> 24u128) & 0xffu128) as u8;
    let b13 = ((x >> 16u128) & 0xffu128) as u8;
    let b14 = ((x >> 8u128) & 0xffu128) as u8;
    let b15 = ((x >> 0u128) & 0xffu128) as u8;
    assert(b =~= seq![b0, b1, b2, b3, b4, b5, b6, b7, b8, b9, b10, b11, b12, b13, b14, b15]);
    reveal_with_fuel(be_value, 17);
    let s = seq![b0, b1, b2, b3, b4, b5, b6, b7, b8, b9, b10, b11, b12, b13, b14, b15];
    assert(be_value(s) == 256 * (256 * (256 * (256 * (256 * (256 * (256 * (256 * (256 * (256 * (256
        * (256 * (256 * (256 * (256 * (b0 as int) + b1 as int) + b2 as int) + b3 as int) + b4 as int)
        + b5 as int) + b6 as int) + b7 as int) + b8 as int) + b9 as int) + b10 as int) + b11 as int)
        + b12 as int) + b13 as int) + b14 as int) + b15 as int) by {
        assert(be_value(seq![b0]) == b0 as int) by {
            assert(seq![b0].drop_last() =~= Seq::<u8>::empty());
        }
        assert(seq![b0, b1].drop_last() =~= seq![b0]);
        assert(seq![b0, b1, b2].drop_last() =~= seq![b0, b1]);
        assert(seq![b0, b1, b2, b3].drop_last() =~= seq![b0, b1, b2]);
        assert(seq![b0, b1, b2, b3, b4].drop_last() =~= seq![b0, b1, b2, b3]);
        assert(seq![b0, b1, b2, b3, b4, b5].drop_last() =~= seq![b0, b1, b2, b3, b4]);
        assert(seq![b0, b1, b2, b3, b4, b5, b6].drop_last() =~= seq![b0, b1, b2, b3, b4, b5]);
        assert(seq![b0, b1, b2, b3, b4, b5, b6, b7].drop_last() =~= seq![b0, b1, b2, b3, b4, b5, b6]);
        assert(seq![b0, b1, b2, b3, b4, b5, b6, b7, b8].drop_last() =~= seq![b0, b1, b2, b3, b4, b5, b6, b7]);
        assert(seq![b0, b1, b2, b3, b4, b5, b6, b7, b8, b9].drop_last() =~= seq![b0, b1, b2, b3, b4, b5, b6, b7, b8]);
        assert(seq![b0, b1, b2, b3, b4, b5, b6, b7, b8, b9, b10].drop_last() =~= seq![b0, b1, b2, b3, b4, b5, b6, b7, b8, b9]);
    }
    assert(x as int == 256 * (256 * (256 * (256 * (256 * (256 * (256 * (256 * (256 * (256 * (256
        * (256 * (256 * (256 * (256 * (b0 as int) + b1 as int) + b2 as int) + b3 as int) + b4 as int)
        + b5 as int) + b6 as int) + b7 as int) + b8 as int) + b9 as int) + b10 as int) + b11 as int)
        + b12 as int) + b13 as int) + b14 as int) + b15 as int) by (bit_vector)
        requires
            b0 == ((x >> 120u128) & 0xffu128) as u8,
            b1 == ((x >> 112u128) & 0xffu128) as u8,
            b2 == ((x >> 104u128) & 0xffu128) as u8,
            b3 == ((x >> 96u128) & 0xffu128) as u8,
            b4 == ((x >> 88u128) & 0xffu128) as u8,
            b5 == ((x >> 80u128) & 0xffu128) as u8,
            b6 == ((x >> 72u128) & 0xffu128) as u8,
            b7 == ((x >> 64u128) & 0xffu128) as u8,
            b8 == ((x >> 56u128) & 0xffu128) as u8,
            b9 == ((x >> 48u128) & 0xffu128) as u8,
            b10 == ((x >> 40u128) & 0xffu128) as u8,
            b11 == ((x >> 32u128) & 0xffu128) as u8,
            b12 == ((x >> 24u128) & 0xffu128) as u8,
            b13 == ((x >> 16u128) & 0xffu128) as u8,
            b14 == ((x >> 8u128) & 0xffu128) as u8,
            b15 == ((x >> 0u128) & 0xffu128) as u8,
    ;
}

} // verus!
