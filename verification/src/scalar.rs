//! Elements of the BLS12-381 scalar field, held by the library as their
//! canonical 32-byte little-endian encoding.

use crate::bits::{bits_value, le_value};
use bls12_381::Scalar;
use vstd::arithmetic::power2::*;
use vstd::prelude::*;

verus! {

#[verifier::external_type_specification]
#[verifier::external_body]
pub struct ExScalar(Scalar);

/// The order of the BLS12-381 scalar field.
pub open spec fn scalar_modulus() -> nat {
    0x73eda753299d7d483339d80809a1d80553bda402fffe5bfeffffffff00000001nat
}

/// Bits that one field element can hold whatever their values
/// (`PrimeField::CAPACITY` of the scalar field).
pub open spec fn scalar_capacity() -> nat {
    254
}

/// `bytes` is the little-endian encoding of a field element.
pub open spec fn is_canonical(bytes: Seq<u8>) -> bool {
    le_value(bytes) < scalar_modulus()
}

/// A scalar field element carried as its 32-byte little-endian encoding.
#[derive(Clone, Copy, Debug)]
pub struct ScalarWrapper(pub [u8; 32]);

impl ScalarWrapper {
    /// The number that the wrapped bytes denote.
    pub open spec fn value(self) -> nat {
        le_value(self.0@)
    }
}

/// Chunk `k` of `bits` as `compute_multipacking` cuts it: `scalar_capacity()`
/// bits, the last chunk shorter.
pub open spec fn packing_chunk(bits: Seq<bool>, k: int) -> Seq<bool> {
    let start = k * scalar_capacity();
    let end = if start + scalar_capacity() <= bits.len() {
        start + scalar_capacity()
    } else {
        bits.len() as int
    };
    bits.subrange(start, end)
}

/// `out` is the multipacking of `bits`: one field element per chunk of
/// `scalar_capacity()` bits, each the number its chunk denotes least
/// significant bit first.
pub open spec fn multipacked(bits: Seq<bool>, out: Seq<ScalarWrapper>) -> bool {
    &&& out.len() == (bits.len() + scalar_capacity() - 1) / scalar_capacity() as int
    &&& forall|k: int| 0 <= k < out.len() ==> #[trigger] out[k].value() == bits_value(
        packing_chunk(bits, k),
    )
}

/// What `Scalar::to_bytes` returns for `scalar`: the little-endian encoding of
/// the field element.
pub uninterp spec fn scalar_bytes(scalar: Scalar) -> Seq<u8>;

/// `Scalar::to_bytes`: the encoding of a field element, which is canonical.
#[verifier::external_body]
fn scalar_to_bytes(scalar: &Scalar) -> (bytes: [u8; 32])
    ensures
        bytes@ == scalar_bytes(*scalar),
        is_canonical(bytes@),
{
    scalar.to_bytes()
}

/// `Scalar::from_bytes`: succeeds exactly on canonical encodings, with the
/// element that `Scalar::to_bytes` encodes back to the same bytes; elements
/// are held reduced, so that is the only element with this encoding.
#[verifier::external_body]
fn scalar_from_bytes(bytes: &[u8; 32]) -> (scalar: Option<Scalar>)
    ensures
        scalar is Some <==> is_canonical(bytes@),
        scalar matches Some(s) ==> scalar_bytes(s) == bytes@,
        scalar matches Some(s) ==> forall|t: Scalar| #[trigger] scalar_bytes(t) == bytes@ ==> t == s,
{
    Option::from(Scalar::from_bytes(bytes))
}

/// `bellman::gadgets::multipack::compute_multipacking::<Scalar>`, each
/// element it returns taken as its encoding by `Scalar::to_bytes`.
///
/// The function cuts `bits` into chunks of `Scalar::CAPACITY` (254) bits and
/// sums `2^i` over the set bits `i` of each chunk; below `2^254` no reduction
/// happens, so each encoding is the chunk's number in little-endian order.
#[verifier::external_body]
pub(crate) fn compute_multipacking(bits: &[bool]) -> (packed: Vec<ScalarWrapper>)
    ensures
        multipacked(bits@, packed@),
{
    bellman::gadgets::multipack::compute_multipacking::<Scalar>(bits).iter().map(
        |s| ScalarWrapper::from_scalar(s),
    ).collect()
}

impl ScalarWrapper {
    /// Wraps the canonical encoding of `scalar`.
    pub fn from_scalar(scalar: &Scalar) -> (w: ScalarWrapper)
        ensures
            w.0@ == scalar_bytes(*scalar),
            is_canonical(w.0@),
    {
        ScalarWrapper(scalar_to_bytes(scalar))
    }

    /// The field element that the wrapped bytes encode. Undoes
    /// `from_scalar`: an element that `from_scalar` wrapped comes back.
    pub fn into_scalar(self) -> (scalar: Scalar)
        requires
            is_canonical(self.0@),
        ensures
            scalar_bytes(scalar) == self.0@,
            forall|t: Scalar| #[trigger] scalar_bytes(t) == self.0@ ==> t == scalar,
    {
        scalar_from_bytes(&self.0).unwrap()
    }
}

/// `2^254` lies below the field order, so every chunk fits a field element.
pub proof fn lemma_capacity_below_modulus()
    ensures
        pow2(scalar_capacity()) < scalar_modulus(),
{
    lemma2_to64();
    lemma2_to64_rest();
    lemma_pow2_adds(64, 64);
    lemma_pow2_adds(128, 64);
    lemma_pow2_adds(192, 62);
}

} // verus!
