//! Little-endian readings of bytes and bits, and the bit decomposition that
//! feeds the multipacking of a digest.

use vstd::arithmetic::power2::*;
use vstd::prelude::*;

verus! {

/// The number that `bytes` denotes in little-endian order.
pub open spec fn le_value(bytes: Seq<u8>) -> nat
    decreases bytes.len(),
{
    if bytes.len() == 0 {
        0
    } else {
        bytes[0] as nat + 256 * le_value(bytes.drop_first())
    }
}

/// 1 for a set bit, 0 for a clear one.
pub open spec fn bit_value(b: bool) -> nat {
    if b {
        1
    } else {
        0
    }
}

/// The number that `bits` denotes, least significant bit first.
pub open spec fn bits_value(bits: Seq<bool>) -> nat
    decreases bits.len(),
{
    if bits.len() == 0 {
        0
    } else {
        bit_value(bits[0]) + 2 * bits_value(bits.drop_first())
    }
}

/// Bit `j` (0 the least significant) of the byte `b`.
pub open spec fn byte_bit(b: u8, j: int) -> bool {
    (b >> (j as u8)) & 1u8 == 1u8
}

/// The bits of `bytes`, byte after byte, each byte least significant bit first.
pub open spec fn bits_le(bytes: Seq<u8>) -> Seq<bool> {
    Seq::new(8 * bytes.len(), |i: int| byte_bit(bytes[i / 8], i % 8))
}

/// Splits `bytes` into bits as `bellman::gadgets::multipack::bytes_to_bits_le`
/// does: byte after byte, each byte least significant bit first.
pub fn bytes_to_bits_le(bytes: &[u8]) -> (bits: Vec<bool>)
    ensures
        bits@ == bits_le(bytes@),
{
    let mut bits: Vec<bool> = Vec::new();
    let n = bytes.len();
    for i in 0..n
        invariant
            n == bytes@.len(),
            bits@.len() == 8 * i,
            forall|k: int| 0 <= k < 8 * i ==> bits@[k] == byte_bit(bytes@[k / 8], k % 8),
    {
        let v = bytes[i];
        for j in 0..8u8
            invariant
                n == bytes@.len(),
                i < n,
                v == bytes@[i as int],
                bits@.len() == 8 * i + j,
                forall|k: int| 0 <= k < 8 * i + j ==> bits@[k] == byte_bit(bytes@[k / 8], k % 8),
        {
            bits.push((v >> j) & 1u8 == 1u8);
            assert((8 * i + j) / 8 == i && (8 * i + j) % 8 == j);
        }
    }
    assert(bits@ =~= bits_le(bytes@));
    bits
}

/// Appends `bytes` to `out`.
pub fn append_bytes(out: &mut Vec<u8>, bytes: &[u8])
    ensures
        final(out)@ == old(out)@ + bytes@,
{
    let ghost start = out@;
    let n = bytes.len();
    for i in 0..n
        invariant
            n == bytes@.len(),
            out@ == start + bytes@.subrange(0, i as int),
    {
        out.push(bytes[i]);
        assert(out@ =~= start + bytes@.subrange(0, i + 1));
    }
    assert(bytes@.subrange(0, n as int) =~= bytes@);
}

/// Reading a concatenation: the second part counts `2^a.len()` times.
pub proof fn lemma_bits_value_append(a: Seq<bool>, b: Seq<bool>)
    ensures
        bits_value(a + b) == bits_value(a) + pow2(a.len()) * bits_value(b),
    decreases a.len(),
{
    if a.len() == 0 {
        assert(a + b =~= b);
        lemma2_to64();
    } else {
        assert((a + b).drop_first() =~= a.drop_first() + b);
        assert((a + b)[0] == a[0]);
        lemma_bits_value_append(a.drop_first(), b);
        lemma_pow2_unfold(a.len());
        assert(pow2(a.len()) == 2 * pow2((a.len() - 1) as nat));
        assert(2 * (pow2((a.len() - 1) as nat) * bits_value(b)) == pow2(a.len()) * bits_value(b))
            by (nonlinear_arith)
            requires
                pow2(a.len()) == 2 * pow2((a.len() - 1) as nat),
        ;
    }
}

/// `bits` denotes a number below `2^bits.len()`.
pub proof fn lemma_bits_value_bound(bits: Seq<bool>)
    ensures
        bits_value(bits) < pow2(bits.len()),
    decreases bits.len(),
{
    if bits.len() == 0 {
        lemma2_to64();
    } else {
        lemma_bits_value_bound(bits.drop_first());
        lemma_pow2_unfold(bits.len());
    }
}

/// Splitting `bits` at `n`: the low part plus `2^n` times the high part.
pub proof fn lemma_bits_value_split(bits: Seq<bool>, n: int)
    requires
        0 <= n <= bits.len(),
    ensures
        bits_value(bits) == bits_value(bits.subrange(0, n)) + pow2(n as nat) * bits_value(
            bits.subrange(n, bits.len() as int),
        ),
{
    assert(bits =~= bits.subrange(0, n) + bits.subrange(n, bits.len() as int));
    lemma_bits_value_append(bits.subrange(0, n), bits.subrange(n, bits.len() as int));
}

/// The eight bits of a byte denote the byte.
pub proof fn lemma_byte_bits_value(b: u8)
    ensures
        bits_value(bits_le(seq![b])) == b as nat,
{
    let s = bits_le(seq![b]);
    reveal_with_fuel(bits_value, 9);
    assert(s.len() == 8);
    assert(forall|j: int| 0 <= j < 8 ==> #[trigger] s[j] == byte_bit(b, j));
    assert(b as int == ((b >> 0u8) & 1u8) as int + 2 * ((b >> 1u8) & 1u8) as int + 4 * ((b >> 2u8)
        & 1u8) as int + 8 * ((b >> 3u8) & 1u8) as int + 16 * ((b >> 4u8) & 1u8) as int + 32 * ((b
        >> 5u8) & 1u8) as int + 64 * ((b >> 6u8) & 1u8) as int + 128 * ((b >> 7u8) & 1u8) as int)
        by (bit_vector);
    assert(forall|j: u8| j < 8 ==> #[trigger] ((b >> j) & 1u8) == 0u8 || ((b >> j) & 1u8) == 1u8)
        by (bit_vector);
    assert(forall|j: int| 0 <= j < 8 ==> bit_value(#[trigger] s[j]) == ((b >> (j as u8)) & 1u8)) by {
        assert forall|j: int| 0 <= j < 8 implies bit_value(#[trigger] s[j]) == ((b >> (j as u8))
            & 1u8) by {
            assert(((b >> (j as u8)) & 1u8) == 0u8 || ((b >> (j as u8)) & 1u8) == 1u8);
        }
    }
    assert(s.drop_first().drop_first().drop_first().drop_first().drop_first().drop_first(
    ).drop_first().drop_first() =~= Seq::<bool>::empty());
    assert(s[0] == s[0]);
    assert(s.drop_first()[0] == s[1]);
    assert(s.drop_first().drop_first()[0] == s[2]);
    assert(s.drop_first().drop_first().drop_first()[0] == s[3]);
    assert(s.drop_first().drop_first().drop_first().drop_first()[0] == s[4]);
    assert(s.drop_first().drop_first().drop_first().drop_first().drop_first()[0] == s[5]);
    assert(s.drop_first().drop_first().drop_first().drop_first().drop_first().drop_first()[0]
        == s[6]);
    assert(s.drop_first().drop_first().drop_first().drop_first().drop_first().drop_first(
    ).drop_first()[0] == s[7]);
}

/// The bits of a byte string denote the same number as the bytes.
pub proof fn lemma_bits_le_value(bytes: Seq<u8>)
    ensures
        bits_value(bits_le(bytes)) == le_value(bytes),
    decreases bytes.len(),
{
    if bytes.len() > 0 {
        let head = bits_le(seq![bytes[0]]);
        let tail = bits_le(bytes.drop_first());
        assert(bits_le(bytes) =~= head + tail);
        lemma_bits_value_append(head, tail);
        lemma_byte_bits_value(bytes[0]);
        lemma_bits_le_value(bytes.drop_first());
        lemma2_to64();
    }
}

/// Two byte strings of one length that denote the same number are equal.
pub proof fn lemma_le_value_injective(a: Seq<u8>, b: Seq<u8>)
    requires
        a.len() == b.len(),
        le_value(a) == le_value(b),
    ensures
        a == b,
    decreases a.len(),
{
    if a.len() > 0 {
        let ra = le_value(a.drop_first());
        let rb = le_value(b.drop_first());
        let a0 = a[0] as int;
        let b0 = b[0] as int;
        assert(a0 == b0 && ra == rb) by (nonlinear_arith)
            requires
                0 <= a0 < 256,
                0 <= b0 < 256,
                ra >= 0,
                rb >= 0,
                a0 + 256 * ra == b0 + 256 * rb,
        ;
        lemma_le_value_injective(a.drop_first(), b.drop_first());
        assert(a =~= seq![a[0]] + a.drop_first());
        assert(b =~= seq![b[0]] + b.drop_first());
    } else {
        assert(a =~= b);
    }
}

/// Reading a concatenation of bytes: the second part counts
/// `2^(8 * a.len())` times, so the first byte is the least significant.
pub proof fn lemma_le_value_append(a: Seq<u8>, b: Seq<u8>)
    ensures
        le_value(a + b) == le_value(a) + pow2(8 * a.len()) * le_value(b),
    decreases a.len(),
{
    if a.len() == 0 {
        assert(a + b =~= b);
        lemma2_to64();
    } else {
        assert((a + b).drop_first() =~= a.drop_first() + b);
        assert((a + b)[0] == a[0]);
        lemma_le_value_append(a.drop_first(), b);
        let n = (8 * (a.len() - 1)) as nat;
        lemma_pow2_adds(8, n);
        lemma2_to64();
        assert(8 * a.len() == 8 + n);
        assert(256 * (pow2(n) * le_value(b)) == pow2(8 * a.len()) * le_value(b)) by (nonlinear_arith)
            requires
                pow2(8 * a.len()) == 256 * pow2(n),
        ;
    }
}

} // verus!
