//! Decoding of the hexadecimal embedding hash carried by a sign-up request.

use vstd::prelude::*;
use vstd::string::*;
use vstd::utf8::*;

verus! {

/// `b` is an ASCII hexadecimal digit (`0-9`, `A-F`, `a-f`).
pub open spec fn is_hex_digit(b: u8) -> bool {
    ||| 0x30 <= b <= 0x39
    ||| 0x41 <= b <= 0x46
    ||| 0x61 <= b <= 0x66
}

/// Value of the hexadecimal digit `b`.
pub open spec fn hex_digit_value(b: u8) -> int {
    if 0x30 <= b <= 0x39 {
        b - 0x30
    } else if 0x41 <= b <= 0x46 {
        b - 0x41 + 10
    } else {
        b - 0x61 + 10
    }
}

/// The two bytes form a base-16 number as `u8::from_str_radix` reads it:
/// two digits, or a `+` sign followed by one digit.
pub open spec fn pair_is_number(b0: u8, b1: u8) -> bool {
    ||| is_hex_digit(b0) && is_hex_digit(b1)
    ||| b0 == 0x2b && is_hex_digit(b1)
}

/// The number that the two bytes denote, when `pair_is_number(b0, b1)`.
pub open spec fn pair_value(b0: u8, b1: u8) -> u8 {
    if b0 == 0x2b {
        hex_digit_value(b1) as u8
    } else {
        (16 * hex_digit_value(b0) + hex_digit_value(b1)) as u8
    }
}

/// Chunk `k` of the input: its bytes `2k` and `2k + 1`.
pub open spec fn chunk(bytes: Seq<u8>, k: int) -> Seq<u8> {
    seq![bytes[2 * k], bytes[2 * k + 1]]
}

/// Chunk `k` decodes to a byte.
pub open spec fn chunk_ok(bytes: Seq<u8>, k: int) -> bool {
    pair_is_number(bytes[2 * k], bytes[2 * k + 1])
}

/// Chunk `k` is the first of the 32 chunks that does not decode.
pub open spec fn first_bad_chunk(bytes: Seq<u8>, k: int) -> bool {
    &&& 0 <= k < 32
    &&& !chunk_ok(bytes, k)
    &&& forall|j: int| 0 <= j < k ==> chunk_ok(bytes, j)
}

/// Every one of the 32 chunks decodes.
pub open spec fn all_chunks_ok(bytes: Seq<u8>) -> bool {
    forall|k: int| 0 <= k < 32 ==> chunk_ok(bytes, k)
}

/// The message for a chunk that does not decode: a chunk that is not UTF-8
/// on its own is reported as such, any other as a bad digit.
pub open spec fn chunk_error_message(bytes: Seq<u8>, k: int) -> Seq<char> {
    if valid_utf8(chunk(bytes, k)) {
        "Invalid hash digit"@
    } else {
        "Invalid UTF-8 in hash"@
    }
}

/// The 64-byte array that a well-formed 64-byte input decodes to: the 32
/// decoded chunks, followed by 32 zero bytes.
pub open spec fn decoded_hash(bytes: Seq<u8>) -> Seq<u8> {
    Seq::new(64, |i: int| if i < 32 { pair_value(bytes[2 * i], bytes[2 * i + 1]) } else { 0u8 })
}

/// The decimal digit character for `d < 10`.
pub open spec fn digit_char(d: nat) -> char {
    if d == 0 { '0' }
    else if d == 1 { '1' }
    else if d == 2 { '2' }
    else if d == 3 { '3' }
    else if d == 4 { '4' }
    else if d == 5 { '5' }
    else if d == 6 { '6' }
    else if d == 7 { '7' }
    else if d == 8 { '8' }
    else { '9' }
}

/// Decimal notation of `n`, without leading zeros.
pub open spec fn decimal(n: nat) -> Seq<char>
    decreases n,
{
    if n < 10 {
        seq![digit_char(n)]
    } else {
        decimal(n / 10) + seq![digit_char(n % 10)]
    }
}

/// The message for an input whose length in bytes is `len`, not 64.
pub open spec fn length_error_message(len: nat) -> Seq<char> {
    "Expected 64 characters, got "@ + decimal(len)
}

proof fn lemma_valid_utf8_pair(b0: u8, b1: u8)
    ensures
        valid_utf8(seq![b0, b1]) == (if b0 < 0x80 {
            b1 < 0x80
        } else {
            0xc2 <= b0 <= 0xdf && 0x80 <= b1 <= 0xbf
        }),
{
    let s = seq![b0, b1];
    let t = seq![b1];
    reveal_with_fuel(valid_utf8, 3);
    assert(s.subrange(1, 2) =~= t);
    assert(s.subrange(2, 2) =~= Seq::<u8>::empty());
    assert(t.subrange(1, 1) =~= Seq::<u8>::empty());
    assert(b0 < 0x80 ==> (b0 & 0x7f) as u32 <= 0x7f) by (bit_vector);
    assert(b1 < 0x80 ==> (b1 & 0x7f) as u32 <= 0x7f) by (bit_vector);
    assert(0xc0 <= b0 <= 0xdf && 0x80 <= b1 <= 0xbf ==> {
        &&& ((((b0 & 0x1f) as u32) << 6) | ((b1 & 0x3f) as u32) >= 0x80) == (b0 >= 0xc2)
        &&& ((((b0 & 0x1f) as u32) << 6) | ((b1 & 0x3f) as u32)) <= 0x7ff
    }) by (bit_vector);
}

/// Whether the two bytes, taken alone, are well-formed UTF-8.
fn pair_is_utf8(b0: u8, b1: u8) -> (r: bool)
    ensures
        r == valid_utf8(seq![b0, b1]),
        pair_is_number(b0, b1) ==> r,
{
    proof {
        lemma_valid_utf8_pair(b0, b1);
    }
    if b0 < 0x80 {
        b1 < 0x80
    } else {
        0xc2 <= b0 && b0 <= 0xdf && 0x80 <= b1 && b1 <= 0xbf
    }
}

fn hex_digit(b: u8) -> (r: Option<u8>)
    ensures
        r.is_some() == is_hex_digit(b),
        r matches Some(v) ==> v == hex_digit_value(b),
{
    if 0x30 <= b && b <= 0x39 {
        Some(b - 0x30)
    } else if 0x41 <= b && b <= 0x46 {
        Some(b - 0x41 + 10)
    } else if 0x61 <= b && b <= 0x66 {
        Some(b - 0x61 + 10)
    } else {
        None
    }
}

/// Reads two bytes as a base-16 number, as `u8::from_str_radix(_, 16)` reads
/// a two-byte string: a leading `+` is a sign, not a digit.
fn parse_hex_pair(b0: u8, b1: u8) -> (r: Option<u8>)
    ensures
        r.is_some() == pair_is_number(b0, b1),
        r matches Some(v) ==> v == pair_value(b0, b1),
{
    let low = match hex_digit(b1) {
        Some(d) => d,
        None => return None,
    };
    if b0 == 0x2b {
        return Some(low);
    }
    match hex_digit(b0) {
        Some(high) => Some(high * 16 + low),
        None => None,
    }
}

fn push_digit(s: &mut String, d: usize)
    requires
        d < 10,
    ensures
        final(s)@ == old(s)@ + seq![digit_char(d as nat)],
{
    let lit = if d == 0 {
        proof { reveal_strlit("0"); }
        "0"
    } else if d == 1 {
        proof { reveal_strlit("1"); }
        "1"
    } else if d == 2 {
        proof { reveal_strlit("2"); }
        "2"
    } else if d == 3 {
        proof { reveal_strlit("3"); }
        "3"
    } else if d == 4 {
        proof { reveal_strlit("4"); }
        "4"
    } else if d == 5 {
        proof { reveal_strlit("5"); }
        "5"
    } else if d == 6 {
        proof { reveal_strlit("6"); }
        "6"
    } else if d == 7 {
        proof { reveal_strlit("7"); }
        "7"
    } else if d == 8 {
        proof { reveal_strlit("8"); }
        "8"
    } else {
        proof { reveal_strlit("9"); }
        "9"
    };
    assert(lit@ =~= seq![digit_char(d as nat)]);
    s.append(lit);
}

/// Appends the decimal notation of `n` to `s`.
fn push_decimal(s: &mut String, n: usize)
    ensures
        final(s)@ == old(s)@ + decimal(n as nat),
    decreases n,
{
    if n >= 10 {
        push_decimal(s, n / 10);
    }
    push_digit(s, n % 10);
    proof {
        if n >= 10 {
            assert(decimal(n as nat) == decimal((n / 10) as nat) + seq![digit_char((n % 10) as nat)]);
        }
    }
    assert(final(s)@ =~= old(s)@ + decimal(n as nat));
}

/// The input decodes: it is 64 bytes long and every chunk is a number.
pub open spec fn hash_decodes(bytes: Seq<u8>) -> bool {
    bytes.len() == 64 && all_chunks_ok(bytes)
}

/// `msg` is the message with which an input that does not decode is refused.
pub open spec fn hash_error(bytes: Seq<u8>, msg: Seq<char>) -> bool {
    if bytes.len() != 64 {
        msg == length_error_message(bytes.len())
    } else {
        exists|k: int| first_bad_chunk(bytes, k) && msg == chunk_error_message(bytes, k)
    }
}

/// Decodes the 64 hexadecimal characters of an embedding hash.
///
/// Byte `i < 32` of the result is the number that bytes `2i` and `2i + 1` of
/// the input denote; bytes 32 to 63 stay zero. An input that is not 64 bytes
/// long, or that holds a pair of bytes that is not a number, is refused with a
/// message that names the first fault.
pub fn hash_to_array(hash: &str) -> (res: Result<[u8; 64], String>)
    ensures
        res is Ok <==> hash_decodes(hash.spec_bytes()),
        res matches Ok(arr) ==> arr@ == decoded_hash(hash.spec_bytes()),
        res matches Err(e) ==> hash_error(hash.spec_bytes(), e@),
{
    let bytes = hash.as_bytes();
    let len = bytes.len();
    if len != 64 {
        let mut msg = String::from_str("Expected 64 characters, got ");
        push_decimal(&mut msg, len);
        return Err(msg);
    }
    let ghost b = hash.spec_bytes();
    let mut result = [0u8; 64];
    let mut i: usize = 0;
    while i < 32
        invariant
            bytes@ == b,
            b == hash.spec_bytes(),
            b.len() == 64,
            i <= 32,
            forall|j: int| 0 <= j < i ==> chunk_ok(b, j),
            forall|j: int| 0 <= j < i ==> result@[j] == pair_value(b[2 * j], b[2 * j + 1]),
            forall|j: int| i <= j < 64 ==> result@[j] == 0,
        decreases 32 - i,
    {
        let b0 = bytes[2 * i];
        let b1 = bytes[2 * i + 1];
        if !pair_is_utf8(b0, b1) {
            proof {
                assert(chunk(b, i as int) =~= seq![b0, b1]);
                assert(first_bad_chunk(b, i as int));
            }
            return Err(String::from_str("Invalid UTF-8 in hash"));
        }
        match parse_hex_pair(b0, b1) {
            Some(v) => {
                result[i] = v;
            },
            None => {
                proof {
                    assert(chunk(b, i as int) =~= seq![b0, b1]);
                    assert(first_bad_chunk(b, i as int));
                }
                return Err(String::from_str("Invalid hash digit"));
            },
        }
        i = i + 1;
    }
    assert(result@ =~= decoded_hash(b));
    Ok(result)
}

/// The lowercase hexadecimal digit for `d < 16`.
pub open spec fn hex_char(d: int) -> u8 {
    if d < 10 {
        (0x30 + d) as u8
    } else {
        (0x61 + d - 10) as u8
    }
}

/// The lowercase hexadecimal notation of `bytes`, two digits per byte.
pub open spec fn hex_encode(bytes: Seq<u8>) -> Seq<u8> {
    Seq::new(
        2 * bytes.len(),
        |i: int|
            if i % 2 == 0 {
                hex_char(bytes[i / 2] as int / 16)
            } else {
                hex_char(bytes[i / 2] as int % 16)
            },
    )
}

/// Every 32-byte value has a hash that decodes to it: its lowercase
/// hexadecimal notation decodes to the value followed by 32 zero bytes.
pub proof fn lemma_hex_encode_decodes(bytes: Seq<u8>)
    requires
        bytes.len() == 32,
    ensures
        hash_decodes(hex_encode(bytes)),
        decoded_hash(hex_encode(bytes)) == bytes + Seq::new(32, |i: int| 0u8),
{
    let e = hex_encode(bytes);
    assert forall|k: int| 0 <= k < 32 implies chunk_ok(e, k) && pair_value(e[2 * k], e[2 * k + 1])
        == bytes[k] by {
        assert((2 * k) / 2 == k && (2 * k) % 2 == 0);
        assert((2 * k + 1) / 2 == k && (2 * k + 1) % 2 == 1);
        let b = bytes[k];
        assert(16 * (b / 16) + b % 16 == b);
    }
    assert(decoded_hash(e) =~= bytes + Seq::new(32, |i: int| 0u8));
}

/// The uppercase hexadecimal digit for `d < 16`.
pub open spec fn hex_char_upper(d: int) -> u8 {
    if d < 10 {
        (0x30 + d) as u8
    } else {
        (0x41 + d - 10) as u8
    }
}

/// The hexadecimal digit for `d < 16`, uppercase or lowercase.
pub open spec fn hex_char_in_case(d: int, upper: bool) -> u8 {
    if upper {
        hex_char_upper(d)
    } else {
        hex_char(d)
    }
}

/// The uppercase hexadecimal notation of `bytes`, two digits per byte.
pub open spec fn hex_encode_upper(bytes: Seq<u8>) -> Seq<u8> {
    Seq::new(
        2 * bytes.len(),
        |i: int|
            if i % 2 == 0 {
                hex_char_upper(bytes[i / 2] as int / 16)
            } else {
                hex_char_upper(bytes[i / 2] as int % 16)
            },
    )
}

/// Two hexadecimal digits of values `d0` and `d1`, each in either case, form
/// a number, and that number is `16 * d0 + d1`.
pub proof fn lemma_hex_pair_value(d0: int, d1: int, upper0: bool, upper1: bool)
    requires
        0 <= d0 < 16,
        0 <= d1 < 16,
    ensures
        pair_is_number(hex_char_in_case(d0, upper0), hex_char_in_case(d1, upper1)),
        pair_value(hex_char_in_case(d0, upper0), hex_char_in_case(d1, upper1)) == 16 * d0 + d1,
{
}

/// A `+` followed by a hexadecimal digit of value `d`, in either case, is the
/// number `d`.
pub proof fn lemma_plus_digit_value(d: int, upper: bool)
    requires
        0 <= d < 16,
    ensures
        pair_is_number(0x2bu8, hex_char_in_case(d, upper)),
        pair_value(0x2bu8, hex_char_in_case(d, upper)) == d,
{
}

/// A pair whose second byte is no hexadecimal digit is not a number, nor is a
/// pair whose first byte is neither a digit nor `+`.
pub proof fn lemma_non_digit_pair_refused(b0: u8, b1: u8)
    requires
        !(0x30 <= b1 <= 0x39 || 0x41 <= b1 <= 0x46 || 0x61 <= b1 <= 0x66) || (!(0x30 <= b0 <= 0x39
            || 0x41 <= b0 <= 0x46 || 0x61 <= b0 <= 0x66) && b0 != 0x2b),
    ensures
        !pair_is_number(b0, b1),
{
}

/// Every 32-byte value has an uppercase hash that decodes to it: its
/// uppercase hexadecimal notation decodes to the value followed by 32 zero
/// bytes.
pub proof fn lemma_hex_encode_upper_decodes(bytes: Seq<u8>)
    requires
        bytes.len() == 32,
    ensures
        hash_decodes(hex_encode_upper(bytes)),
        decoded_hash(hex_encode_upper(bytes)) == bytes + Seq::new(32, |i: int| 0u8),
{
    let e = hex_encode_upper(bytes);
    assert forall|k: int| 0 <= k < 32 implies chunk_ok(e, k) && pair_value(e[2 * k], e[2 * k + 1])
        == bytes[k] by {
        assert((2 * k) / 2 == k && (2 * k) % 2 == 0);
        assert((2 * k + 1) / 2 == k && (2 * k + 1) % 2 == 1);
        let b = bytes[k];
        assert(16 * (b / 16) + b % 16 == b);
    }
    assert(decoded_hash(e) =~= bytes + Seq::new(32, |i: int| 0u8));
}

/// A pair of ASCII bytes that is not a number is reported as a bad digit; a
/// pair that starts with a UTF-8 continuation byte, or with an ASCII byte
/// followed by a non-ASCII one, as invalid UTF-8.
pub proof fn lemma_chunk_error_kind(bytes: Seq<u8>, k: int)
    requires
        0 <= k,
        2 * k + 1 < bytes.len(),
    ensures
        bytes[2 * k] < 0x80 && bytes[2 * k + 1] < 0x80 ==> chunk_error_message(bytes, k)
            == "Invalid hash digit"@,
        (0x80 <= bytes[2 * k] <= 0xbf || (bytes[2 * k] < 0x80 && bytes[2 * k + 1] >= 0x80))
            ==> chunk_error_message(bytes, k) == "Invalid UTF-8 in hash"@,
{
    lemma_valid_utf8_pair(bytes[2 * k], bytes[2 * k + 1]);
}

/// The number that a string of decimal digits denotes, most significant
/// digit first.
pub open spec fn digits_value(s: Seq<char>) -> int
    decreases s.len(),
{
    if s.len() == 0 {
        0
    } else {
        10 * digits_value(s.drop_last()) + (s.last() as int - 48)
    }
}

/// The decimal notation of `n` is made of the digits `0` to `9`, starts with
/// a nonzero digit unless `n` is zero, and denotes `n`.
pub proof fn lemma_decimal_denotes(n: nat)
    ensures
        decimal(n).len() >= 1,
        forall|i: int| 0 <= i < decimal(n).len() ==> 48 <= #[trigger] (decimal(n)[i] as int) <= 57,
        n != 0 ==> decimal(n)[0] != '0',
        digits_value(decimal(n)) == n,
    decreases n,
{
    assert('0' as int == 48 && '1' as int == 49 && '2' as int == 50 && '3' as int == 51 && '4' as int
        == 52 && '5' as int == 53 && '6' as int == 54 && '7' as int == 55 && '8' as int == 56
        && '9' as int == 57);
    assert forall|d: nat| d < 10 implies #[trigger] digit_char(d) as int == 48 + d by {
        if d == 0 {} else if d == 1 {} else if d == 2 {} else if d == 3 {} else if d == 4 {}
        else if d == 5 {} else if d == 6 {} else if d == 7 {} else if d == 8 {} else {}
    }
    if n >= 10 {
        lemma_decimal_denotes(n / 10);
        let d = decimal(n);
        assert(d.drop_last() =~= decimal(n / 10));
        assert(d.last() == digit_char(n % 10));
        assert forall|i: int| 0 <= i < d.len() implies 48 <= #[trigger] (d[i] as int) <= 57 by {
            if i < d.len() - 1 {
                assert(d[i] == decimal(n / 10)[i]);
            }
        }
        assert(d[0] == decimal(n / 10)[0]);
        assert(d.last() as int - 48 == n % 10);
        assert(digits_value(d) == 10 * digits_value(d.drop_last()) + (d.last() as int - 48));
        assert(10 * (n / 10) + n % 10 == n);
    } else {
        assert(decimal(n).drop_last() =~= Seq::<char>::empty());
        assert(decimal(n).last() as int - 48 == n);
        assert(digits_value(decimal(n)) == 10 * digits_value(decimal(n).drop_last()) + (
        decimal(n).last() as int - 48));
    }
}

/// The fault reported is the first: no chunk before it is bad.
pub proof fn lemma_first_bad_chunk_is_first(bytes: Seq<u8>, k: int, j: int)
    requires
        first_bad_chunk(bytes, k),
        0 <= j < 32,
        !chunk_ok(bytes, j),
    ensures
        k <= j,
{
}

} // verus!
