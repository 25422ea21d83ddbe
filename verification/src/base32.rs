//! Bech32 text, and the five-bit digits that it carries.

use vstd::prelude::*;

use bech32::{CheckBase32, FromBase32, ToBase32};

verus! {

/// Why a text is not Bech32, as the `bech32` crate reports it.
#[verifier::external_type_specification]
#[verifier::external_body]
pub struct ExBech32Error(bech32::Error);

/// The `i`-th bit of `bytes`, most significant bit of the first byte first; zero behind the end.
pub open spec fn byte_bit(bytes: Seq<u8>, i: int) -> u8 {
    if 0 <= i < 8 * bytes.len() {
        (bytes[i / 8] >> ((7 - i % 8) as u8)) & 1
    } else {
        0
    }
}

/// The `i`-th bit of `digits`, most significant of five bits of the first digit first; zero behind
/// the end.
pub open spec fn digit_bit(digits: Seq<u8>, i: int) -> u8 {
    if 0 <= i < 5 * digits.len() {
        (digits[i / 5] >> ((4 - i % 5) as u8)) & 1
    } else {
        0
    }
}

/// Whether every digit has at most five bits.
pub open spec fn are_digits(digits: Seq<u8>) -> bool {
    forall|i: int| 0 <= i < digits.len() ==> digits[i] < 32
}

/// The bits of `bytes` regrouped by five, the last group filled up with zeros.
pub open spec fn base32_digits(bytes: Seq<u8>) -> Seq<u8> {
    Seq::new(
        (8 * bytes.len() + 4) as nat / 5,
        |j: int|
            (16 * byte_bit(bytes, 5 * j) + 8 * byte_bit(bytes, 5 * j + 1) + 4 * byte_bit(
                bytes,
                5 * j + 2,
            ) + 2 * byte_bit(bytes, 5 * j + 3) + byte_bit(bytes, 5 * j + 4)) as u8,
    )
}

/// The bits of `digits` regrouped by eight, without those that fill no byte.
pub open spec fn base32_bytes(digits: Seq<u8>) -> Seq<u8> {
    Seq::new(
        5 * digits.len() / 8,
        |j: int|
            (128 * digit_bit(digits, 8 * j) + 64 * digit_bit(digits, 8 * j + 1) + 32 * digit_bit(
                digits,
                8 * j + 2,
            ) + 16 * digit_bit(digits, 8 * j + 3) + 8 * digit_bit(digits, 8 * j + 4) + 4
                * digit_bit(digits, 8 * j + 5) + 2 * digit_bit(digits, 8 * j + 6) + digit_bit(
                digits,
                8 * j + 7,
            )) as u8,
    )
}

/// Whether the bits that fill no byte are fewer than a digit and all zero.
pub open spec fn well_padded(digits: Seq<u8>) -> bool {
    &&& 5 * digits.len() % 8 < 5
    &&& forall|i: int| 5 * digits.len() / 8 * 8 <= i ==> #[trigger] digit_bit(digits, i) == 0
}

/// The Bech32 text of a human-readable part and digits.
pub uninterp spec fn bech32_text(hrp: Seq<char>, digits: Seq<u8>) -> Seq<char>;

/// The human-readable part and the digits of a Bech32 text, or what is wrong with the text.
pub uninterp spec fn bech32_decoded(text: Seq<char>) -> Result<
    (Seq<char>, Seq<u8>),
    bech32::Error,
>;

/// Whether `hrp` can be the human-readable part of a Bech32 text as it stands: one to 83 visible
/// ASCII characters, none of them an upper-case letter.
pub open spec fn is_plain_hrp(hrp: Seq<char>) -> bool {
    &&& 1 <= hrp.len() <= 83
    &&& forall|i: int|
        0 <= i < hrp.len() ==> '!' <= #[trigger] hrp[i] <= '~' && !('A' <= hrp[i] <= 'Z')
}

/// `text` with every ASCII letter in lower case.
pub open spec fn lower_case(text: Seq<char>) -> Seq<char> {
    text.map_values(|c: char| if 'A' <= c <= 'Z' { ((c as u32) + 32) as char } else { c })
}

/// The characters that stand for the digits.
pub open spec fn bech32_charset() -> Seq<char> {
    "qpzry9x8gf2tvdw0s3jn54khce6mua7l"@
}

/// Whether `text` is the human-readable part, the separator `1`, one character for each digit,
/// and six more digits' characters as a checksum.
pub open spec fn spells(text: Seq<char>, hrp: Seq<char>, digits: Seq<u8>) -> bool {
    let end = hrp.len() + 1 + digits.len();
    &&& text.len() == end + 6
    &&& text.take(hrp.len() as int) == hrp
    &&& text[hrp.len() as int] == '1'
    &&& forall|i: int|
        0 <= i < digits.len() ==> #[trigger] text[hrp.len() + 1 + i]
            == bech32_charset()[digits[i] as int]
    &&& forall|i: int| end <= i < end + 6 ==> bech32_charset().contains(#[trigger] text[i])
}

/// The mathematical content of what [`decode`] returns.
pub open spec fn decoded_view(decoded: Result<(String, Vec<u8>), bech32::Error>) -> Result<
    (Seq<char>, Seq<u8>),
    bech32::Error,
> {
    match decoded {
        Ok((hrp, digits)) => Ok((hrp@, digits@)),
        Err(error) => Err(error),
    }
}

/// Calls `bech32::ToBase32::to_base32` on a byte slice: its bits regrouped by five, most
/// significant first, the last group filled up with zeros. The digits' number fits a vector.
#[verifier::external_body]
pub(crate) fn to_base32(bytes: &[u8]) -> (digits: Vec<u8>)
    requires
        8 * bytes@.len() + 4 <= isize::MAX,
    ensures
        digits@ == base32_digits(bytes@),
{
    bytes.to_base32().into_iter().map(|digit| digit.to_u8()).collect()
}

/// Calls `bech32::FromBase32::from_base32` for `Vec<u8>`: the digits' bits regrouped by eight, or
/// an error if the bits left over fill a digit or are not all zero.
#[verifier::external_body]
pub(crate) fn from_base32(digits: &[u8]) -> (result: Result<Vec<u8>, bech32::Error>)
    requires
        are_digits(digits@),
    ensures
        result is Ok <==> well_padded(digits@),
        result matches Ok(bytes) ==> bytes@ == base32_bytes(digits@),
{
    Vec::<u8>::from_base32(&digits.check_base32().unwrap())
}

/// Calls `bech32::encode_to_fmt` on an empty string. A plain human-readable part is never
/// refused. The text depends on the part and the digits alone and spells them out, and
/// `bech32::decode` gives them back. The text fits a string. Which six characters the checksum is
/// made of is not said.
#[verifier::external_body]
pub(crate) fn encode(hrp: &str, digits: &[u8]) -> (result: Result<String, bech32::Error>)
    requires
        is_plain_hrp(hrp@),
        are_digits(digits@),
        2 * digits@.len() + 180 <= isize::MAX,
    ensures
        result is Ok,
        result->Ok_0@ == bech32_text(hrp@, digits@),
        spells(result->Ok_0@, hrp@, digits@),
        bech32_decoded(result->Ok_0@) is Ok,
        bech32_decoded(result->Ok_0@)->Ok_0 == (hrp@, digits@),
{
    let mut text = String::new();
    bech32::encode_to_fmt(&mut text, hrp, digits.check_base32().unwrap())?.unwrap();
    Ok(text)
}

/// Calls `bech32::decode`. What it makes of a text depends on the text alone. The parts of a
/// Bech32 text are a plain human-readable part and five-bit digits, and the text in lower case is
/// the text of these parts: there is only one checksum that fits.
#[verifier::external_body]
pub(crate) fn decode(text: &str) -> (decoded: Result<(String, Vec<u8>), bech32::Error>)
    ensures
        decoded_view(decoded) == bech32_decoded(text@),
        decoded matches Ok((hrp, digits)) ==> is_plain_hrp(hrp@) && are_digits(digits@),
        decoded matches Ok((hrp, digits)) ==> bech32_text(hrp@, digits@) == lower_case(text@),
        decoded matches Ok((hrp, digits)) ==> spells(lower_case(text@), hrp@, digits@),
{
    let (hrp, digits) = bech32::decode(text)?;
    Ok((hrp, digits.into_iter().map(|digit| digit.to_u8()).collect()))
}

proof fn digit_is_made_of_bits(a: u8, b: u8, c: u8, d: u8, e: u8)
    by (bit_vector)
    requires
        a <= 1,
        b <= 1,
        c <= 1,
        d <= 1,
        e <= 1,
    ensures
        ({
            let digit = (16 * a + 8 * b + 4 * c + 2 * d + e) as u8;
            &&& digit < 32
            &&& (digit >> 4u8) & 1 == a
            &&& (digit >> 3u8) & 1 == b
            &&& (digit >> 2u8) & 1 == c
            &&& (digit >> 1u8) & 1 == d
            &&& (digit >> 0u8) & 1 == e
        }),
{
}

proof fn byte_is_made_of_bits(v: u8)
    by (bit_vector)
    ensures
        v == (128 * ((v >> 7u8) & 1) + 64 * ((v >> 6u8) & 1) + 32 * ((v >> 5u8) & 1) + 16 * ((v
            >> 4u8) & 1) + 8 * ((v >> 3u8) & 1) + 4 * ((v >> 2u8) & 1) + 2 * ((v >> 1u8) & 1) + ((v
            >> 0u8) & 1)) as u8,
{
}

proof fn bits_are_small(bytes: Seq<u8>, i: int)
    ensures
        byte_bit(bytes, i) <= 1,
{
    if 0 <= i < 8 * bytes.len() {
        let v = bytes[i / 8];
        let k = (7 - i % 8) as u8;
        assert((v >> k) & 1 <= 1) by (bit_vector);
    }
}

/// The digits of `bytes` carry the same bits.
proof fn digits_keep_bits(bytes: Seq<u8>, i: int)
    ensures
        0 <= i < 5 * base32_digits(bytes).len() ==> base32_digits(bytes)[i / 5] < 32,
        0 <= i ==> digit_bit(base32_digits(bytes), i) == byte_bit(bytes, i),
{
    let digits = base32_digits(bytes);
    if 0 <= i < 5 * digits.len() {
        let j = i / 5;
        bits_are_small(bytes, 5 * j);
        bits_are_small(bytes, 5 * j + 1);
        bits_are_small(bytes, 5 * j + 2);
        bits_are_small(bytes, 5 * j + 3);
        bits_are_small(bytes, 5 * j + 4);
        digit_is_made_of_bits(
            byte_bit(bytes, 5 * j),
            byte_bit(bytes, 5 * j + 1),
            byte_bit(bytes, 5 * j + 2),
            byte_bit(bytes, 5 * j + 3),
            byte_bit(bytes, 5 * j + 4),
        );
    }
}

/// The bits of a byte stand in the digits where they stand in the bytes.
proof fn bit_comes_back(bytes: Seq<u8>, j: int, k: int)
    requires
        0 <= j < bytes.len(),
        0 <= k < 8,
    ensures
        digit_bit(base32_digits(bytes), 8 * j + k) == (bytes[j] >> ((7 - k) as u8)) & 1,
{
    digits_keep_bits(bytes, 8 * j + k);
    assert((8 * j + k) / 8 == j);
    assert((8 * j + k) % 8 == k);
}

/// Eight bits of the digits of `bytes` make up one byte again.
proof fn byte_comes_back(bytes: Seq<u8>, digits: Seq<u8>, j: int)
    requires
        0 <= j < bytes.len(),
        5 * digits.len() / 8 == bytes.len(),
        forall|k: int|
            0 <= k < 8 ==> #[trigger] digit_bit(digits, 8 * j + k) == (bytes[j] >> ((7 - k) as u8))
                & 1,
    ensures
        base32_bytes(digits)[j] == bytes[j],
{
    let v = bytes[j];
    assert(digit_bit(digits, 8 * j + 0) == (v >> 7u8) & 1);
    assert(digit_bit(digits, 8 * j + 1) == (v >> 6u8) & 1);
    assert(digit_bit(digits, 8 * j + 2) == (v >> 5u8) & 1);
    assert(digit_bit(digits, 8 * j + 3) == (v >> 4u8) & 1);
    assert(digit_bit(digits, 8 * j + 4) == (v >> 3u8) & 1);
    assert(digit_bit(digits, 8 * j + 5) == (v >> 2u8) & 1);
    assert(digit_bit(digits, 8 * j + 6) == (v >> 1u8) & 1);
    assert(digit_bit(digits, 8 * j + 7) == (v >> 0u8) & 1);
    byte_is_made_of_bits(v);
}

/// Bytes that are regrouped by five and back again come out as they went in.
pub proof fn base32_round_trip(bytes: Seq<u8>)
    ensures
        are_digits(base32_digits(bytes)),
        well_padded(base32_digits(bytes)),
        base32_bytes(base32_digits(bytes)) == bytes,
{
    let digits = base32_digits(bytes);
    assert forall|i: int| 0 <= i < digits.len() implies digits[i] < 32 by {
        digits_keep_bits(bytes, 5 * i);
        assert((5 * i) / 5 == i);
    }
    assert(5 * digits.len() / 8 == bytes.len());
    assert forall|i: int| 5 * digits.len() / 8 * 8 <= i implies #[trigger] digit_bit(digits, i)
        == 0 by {
        digits_keep_bits(bytes, i);
    }
    assert forall|j: int| 0 <= j < bytes.len() implies #[trigger] base32_bytes(digits)[j]
        == bytes[j] by {
        assert forall|k: int| 0 <= k < 8 implies #[trigger] digit_bit(digits, 8 * j + k) == (
        bytes[j] >> ((7 - k) as u8)) & 1 by {
            bit_comes_back(bytes, j, k);
        }
        byte_comes_back(bytes, digits, j);
    }
    assert(base32_bytes(digits) =~= bytes);
}

proof fn digit_comes_from_its_bits(v: u8)
    by (bit_vector)
    requires
        v < 32,
    ensures
        v == (16 * ((v >> 4u8) & 1) + 8 * ((v >> 3u8) & 1) + 4 * ((v >> 2u8) & 1) + 2 * ((v >> 1u8)
            & 1) + ((v >> 0u8) & 1)) as u8,
{
}

proof fn byte_has_these_bits(a: u8, b: u8, c: u8, d: u8, e: u8, f: u8, g: u8, h: u8)
    by (bit_vector)
    requires
        a <= 1,
        b <= 1,
        c <= 1,
        d <= 1,
        e <= 1,
        f <= 1,
        g <= 1,
        h <= 1,
    ensures
        ({
            let byte = (128 * a + 64 * b + 32 * c + 16 * d + 8 * e + 4 * f + 2 * g + h) as u8;
            &&& (byte >> 7u8) & 1 == a
            &&& (byte >> 6u8) & 1 == b
            &&& (byte >> 5u8) & 1 == c
            &&& (byte >> 4u8) & 1 == d
            &&& (byte >> 3u8) & 1 == e
            &&& (byte >> 2u8) & 1 == f
            &&& (byte >> 1u8) & 1 == g
            &&& (byte >> 0u8) & 1 == h
        }),
{
}

proof fn digit_bits_are_small(digits: Seq<u8>, i: int)
    ensures
        digit_bit(digits, i) <= 1,
{
    if 0 <= i < 5 * digits.len() {
        let v = digits[i / 5];
        let k = (4 - i % 5) as u8;
        assert((v >> k) & 1 <= 1) by (bit_vector);
    }
}

/// The bytes of `digits` carry the same bits, as far as they go.
proof fn bytes_keep_bits(digits: Seq<u8>, j: int, k: int)
    requires
        0 <= j < base32_bytes(digits).len(),
        0 <= k < 8,
    ensures
        byte_bit(base32_bytes(digits), 8 * j + k) == digit_bit(digits, 8 * j + k),
{
    let bytes = base32_bytes(digits);
    assert((8 * j + k) / 8 == j);
    assert((8 * j + k) % 8 == k);
    assert(byte_bit(bytes, 8 * j + k) == (bytes[j] >> ((7 - k) as u8)) & 1);
    digit_bits_are_small(digits, 8 * j);
    digit_bits_are_small(digits, 8 * j + 1);
    digit_bits_are_small(digits, 8 * j + 2);
    digit_bits_are_small(digits, 8 * j + 3);
    digit_bits_are_small(digits, 8 * j + 4);
    digit_bits_are_small(digits, 8 * j + 5);
    digit_bits_are_small(digits, 8 * j + 6);
    digit_bits_are_small(digits, 8 * j + 7);
    byte_has_these_bits(
        digit_bit(digits, 8 * j),
        digit_bit(digits, 8 * j + 1),
        digit_bit(digits, 8 * j + 2),
        digit_bit(digits, 8 * j + 3),
        digit_bit(digits, 8 * j + 4),
        digit_bit(digits, 8 * j + 5),
        digit_bit(digits, 8 * j + 6),
        digit_bit(digits, 8 * j + 7),
    );
}

/// Five bits of the bytes of `digits` make up one digit again.
proof fn digit_comes_back(bytes: Seq<u8>, digits: Seq<u8>, j: int)
    requires
        0 <= j < digits.len(),
        digits[j] < 32,
        base32_digits(bytes).len() == digits.len(),
        forall|i: int| 0 <= i ==> #[trigger] byte_bit(bytes, i) == digit_bit(digits, i),
    ensures
        base32_digits(bytes)[j] == digits[j],
{
    let v = digits[j];
    assert(byte_bit(bytes, 5 * j) == (v >> 4u8) & 1);
    assert(byte_bit(bytes, 5 * j + 1) == (v >> 3u8) & 1);
    assert(byte_bit(bytes, 5 * j + 2) == (v >> 2u8) & 1);
    assert(byte_bit(bytes, 5 * j + 3) == (v >> 1u8) & 1);
    assert(byte_bit(bytes, 5 * j + 4) == (v >> 0u8) & 1);
    digit_comes_from_its_bits(v);
}

/// Well-padded digits that are regrouped by eight and back again come out as they went in.
pub proof fn base32_round_trip_of_digits(digits: Seq<u8>)
    requires
        are_digits(digits),
        well_padded(digits),
    ensures
        base32_digits(base32_bytes(digits)) == digits,
{
    let bytes = base32_bytes(digits);
    assert forall|i: int| 0 <= i implies #[trigger] byte_bit(bytes, i) == digit_bit(digits, i) by {
        if i < 8 * bytes.len() {
            bytes_keep_bits(digits, i / 8, i % 8);
            assert(8 * (i / 8) + i % 8 == i);
        }
    }
    assert(base32_digits(bytes).len() == digits.len());
    assert forall|j: int| 0 <= j < digits.len() implies #[trigger] base32_digits(bytes)[j]
        == digits[j] by {
        digit_comes_back(bytes, digits, j);
    }
    assert(base32_digits(bytes) =~= digits);
}

} // verus!
