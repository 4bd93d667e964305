//! Byte-level encodings used by the chain: decimal renderings of integers
//! (as `format!("{}")` writes them), lower-case hexadecimal, and the UTF-8
//! bytes of strings.

use vstd::prelude::*;
use vstd::utf8::encode_utf8;

verus! {

/// ASCII code of the digit `0`.
pub const ZERO_DIGIT: u8 = 48;

/// ASCII code of `-`.
pub const MINUS_SIGN: u8 = 45;

/// Appends the UTF-8 bytes of a string to `out`.
pub fn push_utf8(out: &mut Vec<u8>, text: &String)
    ensures
        final(out)@ == old(out)@ + encode_utf8(text@),
{
    let bytes = text.as_str().as_bytes();
    out.extend_from_slice(bytes);
    assert(out@ =~= old(out)@ + encode_utf8(text@));
}

/// The decimal digits of `n`, most significant first, with no leading zeros.
pub open spec fn decimal_digits(n: nat) -> Seq<u8>
    decreases n,
{
    if n < 10 {
        seq![(n + 48) as u8]
    } else {
        decimal_digits(n / 10).push((n % 10 + 48) as u8)
    }
}

/// The decimal rendering of a signed integer: a `-` before the digits of its
/// magnitude when it is negative.
pub open spec fn decimal_signed(n: int) -> Seq<u8> {
    if n < 0 {
        seq![MINUS_SIGN] + decimal_digits((-n) as nat)
    } else {
        decimal_digits(n as nat)
    }
}

/// Appends the decimal digits of `n` to `out`.
pub fn push_decimal(out: &mut Vec<u8>, n: u64)
    ensures
        final(out)@ == old(out)@ + decimal_digits(n as nat),
    decreases n,
{
    let ghost start = out@;
    if n >= 10 {
        push_decimal(out, n / 10);
    }
    let digit: u8 = (n % 10) as u8;
    out.push(digit + ZERO_DIGIT);
    assert(out@ =~= start + decimal_digits(n as nat));
}

/// Appends the decimal rendering of the signed integer `n` to `out`.
pub fn push_decimal_signed(out: &mut Vec<u8>, n: i64)
    ensures
        final(out)@ == old(out)@ + decimal_signed(n as int),
{
    let ghost start = out@;
    if n < 0 {
        out.push(MINUS_SIGN);
        let below: i64 = -(n + 1);
        let magnitude: u64 = (below as u64) + 1;
        assert(magnitude == -(n as int));
        push_decimal(out, magnitude);
        assert(out@ =~= start + decimal_signed(n as int));
    } else {
        push_decimal(out, n as u64);
    }
}

/// The lower-case hexadecimal digit for a value below 16.
pub open spec fn hex_digit(v: int) -> char {
    if v < 10 {
        (v + 48) as char
    } else {
        (v + 87) as char
    }
}

/// The characters of ASCII bytes.
pub open spec fn ascii_chars(bytes: Seq<u8>) -> Seq<char> {
    bytes.map_values(|b: u8| b as char)
}

/// Decimal renderings are made of ASCII digits and `-`.
pub proof fn lemma_decimal_is_ascii(n: int)
    ensures
        forall|i: int| 0 <= i < decimal_signed(n).len() ==> #[trigger] decimal_signed(n)[i] < 128,
{
    if n < 0 {
        lemma_digits_are_ascii((-n) as nat);
        let d = decimal_digits((-n) as nat);
        assert forall|i: int| 0 <= i < decimal_signed(n).len() implies #[trigger] decimal_signed(n)[i] < 128 by {
            if i > 0 {
                assert(decimal_signed(n)[i] == d[i - 1]);
            }
        }
    } else {
        lemma_digits_are_ascii(n as nat);
    }
}

/// Every decimal digit byte is an ASCII digit.
pub proof fn lemma_digits_are_ascii(n: nat)
    ensures
        forall|i: int| 0 <= i < decimal_digits(n).len() ==> 48 <= #[trigger] decimal_digits(n)[i] <= 57,
    decreases n,
{
    if n >= 10 {
        lemma_digits_are_ascii(n / 10);
        let prev = decimal_digits(n / 10);
        assert forall|i: int| 0 <= i < decimal_digits(n).len() implies 48 <= #[trigger] decimal_digits(n)[i] <= 57 by {
            if i < prev.len() {
                assert(decimal_digits(n)[i] == prev[i]);
            }
        }
    }
}

/// The decimal text of a signed integer, as `to_string` writes it.
pub fn decimal_text(n: i64) -> (text: String)
    ensures
        text@ == ascii_chars(decimal_signed(n as int)),
{
    let mut bytes: Vec<u8> = Vec::new();
    push_decimal_signed(&mut bytes, n);
    proof {
        lemma_decimal_is_ascii(n as int);
        assert(bytes@ =~= decimal_signed(n as int));
    }
    ascii_text(bytes.as_slice())
}

/// The decimal text of an unsigned integer, as `to_string` writes it.
pub fn decimal_text_unsigned(n: u64) -> (text: String)
    ensures
        text@ == ascii_chars(decimal_digits(n as nat)),
{
    let mut bytes: Vec<u8> = Vec::new();
    push_decimal(&mut bytes, n);
    proof {
        lemma_digits_are_ascii(n as nat);
        assert(bytes@ =~= decimal_digits(n as nat));
    }
    ascii_text(bytes.as_slice())
}

/// Calls `String::from_utf8` on bytes that are all ASCII, which are valid
/// UTF-8 with one character per byte; trusted to return that text.
#[verifier::external_body]
pub(crate) fn ascii_text(bytes: &[u8]) -> (text: String)
    requires
        forall|i: int| 0 <= i < bytes@.len() ==> #[trigger] bytes@[i] < 128,
    ensures
        text@ == ascii_chars(bytes@),
{
    String::from_utf8(bytes.to_vec()).unwrap()
}

/// A sequence has a byte nowhere.
pub open spec fn lacks_byte(bytes: Seq<u8>, byte: u8) -> bool {
    forall|i: int| 0 <= i < bytes.len() ==> #[trigger] bytes[i] != byte
}

/// Two byte strings, each made of a part without `separator`, the separator
/// and a rest, are equal only when their parts and their rests are.
pub proof fn lemma_split_at_separator(
    first: Seq<u8>,
    first_rest: Seq<u8>,
    second: Seq<u8>,
    second_rest: Seq<u8>,
    separator: u8,
)
    requires
        lacks_byte(first, separator),
        lacks_byte(second, separator),
        first + seq![separator] + first_rest == second + seq![separator] + second_rest,
    ensures
        first == second,
        first_rest == second_rest,
{
    let x = first + seq![separator] + first_rest;
    let y = second + seq![separator] + second_rest;
    if first.len() < second.len() {
        assert(x[first.len() as int] == separator);
        assert(y[first.len() as int] == second[first.len() as int]);
    } else if second.len() < first.len() {
        assert(y[second.len() as int] == separator);
        assert(x[second.len() as int] == first[second.len() as int]);
    }
    assert(first =~= x.take(first.len() as int));
    assert(second =~= y.take(second.len() as int));
    assert(first_rest =~= x.skip(first.len() as int + 1));
    assert(second_rest =~= y.skip(second.len() as int + 1));
}

/// The UTF-8 encoding of a character other than `:` holds no byte 58.
proof fn lemma_scalar_lacks_colon(c: u32)
    requires
        vstd::utf8::is_scalar(c),
        c != 58,
    ensures
        lacks_byte(vstd::utf8::encode_scalar(c), 58),
{
    let e = vstd::utf8::encode_scalar(c);
    assert((0x80u8 | (c & 0x3F) as u8) != 58u8) by (bit_vector);
    assert((0x80u8 | ((c >> 6) & 0x3F) as u8) != 58u8) by (bit_vector);
    assert((0x80u8 | ((c >> 12) & 0x3F) as u8) != 58u8) by (bit_vector);
    if vstd::utf8::has_width_1_encoding(c) {
        assert((c & 0x7F) as u8 != 58u8) by (bit_vector)
            requires
                c <= 0x7F,
                c != 58,
        ;
    } else if vstd::utf8::has_width_2_encoding(c) {
        assert((0xC0u8 | ((c >> 6) & 0x1F) as u8) != 58u8) by (bit_vector);
    } else if vstd::utf8::has_width_3_encoding(c) {
        assert((0xE0u8 | ((c >> 12) & 0x0F) as u8) != 58u8) by (bit_vector);
    } else {
        assert((0xF0u8 | ((c >> 18) & 0x7) as u8) != 58u8) by (bit_vector);
    }
}

/// The UTF-8 encoding of a text without `:` holds no byte 58.
pub proof fn lemma_utf8_lacks_colon(text: Seq<char>)
    requires
        !text.contains(':'),
    ensures
        lacks_byte(encode_utf8(text), 58),
    decreases text.len(),
{
    if text.len() > 0 {
        let c = text[0];
        assert(text.contains(c));
        vstd::utf8::char_is_scalar(c);
        if c as u32 == 58 {
            vstd::utf8::char_u32_cast(c, 58);
            vstd::utf8::char_u32_cast(':', 58);
        }
        lemma_scalar_lacks_colon(c as u32);
        let rest = text.drop_first();
        assert forall|i: int| 0 <= i < rest.len() implies rest[i] != ':' by {
            assert(text[i + 1] == rest[i]);
        }
        assert(!rest.contains(':'));
        lemma_utf8_lacks_colon(rest);
        let head = vstd::utf8::encode_scalar(c as u32);
        let tail = encode_utf8(rest);
        assert forall|i: int| 0 <= i < encode_utf8(text).len() implies #[trigger] encode_utf8(
            text,
        )[i] != 58 by {
            if i < head.len() {
                assert(encode_utf8(text)[i] == head[i]);
            } else {
                assert(encode_utf8(text)[i] == tail[i - head.len()]);
            }
        }
    }
}

/// UTF-8 encoding loses nothing: equal encodings come from equal texts.
pub proof fn lemma_utf8_injective(first: Seq<char>, second: Seq<char>)
    requires
        encode_utf8(first) == encode_utf8(second),
    ensures
        first == second,
{
    vstd::utf8::encode_utf8_decode_utf8(first);
    vstd::utf8::encode_utf8_decode_utf8(second);
}

/// A decimal rendering has at least two digits exactly from 10 on.
proof fn lemma_decimal_length(n: nat)
    ensures
        decimal_digits(n).len() >= 1,
        n >= 10 ==> decimal_digits(n).len() >= 2,
        n < 10 ==> decimal_digits(n).len() == 1,
    decreases n,
{
    if n >= 10 {
        lemma_decimal_length(n / 10);
    }
}

/// Different numbers have different decimal digits.
pub proof fn lemma_decimal_digits_injective(a: nat, b: nat)
    requires
        decimal_digits(a) == decimal_digits(b),
    ensures
        a == b,
    decreases a,
{
    lemma_decimal_length(a);
    lemma_decimal_length(b);
    let d = decimal_digits(a);
    if a >= 10 && b >= 10 {
        assert(d.drop_last() =~= decimal_digits(a / 10));
        assert(decimal_digits(b).drop_last() =~= decimal_digits(b / 10));
        lemma_decimal_digits_injective(a / 10, b / 10);
        assert(d.last() == (a % 10 + 48) as u8);
        assert(decimal_digits(b).last() == (b % 10 + 48) as u8);
    } else if a < 10 && b < 10 {
        assert(d[0] == (a + 48) as u8);
        assert(decimal_digits(b)[0] == (b + 48) as u8);
    }
}

/// Different signed numbers have different decimal renderings.
pub proof fn lemma_decimal_signed_injective(a: int, b: int)
    requires
        decimal_signed(a) == decimal_signed(b),
    ensures
        a == b,
{
    lemma_digits_are_ascii(if a < 0 { (-a) as nat } else { a as nat });
    lemma_digits_are_ascii(if b < 0 { (-b) as nat } else { b as nat });
    lemma_decimal_length(if a < 0 { (-a) as nat } else { a as nat });
    lemma_decimal_length(if b < 0 { (-b) as nat } else { b as nat });
    let x = decimal_signed(a);
    if a < 0 && b < 0 {
        assert(decimal_digits((-a) as nat) =~= x.drop_first());
        assert(decimal_digits((-b) as nat) =~= decimal_signed(b).drop_first());
        lemma_decimal_digits_injective((-a) as nat, (-b) as nat);
    } else if a >= 0 && b >= 0 {
        lemma_decimal_digits_injective(a as nat, b as nat);
    } else if a < 0 {
        assert(x[0] == MINUS_SIGN);
        assert(decimal_signed(b)[0] == decimal_digits(b as nat)[0]);
    } else {
        assert(decimal_signed(b)[0] == MINUS_SIGN);
        assert(x[0] == decimal_digits(a as nat)[0]);
    }
}

/// Decimal digits hold no byte 58.
pub proof fn lemma_decimal_lacks_colon(n: nat)
    ensures
        lacks_byte(decimal_digits(n), 58),
{
    lemma_digits_are_ascii(n);
    assert forall|i: int| 0 <= i < decimal_digits(n).len() implies #[trigger] decimal_digits(n)[i] != 58 by {
        assert(48 <= decimal_digits(n)[i] <= 57);
    }
}

/// Lower-case hexadecimal text of a byte sequence, two digits per byte,
/// high nibble first.
pub open spec fn hex_lower(data: Seq<u8>) -> Seq<char>
    decreases data.len(),
{
    if data.len() == 0 {
        seq![]
    } else {
        hex_lower(data.drop_last()) + seq![
            hex_digit((data.last() / 16) as int),
            hex_digit((data.last() % 16) as int),
        ]
    }
}

/// The value of one hexadecimal digit byte, upper or lower case.
pub open spec fn hex_value(c: u8) -> Option<int> {
    if 48 <= c <= 57 {
        Some(c - 48)
    } else if 97 <= c <= 102 {
        Some(c - 87)
    } else if 65 <= c <= 70 {
        Some(c - 55)
    } else {
        None
    }
}

/// The bytes that hexadecimal text denotes: `None` when the text has an odd
/// length or holds a byte that is no hexadecimal digit.
pub open spec fn hex_decode(text: Seq<u8>) -> Option<Seq<u8>>
    decreases text.len(),
{
    if text.len() % 2 != 0 {
        None
    } else if text.len() == 0 {
        Some(seq![])
    } else {
        let n = text.len();
        match (hex_decode(text.subrange(0, n - 2)), hex_value(text[n - 2]), hex_value(text[n - 1])) {
            (Some(prefix), Some(high), Some(low)) => Some(prefix.push((high * 16 + low) as u8)),
            _ => None,
        }
    }
}

/// The bytes of a character sequence whose characters are all ASCII.
pub open spec fn ascii_bytes(s: Seq<char>) -> Seq<u8> {
    s.map_values(|c: char| c as u8)
}

/// Hexadecimal text is twice as long as the data and is pure ASCII.
pub proof fn lemma_hex_lower_shape(data: Seq<u8>)
    ensures
        hex_lower(data).len() == 2 * data.len(),
        vstd::utf8::is_ascii_chars(hex_lower(data)),
        vstd::utf8::encode_utf8(hex_lower(data)) == ascii_bytes(hex_lower(data)),
    decreases data.len(),
{
    if data.len() > 0 {
        lemma_hex_lower_shape(data.drop_last());
        let b = data.last();
        assert(hex_digit((b / 16) as int) as u32 <= 127);
        assert(hex_digit((b % 16) as int) as u32 <= 127);
    }
    let h = hex_lower(data);
    assert forall|i| 0 <= i < h.len() implies '\0' <= #[trigger] h[i] <= '\u{7f}' by {
        if data.len() > 0 {
            let prev = hex_lower(data.drop_last());
            if i < prev.len() {
                assert(h[i] == prev[i]);
            }
        }
    }
    vstd::utf8::is_ascii_chars_encode_utf8(h);
    assert(vstd::utf8::encode_utf8(h) =~= ascii_bytes(h));
}

/// Decoding the hexadecimal text of some bytes gives those bytes back.
pub proof fn lemma_hex_round_trip(data: Seq<u8>)
    ensures
        hex_decode(ascii_bytes(hex_lower(data))) == Some(data),
    decreases data.len(),
{
    lemma_hex_lower_shape(data);
    if data.len() > 0 {
        let prev = data.drop_last();
        lemma_hex_round_trip(prev);
        lemma_hex_lower_shape(prev);
        let text = ascii_bytes(hex_lower(data));
        let n = text.len();
        assert(text.subrange(0, n - 2) =~= ascii_bytes(hex_lower(prev)));
        let b = data.last();
        let hi = b / 16;
        let lo = b % 16;
        assert(text[n - 2] == hex_digit(hi as int) as u8);
        assert(text[n - 1] == hex_digit(lo as int) as u8);
        assert(hex_value(text[n - 2]) == Some(hi as int));
        assert(hex_value(text[n - 1]) == Some(lo as int));
        assert((hi * 16 + lo) as u8 == b);
        assert(prev.push(b) =~= data);
    } else {
        assert(ascii_bytes(hex_lower(data)) =~= Seq::<u8>::empty());
        assert(data =~= Seq::<u8>::empty());
    }
}

/// Calls `hex::encode`. Trusted to return the lower-case hexadecimal text
/// of `data`, two digits per byte, high nibble first.
#[verifier::external_body]
pub(crate) fn hex_encode(data: &[u8]) -> (text: String)
    ensures
        text@ == hex_lower(data@),
{
    hex::encode(data)
}

/// Calls `hex::decode` and keeps its `Ok` value. Trusted to succeed exactly
/// when the text has an even length and only hexadecimal digits (either
/// case), with the bytes that `hex_decode` gives.
#[verifier::external_body]
pub(crate) fn hex_decode_text(text: &[u8]) -> (bytes: Option<Vec<u8>>)
    ensures
        bytes is None <==> hex_decode(text@) is None,
        bytes matches Some(b) ==> hex_decode(text@) == Some(b@),
{
    hex::decode(text).ok()
}

} // verus!
