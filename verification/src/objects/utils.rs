//! Byte and text helpers shared by the object code: hexadecimal text,
//! ASCII strings and UTF-8 conversion.
use vstd::prelude::*;
use vstd::string::*;
use vstd::utf8::*;

verus! {


/// The lowercase hexadecimal digit for a value below 16.
pub open spec fn hex_digit(n: int) -> u8 {
    if n < 10 {
        (48 + n) as u8
    } else {
        (87 + n) as u8
    }
}

/// The lowercase hexadecimal text of a byte string, two digits per byte,
/// high nibble first.
pub open spec fn hex_encode(bytes: Seq<u8>) -> Seq<u8> {
    Seq::new(
        2 * bytes.len(),
        |i: int|
            if i % 2 == 0 {
                hex_digit((bytes[i / 2] / 16) as int)
            } else {
                hex_digit((bytes[i / 2] % 16) as int)
            },
    )
}

/// The characters of an ASCII byte string.
pub open spec fn ascii_chars(bytes: Seq<u8>) -> Seq<char> {
    bytes.map_values(|b: u8| b as char)
}

/// Every byte is below 128.
pub open spec fn is_ascii_bytes(bytes: Seq<u8>) -> bool {
    forall|i: int| 0 <= i < bytes.len() ==> #[trigger] bytes[i] < 128
}

/// `c` is a hexadecimal digit, in either case.
pub open spec fn is_hex_digit(c: u8) -> bool {
    (48 <= c <= 57) || (97 <= c <= 102) || (65 <= c <= 70)
}

/// The value of a hexadecimal digit.
pub open spec fn hex_value(c: u8) -> u8 {
    if 48 <= c <= 57 {
        (c - 48) as u8
    } else if 97 <= c <= 102 {
        (c - 87) as u8
    } else {
        (c - 55) as u8
    }
}

/// A chunk of one or two bytes reads as a `u8` in base 16: one digit,
/// two digits, or a `+` sign followed by one digit.
pub open spec fn hex_chunk_ok(text: Seq<u8>, k: int) -> bool {
    if 2 * k + 1 < text.len() {
        (is_hex_digit(text[2 * k]) || text[2 * k] == 43) && is_hex_digit(text[2 * k + 1])
    } else {
        is_hex_digit(text[2 * k])
    }
}

/// The value of the `k`-th chunk of two bytes (the last one may hold one byte).
pub open spec fn hex_chunk_value(text: Seq<u8>, k: int) -> u8 {
    if 2 * k + 1 < text.len() {
        if text[2 * k] == 43 {
            hex_value(text[2 * k + 1])
        } else {
            (16 * hex_value(text[2 * k]) + hex_value(text[2 * k + 1])) as u8
        }
    } else {
        hex_value(text[2 * k])
    }
}

/// Number of chunks of two bytes in `text`, the last one possibly shorter.
pub open spec fn hex_chunk_count(text: Seq<u8>) -> nat {
    ((text.len() + 1) / 2) as nat
}

/// Every chunk of the text reads as a byte in base 16.
pub open spec fn is_hex_text(text: Seq<u8>) -> bool {
    forall|k: int| 0 <= k < hex_chunk_count(text) ==> #[trigger] hex_chunk_ok(text, k)
}

/// The bytes that a hexadecimal text stands for, one per chunk.
pub open spec fn hex_decode(text: Seq<u8>) -> Seq<u8> {
    Seq::new(hex_chunk_count(text), |k: int| hex_chunk_value(text, k))
}

/// Decodes hexadecimal text into bytes: every two characters become one byte,
/// and a final lone character becomes a byte of its own.
pub fn string_to_bytes(s: &str) -> (res: Vec<u8>)
    requires
        is_hex_text(s.spec_bytes()),
    ensures
        res@ == hex_decode(s.spec_bytes()),
{
    let text = s.as_bytes();
    let n = text.len();
    let count = n / 2 + n % 2;
    let mut out: Vec<u8> = Vec::new();
    for k in 0..count
        invariant
            text@ == s.spec_bytes(),
            n == text@.len(),
            count == hex_chunk_count(text@),
            is_hex_text(text@),
            out@.len() == k,
            forall|j: int| 0 <= j < k ==> out@[j] == hex_chunk_value(text@, j),
    {
        assert(hex_chunk_ok(text@, k as int));
        let i = 2 * k;
        let v: u8;
        if i + 1 < n {
            let c0 = text[i];
            let d1 = hex_digit_value(text[i + 1]);
            if c0 == 43 {
                v = d1;
            } else {
                let d0 = hex_digit_value(c0);
                v = 16 * d0 + d1;
            }
        } else {
            v = hex_digit_value(text[i]);
        }
        out.push(v);
    }
    assert(out@ =~= hex_decode(text@));
    out
}

/// The value of one hexadecimal digit.
fn hex_digit_value(c: u8) -> (v: u8)
    requires
        is_hex_digit(c),
    ensures
        v == hex_value(c),
        v < 16,
{
    if c <= 57 {
        c - 48
    } else if c >= 97 {
        c - 87
    } else {
        c - 55
    }
}

/// The lowercase hexadecimal digit for a value below 16.
fn hex_digit_byte(n: u8) -> (c: u8)
    requires
        n < 16,
    ensures
        c == hex_digit(n as int),
{
    if n < 10 {
        48 + n
    } else {
        87 + n
    }
}

/// The lowercase hexadecimal text of `bytes` as raw ASCII bytes.
pub fn hex_encode_bytes(bytes: &[u8]) -> (res: Vec<u8>)
    ensures
        res@ == hex_encode(bytes@),
{
    let mut out: Vec<u8> = Vec::new();
    for i in 0..bytes.len()
        invariant
            out@.len() == 2 * i,
            forall|k: int| 0 <= k < 2 * i ==> out@[k] == #[trigger] hex_encode(bytes@)[k],
    {
        let b = bytes[i];
        out.push(hex_digit_byte(b / 16));
        out.push(hex_digit_byte(b % 16));
    }
    assert(out@ =~= hex_encode(bytes@));
    out
}

/// Encodes bytes as lowercase hexadecimal text, two digits per byte.
pub fn bytes_to_string(bytes: &[u8]) -> (s: String)
    ensures
        s@ == ascii_chars(hex_encode(bytes@)),
        encode_utf8(s@) == hex_encode(bytes@),
{
    let text = hex_encode_bytes(bytes);
    proof {
        lemma_hex_encode_ascii(bytes@);
    }
    ascii_string(text)
}

/// Decoding the hexadecimal text of any byte string gives the byte string back:
/// `string_to_bytes` undoes `bytes_to_string`.
pub proof fn law_hex_roundtrip(bytes: Seq<u8>)
    ensures
        is_hex_text(hex_encode(bytes)),
        hex_decode(hex_encode(bytes)) == bytes,
{
    let text = hex_encode(bytes);
    assert(hex_chunk_count(text) == bytes.len());
    assert forall|k: int| 0 <= k < hex_chunk_count(text) implies #[trigger] hex_chunk_ok(text, k)
        && hex_chunk_value(text, k) == bytes[k] by {
        assert(text[2 * k] == hex_digit((bytes[k] / 16) as int));
        assert(text[2 * k + 1] == hex_digit((bytes[k] % 16) as int));
    }
    assert(hex_decode(text) =~= bytes);
}

/// A lowercase hexadecimal digit.
pub open spec fn is_lower_hex_digit(c: u8) -> bool {
    (48 <= c <= 57) || (97 <= c <= 102)
}

/// Lowercase hexadecimal text of even length is the hexadecimal text of the
/// bytes it decodes to: `bytes_to_string` undoes `string_to_bytes` there.
pub proof fn law_hex_text_roundtrip(text: Seq<u8>)
    requires
        text.len() % 2 == 0,
        forall|i: int| 0 <= i < text.len() ==> #[trigger] is_lower_hex_digit(text[i]),
    ensures
        is_hex_text(text),
        hex_encode(hex_decode(text)) == text,
{
    let bytes = hex_decode(text);
    assert forall|k: int| 0 <= k < hex_chunk_count(text) implies #[trigger] hex_chunk_ok(text, k) by {
        assert(is_lower_hex_digit(text[2 * k]));
        assert(is_lower_hex_digit(text[2 * k + 1]));
    }
    assert forall|i: int| 0 <= i < text.len() implies #[trigger] hex_encode(bytes)[i] == text[i] by {
        let k = i / 2;
        assert(is_lower_hex_digit(text[2 * k]));
        assert(is_lower_hex_digit(text[2 * k + 1]));
        let hi = hex_value(text[2 * k]);
        let lo = hex_value(text[2 * k + 1]);
        assert(hi < 16 && lo < 16);
        assert(bytes[k] == 16 * hi + lo);
        assert((16 * hi + lo) / 16 == hi && (16 * hi + lo) % 16 == lo) by (nonlinear_arith)
            requires
                hi < 16,
                lo < 16,
        ;
    }
    assert(hex_encode(bytes) =~= text);
}

/// Hexadecimal text is ASCII.
pub proof fn lemma_hex_encode_ascii(bytes: Seq<u8>)
    ensures
        is_ascii_bytes(hex_encode(bytes)),
{
}

/// The characters of an ASCII byte string encode back to the same bytes.
pub proof fn lemma_ascii_chars_encode(bytes: Seq<u8>)
    requires
        is_ascii_bytes(bytes),
    ensures
        is_ascii_chars(ascii_chars(bytes)),
        encode_utf8(ascii_chars(bytes)) == bytes,
        valid_utf8(bytes),
        decode_utf8(bytes) == ascii_chars(bytes),
{
    broadcast use vstd::utf8::group_utf8_lib;

    let chars = ascii_chars(bytes);
    assert forall|i: int| 0 <= i < chars.len() implies '\0' <= #[trigger] chars[i] <= '\u{7f}' by {
        assert(bytes[i] < 128);
    }
    assert(is_ascii_chars(chars));
    assert(encode_utf8(chars) =~= bytes);
}

/// The UTF-8 encoding of a concatenation is the concatenation of the encodings.
pub proof fn lemma_encode_utf8_concat(a: Seq<char>, b: Seq<char>)
    ensures
        encode_utf8(a + b) == encode_utf8(a) + encode_utf8(b),
    decreases a.len(),
{
    if a.len() == 0 {
        assert(a + b =~= b);
        assert(encode_utf8(a) + encode_utf8(b) =~= encode_utf8(b));
    } else {
        assert((a + b).drop_first() =~= a.drop_first() + b);
        lemma_encode_utf8_concat(a.drop_first(), b);
        assert(encode_utf8(a) + encode_utf8(b) =~= encode_scalar(a[0] as u32) + (encode_utf8(
            a.drop_first(),
        ) + encode_utf8(b)));
    }
}

/// Turns ASCII bytes into the string of the same characters.
pub fn ascii_string(bytes: Vec<u8>) -> (s: String)
    requires
        is_ascii_bytes(bytes@),
    ensures
        s@ == ascii_chars(bytes@),
        encode_utf8(s@) == bytes@,
{
    let ghost b = bytes@;
    proof {
        lemma_ascii_chars_encode(b);
    }
    match string_from_utf8(bytes) {
        Some(s) => {
            proof {
                encode_utf8_decode_utf8(s@);
            }
            s
        },
        None => {
            assert(false);
            String::new()
        },
    }
}

/// Builds a string from bytes when they are valid UTF-8.
pub fn utf8_string(bytes: Vec<u8>) -> (res: Option<String>)
    ensures
        res is Some <==> valid_utf8(bytes@),
        res matches Some(s) ==> encode_utf8(s@) == bytes@ && s@ == decode_utf8(bytes@),
{
    let ghost b = bytes@;
    let res = string_from_utf8(bytes);
    proof {
        if res is Some {
            encode_utf8_decode_utf8(res->0@);
        }
    }
    res
}

/// `String::from_utf8`: the string holding `bytes` when they are valid
/// UTF-8. Its contract claims what std documents: the call succeeds exactly
/// on valid UTF-8, and the string's UTF-8 encoding is then `bytes`.
#[verifier::external_body]
fn string_from_utf8(bytes: Vec<u8>) -> (res: Option<String>)
    ensures
        res is Some <==> valid_utf8(bytes@),
        res matches Some(s) ==> encode_utf8(s@) == bytes@,
{
    String::from_utf8(bytes).ok()
}

} // verus!
