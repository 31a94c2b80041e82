//! Bytes as text and text as bytes.
use vstd::prelude::*;
use vstd::utf8::*;
use base64::Engine;

verus! {

/// The lower-case hexadecimal digit for a number below sixteen.
pub open spec fn hex_digit(n: int) -> char {
    if n < 10 {
        ('0' as int + n) as char
    } else {
        ('a' as int + (n - 10)) as char
    }
}

/// The number that a hexadecimal digit of either case stands for.
pub open spec fn hex_digit_value(c: char) -> Option<int> {
    if '0' <= c && c <= '9' {
        Some(c as int - '0' as int)
    } else if 'a' <= c && c <= 'f' {
        Some(c as int - 'a' as int + 10)
    } else if 'A' <= c && c <= 'F' {
        Some(c as int - 'A' as int + 10)
    } else {
        None
    }
}

/// Bytes written as two lower-case hexadecimal digits each.
pub open spec fn hex_text(bytes: Seq<u8>) -> Seq<char> {
    Seq::new(
        bytes.len() * 2,
        |i: int|
            hex_digit(
                if i % 2 == 0 {
                    bytes[i / 2] as int / 16
                } else {
                    bytes[i / 2] as int % 16
                },
            ),
    )
}

/// The bytes that a text of hexadecimal digits stands for: none where their
/// number is odd or another character stands among them.
pub open spec fn hex_bytes(text: Seq<char>) -> Option<Seq<u8>> {
    if text.len() % 2 == 0 && (forall|i: int|
        0 <= i < text.len() ==> hex_digit_value(#[trigger] text[i]) is Some) {
        Some(
            Seq::new(
                text.len() / 2,
                |i: int|
                    (hex_digit_value(text[2 * i])->Some_0 * 16 + hex_digit_value(
                        text[2 * i + 1],
                    )->Some_0) as u8,
            ),
        )
    } else {
        None
    }
}

/// What the standard Base64 alphabet makes of bytes, with padding.
pub uninterp spec fn base64_text(bytes: Seq<u8>) -> Seq<char>;

/// The bytes that a standard Base64 text stands for.
pub uninterp spec fn base64_bytes(text: Seq<char>) -> Option<Seq<u8>>;

/// A text with every byte but letters, digits and `-_.~` percent-encoded.
pub uninterp spec fn percent_encoded(text: Seq<char>) -> Seq<char>;

/// The text that a percent-encoded text stands for.
pub uninterp spec fn percent_decoded(text: Seq<char>) -> Option<Seq<char>>;

/// `hex::encode`: two lower-case digits for each byte, the high one first.
#[verifier::external_body]
pub(crate) fn hex_encode(bytes: &[u8]) -> (r: String)
    ensures
        r@ == hex_text(bytes@),
{
    hex::encode(bytes)
}

/// `hex::decode`: the bytes of an even number of digits of either case, or an
/// error whose text is not stated.
#[verifier::external_body]
pub(crate) fn hex_decode(text: &str) -> (r: Result<Vec<u8>, String>)
    ensures
        r is Ok == hex_bytes(text@) is Some,
        r matches Ok(bytes) ==> hex_bytes(text@) == Some(bytes@),
{
    hex::decode(text).map_err(|e| e.to_string())
}

/// `base64::engine::general_purpose::STANDARD.encode`: four characters for
/// every three bytes begun, and what it writes, the same engine's `decode`
/// reads back.
#[verifier::external_body]
pub(crate) fn base64_encode(bytes: &[u8]) -> (r: String)
    ensures
        r@ == base64_text(bytes@),
        r@.len() == 4 * ((bytes@.len() + 2) / 3),
        base64_bytes(r@) == Some(bytes@),
{
    base64::engine::general_purpose::STANDARD.encode(bytes)
}

/// `base64::engine::general_purpose::STANDARD.decode`. The text of the error
/// is not stated.
#[verifier::external_body]
pub(crate) fn base64_decode(text: &str) -> (r: Result<Vec<u8>, String>)
    ensures
        r is Ok == base64_bytes(text@) is Some,
        r matches Ok(bytes) ==> base64_bytes(text@) == Some(bytes@),
{
    base64::engine::general_purpose::STANDARD.decode(text).map_err(|e| e.to_string())
}

/// `urlencoding::encode`: what it writes, `urlencoding::decode` reads back.
/// The result holds none but letters, digits, `-_.~` and `%`, so no `#`.
#[verifier::external_body]
pub(crate) fn percent_encode(text: &str) -> (r: String)
    ensures
        r@ == percent_encoded(text@),
        percent_decoded(r@) == Some(text@),
        !r@.contains('#'),
{
    urlencoding::encode(text).into_owned()
}

/// `urlencoding::decode`. It fails where the bytes that come out are no UTF-8;
/// the text of the error is not stated.
#[verifier::external_body]
pub(crate) fn percent_decode(text: &str) -> (r: Result<String, String>)
    ensures
        r is Ok == percent_decoded(text@) is Some,
        r matches Ok(plain) ==> percent_decoded(text@) == Some(plain@),
{
    urlencoding::decode(text).map(|plain| plain.into_owned()).map_err(|e| e.to_string())
}

/// `String::from_utf8`: the text whose UTF-8 form the bytes are. The text of
/// the error is not stated.
#[verifier::external_body]
pub(crate) fn utf8_decode(bytes: Vec<u8>) -> (r: Result<String, String>)
    ensures
        r is Ok == valid_utf8(bytes@),
        r matches Ok(text) ==> text@ == decode_utf8(bytes@),
{
    String::from_utf8(bytes).map_err(|e| e.to_string())
}

/// Reading back what was written in hexadecimal gives the same bytes.
pub proof fn hex_round_trip(bytes: Seq<u8>)
    ensures
        hex_bytes(hex_text(bytes)) == Some(bytes),
{
    let text = hex_text(bytes);
    assert(text.len() % 2 == 0);
    assert forall|i: int| 0 <= i < text.len() implies hex_digit_value(#[trigger] text[i]) is Some by {
        assert(0 <= bytes[i / 2] as int / 16 < 16);
    }
    assert forall|i: int| 0 <= i < bytes.len() implies (hex_bytes(text)->Some_0)[i] == bytes[i] by {
        assert((2 * i) / 2 == i && (2 * i) % 2 == 0);
        assert((2 * i + 1) / 2 == i && (2 * i + 1) % 2 == 1);
        let high = bytes[i] as int / 16;
        let low = bytes[i] as int % 16;
        assert(text[2 * i] == hex_digit(high));
        assert(text[2 * i + 1] == hex_digit(low));
        assert(high * 16 + low == bytes[i] as int);
    }
    assert((hex_bytes(text)->Some_0) =~= bytes);
}

/// Copies exactly thirty-two bytes into an array.
pub fn to_array_32(bytes: &Vec<u8>) -> (r: Option<[u8; 32]>)
    ensures
        r is Some == (bytes@.len() == 32),
        r matches Some(a) ==> a@ == bytes@,
{
    if bytes.len() != 32 {
        return None;
    }
    let mut a: [u8; 32] = [0u8; 32];
    let mut i: usize = 0;
    while i < 32
        invariant
            i <= 32,
            bytes@.len() == 32,
            forall|j: int| 0 <= j < i ==> a@[j] == bytes@[j],
        decreases 32 - i,
    {
        a[i] = bytes[i];
        i = i + 1;
    }
    assert(a@ =~= bytes@);
    Some(a)
}

/// The array that holds thirty-two bytes.
pub open spec fn array_of(bytes: Seq<u8>) -> [u8; 32] {
    choose|a: [u8; 32]| a@ == bytes
}

pub proof fn lemma_array_of(a: [u8; 32])
    ensures
        array_of(a@) == a,
{
    let b = array_of(a@);
    assert(b@ == a@);
    assert(b =~= a);
}

/// Whether a text is an array of bytes in hexadecimal.
pub open spec fn hex_array(text: Seq<char>, bytes: [u8; 32]) -> bool {
    hex_bytes(text) == Some(bytes@)
}

/// The thirty-two bytes that a text of hexadecimal digits stands for, if that
/// is how many they are.
pub open spec fn hex_key(text: Seq<char>) -> Option<[u8; 32]> {
    if is_hex_array(text) {
        Some(array_of(hex_bytes(text)->Some_0))
    } else {
        None
    }
}

/// A key written in hexadecimal is read back.
pub proof fn hex_key_round_trip(key: [u8; 32])
    ensures
        hex_key(hex_text(key@)) == Some(key),
{
    hex_round_trip(key@);
    lemma_array_of(key);
}

/// Whether a text is thirty-two bytes in hexadecimal.
pub open spec fn is_hex_array(text: Seq<char>) -> bool {
    hex_bytes(text) is Some && text.len() == 64
}

/// Why a text is not thirty-two bytes in hexadecimal.
pub enum HexError {
    Digits(String),
    Length,
}

/// Reads thirty-two bytes written in hexadecimal.
pub fn decode_hex_32(text: &str) -> (r: Result<[u8; 32], HexError>)
    ensures
        r is Ok == is_hex_array(text@),
        r matches Ok(bytes) ==> hex_array(text@, bytes),
        r matches Ok(bytes) ==> hex_key(text@) == Some(bytes),
        r is Err ==> hex_key(text@) is None,
        r matches Err(HexError::Digits(_)) ==> hex_bytes(text@) is None,
        r matches Err(HexError::Length) ==> hex_bytes(text@) is Some && text@.len() != 64,
{
    match hex_decode(text) {
        Err(e) => Err(HexError::Digits(e)),
        Ok(bytes) => match to_array_32(&bytes) {
            None => Err(HexError::Length),
            Some(a) => {
                proof {
                    lemma_array_of(a);
                }
                Ok(a)
            },
        },
    }
}

} // verus!
