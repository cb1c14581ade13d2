//! The base64url wrapping of transport text, through the `base64` crate.
//!
//! base64url is stated here in full, so that the contracts say which text
//! comes out and the round trip is proved rather than taken on trust.

use vstd::prelude::*;
use vstd::string::*;
use vstd::utf8::{
    decode_utf8, decode_utf8_encode_utf8, encode_utf8, encode_utf8_decode_utf8, encode_utf8_valid_utf8,
    valid_utf8,
};

verus! {

#[verifier::external_type_specification]
#[verifier::external_body]
pub struct ExBase64DecodeError(base64::DecodeError);

#[verifier::external_type_specification]
#[verifier::external_body]
pub struct ExFromUtf8Error(std::string::FromUtf8Error);

/// The character for a six-bit value in the URL-safe alphabet: `A` to `Z`,
/// `a` to `z`, `0` to `9`, `-`, `_`.
pub open spec fn base64url_char(v: int) -> char {
    if v < 26 {
        (('A' as int) + v) as char
    } else if v < 52 {
        (('a' as int) + v - 26) as char
    } else if v < 62 {
        (('0' as int) + v - 52) as char
    } else if v == 62 {
        '-'
    } else {
        '_'
    }
}

/// Byte `k` of `data`, or 0 past its end.
pub open spec fn byte_or_zero(data: Seq<u8>, k: int) -> int {
    if 0 <= k < data.len() {
        data[k] as int
    } else {
        0
    }
}

/// The six-bit value at position `i` of the encoding: each three bytes,
/// read as 24 bits from the top, are cut into four values of six bits.
pub open spec fn sextet(data: Seq<u8>, i: int) -> int {
    let b0 = byte_or_zero(data, 3 * (i / 4));
    let b1 = byte_or_zero(data, 3 * (i / 4) + 1);
    let b2 = byte_or_zero(data, 3 * (i / 4) + 2);
    if i % 4 == 0 {
        b0 / 4
    } else if i % 4 == 1 {
        (b0 % 4) * 16 + b1 / 16
    } else if i % 4 == 2 {
        (b1 % 16) * 4 + b2 / 64
    } else {
        b2 % 64
    }
}

/// The length of the encoding of `n` bytes: four characters for each three
/// bytes, and two or three for one or two bytes left over.
pub open spec fn base64url_len(n: nat) -> nat {
    if n % 3 == 0 {
        4 * (n / 3)
    } else {
        4 * (n / 3) + n % 3 + 1
    }
}

/// The base64url text of a byte string: URL-safe alphabet, no padding.
pub open spec fn base64url_text(data: Seq<u8>) -> Seq<char> {
    Seq::new(base64url_len(data.len()), |i: int| base64url_char(sextet(data, i)))
}

/// Why a wrapped text could not be unwrapped.
#[derive(Debug, Clone, Copy, PartialEq, Eq, Structural)]
pub enum TransportError {
    /// The text is no base64url without padding.
    Base64,
    /// The bytes it spells are no UTF-8.
    Utf8,
}

/// `Engine::encode` of `URL_SAFE_NO_PAD`: the base64url text of `data`.
#[verifier::external_body]
fn base64url_encode(data: &[u8]) -> (text: String)
    requires
        data@.len() <= usize::MAX / 2,
    ensures
        text@ == base64url_text(data@),
{
    base64::Engine::encode(&base64::engine::general_purpose::URL_SAFE_NO_PAD, data)
}

/// `Engine::decode` of `URL_SAFE_NO_PAD`: the bytes that `text` is the
/// base64url of. The engine is strict: it takes no padding, no character
/// from outside the alphabet and no stray bits in the last character, so it
/// fails exactly on text that is the base64url of nothing.
#[verifier::external_body]
fn base64url_decode(text: &str) -> (data: Result<Vec<u8>, base64::DecodeError>)
    ensures
        match data {
            Ok(bytes) => text@ == base64url_text(bytes@),
            Err(_) => forall|any: Seq<u8>| text@ != #[trigger] base64url_text(any),
        },
{
    base64::Engine::decode(&base64::engine::general_purpose::URL_SAFE_NO_PAD, text)
}

/// `String::from_utf8`: the string whose UTF-8 bytes are `bytes`, where they
/// are UTF-8.
#[verifier::external_body]
fn string_from_utf8(bytes: Vec<u8>) -> (text: Result<String, std::string::FromUtf8Error>)
    ensures
        text.is_ok() == valid_utf8(bytes@),
        text.is_ok() ==> text.unwrap()@ == decode_utf8(bytes@),
{
    String::from_utf8(bytes)
}

/// What unwrapping a text owes: the text whose wrapping `encoded` is; or
/// the report that `encoded` is the base64url of nothing; or the report
/// that it is the base64url of bytes that are no UTF-8.
pub open spec fn unwrap_outcome(encoded: Seq<char>, outcome: Result<String, TransportError>) -> bool {
    match outcome {
        Ok(text) => encoded == base64url_text(encode_utf8(text@)),
        Err(TransportError::Base64) => forall|any: Seq<u8>| encoded != #[trigger] base64url_text(any),
        Err(TransportError::Utf8) => exists|bytes: Seq<u8>|
            encoded == #[trigger] base64url_text(bytes) && !valid_utf8(bytes),
    }
}

/// Wraps a transport text for places that take one opaque value: the
/// base64url, without padding, of its UTF-8 bytes.
pub fn concat_struct_base64url_encode(concat_string: String) -> (encoded: String)
    requires
        encode_utf8(concat_string@).len() <= usize::MAX / 2,
    ensures
        encoded@ == base64url_text(encode_utf8(concat_string@)),
{
    base64url_encode(concat_string.as_str().as_bytes())
}

/// Wraps a transport text, or returns `None` where the text is so long that
/// its base64url could not be addressed.
pub fn checked_base64url_encode(concat_string: String) -> (encoded: Option<String>)
    ensures
        encoded.is_some() == (encode_utf8(concat_string@).len() <= usize::MAX / 2),
        encoded.is_some() ==> encoded.unwrap()@ == base64url_text(encode_utf8(concat_string@)),
{
    let length: usize = concat_string.as_str().as_bytes().len();
    if length <= usize::MAX / 2 {
        Some(concat_struct_base64url_encode(concat_string))
    } else {
        None
    }
}

/// Unwraps a transport text.
pub fn concat_struct_base64url_decode(encoded_string: String) -> (decoded: Result<String, TransportError>)
    ensures
        unwrap_outcome(encoded_string@, decoded),
{
    let bytes: Vec<u8> = match base64url_decode(encoded_string.as_str()) {
        Ok(bytes) => bytes,
        Err(_) => {
            return Err(TransportError::Base64);
        },
    };
    let ghost spelled = bytes@;
    match string_from_utf8(bytes) {
        Ok(text) => {
            proof {
                decode_utf8_encode_utf8(spelled);
            }
            Ok(text)
        },
        Err(_) => Err(TransportError::Utf8),
    }
}

/// The characters of the alphabet are all different.
pub proof fn lemma_base64url_char_injective(v: int, w: int)
    requires
        0 <= v < 64,
        0 <= w < 64,
        base64url_char(v) == base64url_char(w),
    ensures
        v == w,
{
}

/// Different byte strings have different base64url texts.
pub proof fn lemma_base64url_injective(a: Seq<u8>, b: Seq<u8>)
    requires
        base64url_text(a) == base64url_text(b),
    ensures
        a == b,
{
    let ta = base64url_text(a);
    let tb = base64url_text(b);
    assert(ta.len() == base64url_len(a.len()));
    assert(tb.len() == base64url_len(b.len()));
    assert(a.len() == b.len());
    assert forall|k: int| 0 <= k < a.len() implies a[k] == b[k] by {
        let g = k / 3;
        let i = 4 * g + k % 3;
        assert(0 <= i && i + 1 < ta.len());
        assert(ta[i] == base64url_char(sextet(a, i)) && tb[i] == base64url_char(sextet(b, i)));
        assert(ta[i + 1] == base64url_char(sextet(a, i + 1)) && tb[i + 1] == base64url_char(
            sextet(b, i + 1),
        ));
        lemma_base64url_char_injective(sextet(a, i), sextet(b, i));
        lemma_base64url_char_injective(sextet(a, i + 1), sextet(b, i + 1));
    }
    assert(a =~= b);
}

/// Unwrapping a wrapped text gives the text back: whatever
/// `concat_struct_base64url_decode` may return on the wrapping of `text`, it
/// is `Ok` and holds `text`.
pub proof fn lemma_wrap_round_trip(text: Seq<char>, outcome: Result<String, TransportError>)
    requires
        unwrap_outcome(base64url_text(encode_utf8(text)), outcome),
    ensures
        outcome.is_ok(),
        outcome.unwrap()@ == text,
{
    let bytes = encode_utf8(text);
    let encoded = base64url_text(bytes);
    encode_utf8_valid_utf8(text);
    encode_utf8_decode_utf8(text);
    match outcome {
        Ok(back) => {
            lemma_base64url_injective(encode_utf8(back@), bytes);
            encode_utf8_decode_utf8(back@);
        },
        Err(TransportError::Base64) => {
            assert(encoded == base64url_text(bytes));
        },
        Err(TransportError::Utf8) => {
            let other = choose|other: Seq<u8>|
                encoded == #[trigger] base64url_text(other) && !valid_utf8(other);
            lemma_base64url_injective(other, bytes);
        },
    }
}

impl TransportError {
    /// The error in words.
    pub open spec fn text(self) -> Seq<char> {
        match self {
            TransportError::Base64 => "Base64 decode error"@,
            TransportError::Utf8 => "UTF-8 conversion error"@,
        }
    }

    /// The error in words.
    pub fn message(&self) -> (text: String)
        ensures
            text@ == self.text(),
    {
        match self {
            TransportError::Base64 => "Base64 decode error".to_owned(),
            TransportError::Utf8 => "UTF-8 conversion error".to_owned(),
        }
    }
}

} // verus!
