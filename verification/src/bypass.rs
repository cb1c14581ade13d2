//! The bypass credential as a request carries it: a token's transport
//! text, wrapped in base64url, in a header of its own or in a cookie.

use crate::text::{field_views, fields, split_fields};
use crate::token::{decode_token_text, token_signed, verify_token_at, IronShieldToken, TokenData};
use crate::transport::{
    base64url_text, concat_struct_base64url_decode, lemma_base64url_injective, unwrap_outcome, TransportError,
};
use vstd::prelude::*;
use vstd::string::*;
use vstd::utf8::{encode_utf8, encode_utf8_decode_utf8, encode_utf8_valid_utf8};

verus! {

/// Whether `c` is white space: the characters that Unicode marks so.
pub open spec fn is_space(c: char) -> bool {
    let v = c as int;
    ||| 0x09 <= v <= 0x0D
    ||| v == 0x20
    ||| v == 0x85
    ||| v == 0xA0
    ||| v == 0x1680
    ||| 0x2000 <= v <= 0x200A
    ||| v == 0x2028
    ||| v == 0x2029
    ||| v == 0x202F
    ||| v == 0x205F
    ||| v == 0x3000
}

/// `text` without the white space at its start.
pub open spec fn trim_start(text: Seq<char>) -> Seq<char>
    decreases text.len(),
{
    if text.len() == 0 || !is_space(text[0]) {
        text
    } else {
        trim_start(text.skip(1))
    }
}

/// `text` without the white space at its end.
pub open spec fn trim_end(text: Seq<char>) -> Seq<char>
    decreases text.len(),
{
    if text.len() == 0 || !is_space(text.last()) {
        text
    } else {
        trim_end(text.drop_last())
    }
}

/// `text` without the white space at either end.
pub open spec fn trimmed(text: Seq<char>) -> Seq<char> {
    trim_end(trim_start(text))
}

/// What a credential stands for: the token whose wrapped transport text it
/// is, if it is one.
pub open spec fn credential_token(credential: Seq<char>, token: TokenData) -> bool {
    exists|text: Seq<char>|
        credential == base64url_text(#[trigger] encode_utf8(text)) && decode_token_text(text)
            == Ok::<TokenData, crate::token::TokenFormatError>(token)
}

/// Whether a credential is honoured at the moment `now`: it is the wrapped
/// transport text of a token whose signature holds and whose deadline has
/// not passed.
pub open spec fn credential_valid_at(credential: Seq<char>, now: i64) -> bool {
    exists|token: TokenData| #[trigger]
        credential_token(credential, token) && token_signed(token) && now <= token.valid_for
}

/// The value of a cookie, if the cookie has the given name: the cookie,
/// without white space around it, must be the name, one `=`, and the value.
pub open spec fn cookie_value(cookie: Seq<char>, name: Seq<char>) -> Option<Seq<char>> {
    let parts = fields(trimmed(cookie), '=');
    if parts.len() == 2 && parts[0] == name {
        Some(parts[1])
    } else {
        None
    }
}

/// Whether a `Cookie` header grants the bypass at the moment `now`: one of
/// its cookies, which `;` separates, has the given name and a value that is
/// a credential honoured at `now`.
pub open spec fn cookies_grant_at(header: Seq<char>, name: Seq<char>, now: i64) -> bool {
    exists|i: int|
        0 <= i < fields(header, ';').len() && cookie_grants_at(
            #[trigger] fields(header, ';')[i],
            name,
            now,
        )
}

/// Whether one cookie grants the bypass at the moment `now`.
pub open spec fn cookie_grants_at(cookie: Seq<char>, name: Seq<char>, now: i64) -> bool {
    match cookie_value(cookie, name) {
        Some(value) => credential_valid_at(value, now),
        None => false,
    }
}

/// Whether `c` is white space.
pub fn char_is_space(c: char) -> (space: bool)
    ensures
        space == is_space(c),
{
    let v: u32 = c as u32;
    (0x09 <= v && v <= 0x0D) || v == 0x20 || v == 0x85 || v == 0xA0 || v == 0x1680 || (0x2000 <= v && v
        <= 0x200A) || v == 0x2028 || v == 0x2029 || v == 0x202F || v == 0x205F || v == 0x3000
}

/// `text` without the white space at either end.
pub fn trim<'a>(text: &'a str) -> (out: &'a str)
    ensures
        out@ == trimmed(text@),
{
    let n: usize = text.unicode_len();
    let mut start: usize = 0;
    assert(text@.skip(0) =~= text@);
    while start < n && char_is_space(text.get_char(start))
        invariant
            start <= n,
            n == text@.len(),
            trim_start(text@) == trim_start(text@.skip(start as int)),
        decreases n - start,
    {
        assert(text@.skip(start as int).skip(1) =~= text@.skip(start + 1));
        assert(text@.skip(start as int)[0] == text@[start as int]);
        start = start + 1;
    }
    proof {
        let rest = text@.skip(start as int);
        if start < n {
            assert(rest[0] == text@[start as int]);
        }
        assert(trim_start(text@) == rest);
        assert(rest =~= text@.subrange(start as int, n as int));
    }
    let mut end: usize = n;
    while end > start && char_is_space(text.get_char(end - 1))
        invariant
            start <= end <= n,
            n == text@.len(),
            trimmed(text@) == trim_end(text@.subrange(start as int, end as int)),
        decreases end - start,
    {
        let ghost piece = text@.subrange(start as int, end as int);
        assert(piece.last() == text@[end - 1]);
        assert(piece.drop_last() =~= text@.subrange(start as int, end - 1));
        end = end - 1;
    }
    proof {
        let piece = text@.subrange(start as int, end as int);
        if end > start {
            assert(piece.last() == text@[end - 1]);
        }
        assert(trim_end(piece) == piece);
    }
    text.substring_char(start, end)
}

/// Whether two texts are the same, character for character.
pub fn same_text(a: &str, b: &str) -> (same: bool)
    ensures
        same == (a@ == b@),
{
    let n: usize = a.unicode_len();
    if b.unicode_len() != n {
        return false;
    }
    let mut i: usize = 0;
    while i < n
        invariant
            i <= n,
            n == a@.len(),
            n == b@.len(),
            forall|j: int| 0 <= j < i ==> a@[j] == b@[j],
        decreases n - i,
    {
        if a.get_char(i) != b.get_char(i) {
            return false;
        }
        i = i + 1;
    }
    assert(a@ =~= b@);
    true
}

/// A credential stands for at most one transport text.
pub proof fn lemma_credential_text_unique(credential: Seq<char>, first: Seq<char>, second: Seq<char>)
    requires
        credential == base64url_text(encode_utf8(first)),
        credential == base64url_text(encode_utf8(second)),
    ensures
        first == second,
{
    lemma_base64url_injective(encode_utf8(first), encode_utf8(second));
    encode_utf8_decode_utf8(first);
    encode_utf8_decode_utf8(second);
}

/// Whether a presented credential is honoured at the moment `now`. Text
/// that is no base64url, that wraps no token, or that wraps a token with a
/// bad signature or a deadline that has passed: each is the same `false`.
pub fn credential_is_valid_at(credential: &str, now: i64) -> (valid: bool)
    ensures
        valid == credential_valid_at(credential@, now),
{
    let unwrapped = concat_struct_base64url_decode(credential.to_owned());
    let text: String = match unwrapped {
        Ok(text) => text,
        Err(error) => {
            proof {
                assert forall|token: TokenData| !#[trigger] credential_token(
                    credential@,
                    token,
                ) by {
                    if credential_token(credential@, token) {
                        let other = choose|other: Seq<char>|
                            credential@ == base64url_text(#[trigger] encode_utf8(other))
                                && decode_token_text(other) == Ok::<
                                TokenData,
                                crate::token::TokenFormatError,
                            >(token);
                        encode_utf8_valid_utf8(other);
                        match error {
                            TransportError::Base64 => {
                                assert(credential@ == base64url_text(encode_utf8(other)));
                            },
                            TransportError::Utf8 => {
                                let bytes = choose|bytes: Seq<u8>|
                                    credential@ == #[trigger] base64url_text(bytes)
                                        && !vstd::utf8::valid_utf8(bytes);
                                lemma_base64url_injective(bytes, encode_utf8(other));
                            },
                        }
                    }
                }
            }
            return false;
        },
    };
    match IronShieldToken::from_concat_struct(text.as_str()) {
        Ok(token) => {
            let valid: bool = verify_token_at(&token, now);
            proof {
                assert(credential_token(credential@, token@)) by {
                    assert(credential@ == base64url_text(encode_utf8(text@)));
                }
                if !valid {
                    assert forall|other: TokenData| #[trigger]
                        credential_token(credential@, other) implies other == token@ by {
                        let t = choose|t: Seq<char>|
                            credential@ == base64url_text(#[trigger] encode_utf8(t))
                                && decode_token_text(t) == Ok::<
                                TokenData,
                                crate::token::TokenFormatError,
                            >(other);
                        lemma_credential_text_unique(credential@, t, text@);
                    }
                }
            }
            valid
        },
        Err(_) => {
            proof {
                assert forall|token: TokenData| !#[trigger] credential_token(
                    credential@,
                    token,
                ) by {
                    if credential_token(credential@, token) {
                        let t = choose|t: Seq<char>|
                            credential@ == base64url_text(#[trigger] encode_utf8(t))
                                && decode_token_text(t) == Ok::<
                                TokenData,
                                crate::token::TokenFormatError,
                            >(token);
                        lemma_credential_text_unique(credential@, t, text@);
                    }
                }
            }
            false
        },
    }
}

/// The value of a cookie, if the cookie has the given name.
pub fn cookie_value_of<'a>(cookie: &'a str, name: &str) -> (value: Option<&'a str>)
    ensures
        match value {
            Some(v) => cookie_value(cookie@, name@) == Some(v@),
            None => cookie_value(cookie@, name@).is_none(),
        },
{
    let parts: Vec<&'a str> = split_fields(trim(cookie), '=');
    proof {
        assert(field_views(parts@).len() == parts@.len());
        if parts@.len() == 2 {
            assert(field_views(parts@)[0] == parts@[0]@);
            assert(field_views(parts@)[1] == parts@[1]@);
        }
    }
    if parts.len() != 2 {
        return None;
    }
    if !same_text(parts[0], name) {
        return None;
    }
    Some(parts[1])
}

/// Whether a `Cookie` header grants the bypass at the moment `now`.
pub fn cookies_grant_bypass_at(header: &str, name: &str, now: i64) -> (granted: bool)
    ensures
        granted == cookies_grant_at(header@, name@, now),
{
    let cookies: Vec<&str> = split_fields(header, ';');
    let n: usize = cookies.len();
    proof {
        assert(field_views(cookies@).len() == cookies@.len());
    }
    let mut i: usize = 0;
    while i < n
        invariant
            i <= n,
            n == cookies@.len(),
            field_views(cookies@) == fields(header@, ';'),
            forall|j: int| 0 <= j < i ==> !cookie_grants_at(#[trigger] fields(header@, ';')[j], name@, now),
        decreases n - i,
    {
        assert(field_views(cookies@)[i as int] == cookies@[i as int]@);
        let granted: bool = match cookie_value_of(cookies[i], name) {
            Some(value) => credential_is_valid_at(value, now),
            None => false,
        };
        if granted {
            assert(cookie_grants_at(fields(header@, ';')[i as int], name@, now));
            return true;
        }
        i = i + 1;
    }
    false
}

} // verus!
