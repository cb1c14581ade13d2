//! The bypass token: a short-lived signed credential that stands for a
//! solved challenge.

use crate::bytes::{be_bytes, extend_bytes, i64_to_be_bytes, lemma_i64_bytes_injective};
use crate::clock::now_millis;
use crate::challenge::{time_field, to_array_32, to_array_64};
use crate::hexcode::{hex_bytes, hex_decode, hex_encode, hex_text, is_hex, lemma_hex_round_trip, lemma_hex_text_avoids};
use crate::signature::{
    ed25519_accepts, ed25519_public, ed25519_public_key, ed25519_sign, ed25519_signature, ed25519_verify,
};
use crate::text::{
    decimal_text, field_views, fields, i64_text, lemma_decimal_round_trip, lemma_decimal_text_avoids,
    lemma_fields_cons, lemma_fields_single, parse_i64, split_fields, u64_text,
};
use vstd::prelude::*;
use vstd::string::*;

verus! {

/// A bypass token.
///
/// * `challenge_signature`: the signature of the challenge that was solved.
/// * `valid_for`: the deadline, a Unix timestamp in milliseconds.
/// * `public_key`: the issuer's Ed25519 public key.
/// * `authentication_signature`: the issuer's signature over
///   `challenge_signature` followed by `valid_for` as eight big-endian bytes.
#[derive(Debug, Clone)]
pub struct IronShieldToken {
    pub challenge_signature: [u8; 64],
    pub valid_for: i64,
    pub public_key: [u8; 32],
    pub authentication_signature: [u8; 64],
}

/// The bytes that a token's authentication signature covers.
pub open spec fn token_signable(challenge_signature: Seq<u8>, valid_for: i64) -> Seq<u8> {
    challenge_signature + be_bytes(valid_for)
}

/// A token as mathematics sees it.
pub struct TokenData {
    pub challenge_signature: Seq<u8>,
    pub valid_for: i64,
    pub public_key: Seq<u8>,
    pub authentication_signature: Seq<u8>,
}

impl View for IronShieldToken {
    type V = TokenData;

    open spec fn view(&self) -> TokenData {
        TokenData {
            challenge_signature: self.challenge_signature@,
            valid_for: self.valid_for,
            public_key: self.public_key@,
            authentication_signature: self.authentication_signature@,
        }
    }
}

/// Why a text is no token.
#[derive(Debug, Clone, Copy, PartialEq, Eq, Structural)]
pub enum TokenFormatError {
    /// The text does not have four fields; `found` is what it has.
    FieldCount { found: usize },
    /// The first field is no hexadecimal text.
    ChallengeSignatureHex,
    /// The first field does not spell 64 bytes.
    ChallengeSignatureLength,
    /// The second field is no 64-bit decimal.
    ValidFor,
    /// The third field is no hexadecimal text.
    PublicKeyHex,
    /// The third field does not spell 32 bytes.
    PublicKeyLength,
    /// The fourth field is no hexadecimal text.
    AuthenticationSignatureHex,
    /// The fourth field does not spell 64 bytes.
    AuthenticationSignatureLength,
}

/// The transport text of a token: its four fields joined by `|`, the
/// deadline in decimal, the byte fields in lower-case hexadecimal.
pub open spec fn token_text(token: TokenData) -> Seq<char> {
    hex_text(token.challenge_signature) + seq!['|'] + decimal_text(token.valid_for as int) + seq!['|']
        + hex_text(token.public_key) + seq!['|'] + hex_text(token.authentication_signature)
}

/// What a transport text decodes to. The checks come in the order of the
/// fields, and the first that fails names the error.
pub open spec fn decode_token_text(text: Seq<char>) -> Result<TokenData, TokenFormatError> {
    let parts = fields(text, '|');
    if parts.len() != 4 {
        Err(TokenFormatError::FieldCount { found: parts.len() as usize })
    } else if !is_hex(parts[0]) {
        Err(TokenFormatError::ChallengeSignatureHex)
    } else if parts[0].len() != 128 {
        Err(TokenFormatError::ChallengeSignatureLength)
    } else if time_field(parts[1]).is_none() {
        Err(TokenFormatError::ValidFor)
    } else if !is_hex(parts[2]) {
        Err(TokenFormatError::PublicKeyHex)
    } else if parts[2].len() != 64 {
        Err(TokenFormatError::PublicKeyLength)
    } else if !is_hex(parts[3]) {
        Err(TokenFormatError::AuthenticationSignatureHex)
    } else if parts[3].len() != 128 {
        Err(TokenFormatError::AuthenticationSignatureLength)
    } else {
        Ok(
            TokenData {
                challenge_signature: hex_bytes(parts[0]),
                valid_for: time_field(parts[1]).unwrap() as i64,
                public_key: hex_bytes(parts[2]),
                authentication_signature: hex_bytes(parts[3]),
            },
        )
    }
}

/// Whether a token's signature checks out under the key it carries.
pub open spec fn token_signed(token: TokenData) -> bool {
    ed25519_accepts(
        token.public_key,
        token_signable(token.challenge_signature, token.valid_for),
        token.authentication_signature,
    )
}

impl IronShieldToken {
    /// Whether the token's signature checks out under the key it carries.
    pub open spec fn signature_holds(&self) -> bool {
        token_signed(self@)
    }

    /// Whether the token is past its deadline at the moment `now`.
    pub open spec fn expired_at(&self, now: i64) -> bool {
        now > self.valid_for
    }

    /// Whether the token is to be honoured at the moment `now`: its signature
    /// holds and the deadline has not passed. Both are required.
    pub open spec fn valid_at(&self, now: i64) -> bool {
        self.signature_holds() && now <= self.valid_for
    }

    /// A token of the given parts.
    pub fn new(
        challenge_signature: [u8; 64],
        valid_for: i64,
        public_key: [u8; 32],
        authentication_signature: [u8; 64],
    ) -> (token: Self)
        ensures
            token.challenge_signature == challenge_signature,
            token.valid_for == valid_for,
            token.public_key == public_key,
            token.authentication_signature == authentication_signature,
    {
        Self { challenge_signature, valid_for, public_key, authentication_signature }
    }

    /// Whether the token is past its deadline at the moment `now`.
    pub fn is_expired_at(&self, now: i64) -> (expired: bool)
        ensures
            expired == self.expired_at(now),
    {
        now > self.valid_for
    }

    /// Whether the token is past its deadline by the wall clock: the answer
    /// of `is_expired_at` for the moment the clock showed.
    pub fn is_expired(&self) -> (expired: bool)
        ensures
            exists|now: i64| expired == #[trigger] self.expired_at(now),
    {
        let now: i64 = now_millis();
        self.is_expired_at(now)
    }

    /// The bytes that the token's authentication signature covers.
    pub fn signable_data(&self) -> (data: Vec<u8>)
        ensures
            data@ == token_signable(self.challenge_signature@, self.valid_for),
    {
        let mut data: Vec<u8> = Vec::new();
        extend_bytes(&mut data, self.challenge_signature.as_slice());
        let deadline = i64_to_be_bytes(self.valid_for);
        extend_bytes(&mut data, deadline.as_slice());
        assert(data@ =~= token_signable(self.challenge_signature@, self.valid_for));
        data
    }

    /// The transport text of the token.
    pub fn concat_struct(&self) -> (text: String)
        ensures
            text@ == token_text(self@),
    {
        proof {
            reveal_strlit("|");
        }
        assert("|"@ =~= seq!['|']);
        let mut text: String = hex_encode(self.challenge_signature.as_slice());
        text.append("|");
        let deadline: String = i64_text(self.valid_for);
        text.append(deadline.as_str());
        text.append("|");
        let key: String = hex_encode(self.public_key.as_slice());
        text.append(key.as_str());
        text.append("|");
        let signature: String = hex_encode(self.authentication_signature.as_slice());
        text.append(signature.as_str());
        text
    }
}

impl IronShieldToken {
    /// Reads a token back from its transport text. The text must have four
    /// fields: the two signatures hexadecimal for 64 bytes, the deadline a
    /// 64-bit decimal, the key hexadecimal for 32 bytes.
    pub fn from_concat_struct(concat_str: &str) -> (decoded: Result<Self, TokenFormatError>)
        ensures
            match decoded {
                Ok(token) => decode_token_text(concat_str@) == Ok::<TokenData, TokenFormatError>(token@),
                Err(error) => decode_token_text(concat_str@) == Err::<TokenData, TokenFormatError>(
                    error,
                ),
            },
    {
        let parts: Vec<&str> = split_fields(concat_str, '|');
        proof {
            assert(field_views(parts@).len() == parts@.len());
            assert forall|i: int| 0 <= i < parts@.len() implies parts@[i]@ == fields(
                concat_str@,
                '|',
            )[i] by {
                assert(field_views(parts@)[i] == parts@[i]@);
            }
        }
        if parts.len() != 4 {
            return Err(TokenFormatError::FieldCount { found: parts.len() });
        }
        let challenge_bytes: Vec<u8> = match hex_decode(parts[0]) {
            Ok(bytes) => bytes,
            Err(_) => {
                return Err(TokenFormatError::ChallengeSignatureHex);
            },
        };
        let challenge_signature: [u8; 64] = match to_array_64(&challenge_bytes) {
            Some(array) => array,
            None => {
                return Err(TokenFormatError::ChallengeSignatureLength);
            },
        };
        let valid_for: i64 = match parse_i64(parts[1]) {
            Some(v) => v,
            None => {
                return Err(TokenFormatError::ValidFor);
            },
        };
        let key_bytes: Vec<u8> = match hex_decode(parts[2]) {
            Ok(bytes) => bytes,
            Err(_) => {
                return Err(TokenFormatError::PublicKeyHex);
            },
        };
        let public_key: [u8; 32] = match to_array_32(&key_bytes) {
            Some(array) => array,
            None => {
                return Err(TokenFormatError::PublicKeyLength);
            },
        };
        let signature_bytes: Vec<u8> = match hex_decode(parts[3]) {
            Ok(bytes) => bytes,
            Err(_) => {
                return Err(TokenFormatError::AuthenticationSignatureHex);
            },
        };
        let authentication_signature: [u8; 64] = match to_array_64(&signature_bytes) {
            Some(array) => array,
            None => {
                return Err(TokenFormatError::AuthenticationSignatureLength);
            },
        };
        let token = Self { challenge_signature, valid_for, public_key, authentication_signature };
        proof {
            assert(token@ == decode_token_text(concat_str@).unwrap());
        }
        Ok(token)
    }
}

impl TokenFormatError {
    /// The error in words.
    pub open spec fn text(self) -> Seq<char> {
        match self {
            TokenFormatError::FieldCount { found } => "Expected 4 parts, got "@ + decimal_text(
                found as int,
            ),
            TokenFormatError::ChallengeSignatureHex => "Failed to decode challenge_signature hex string"@,
            TokenFormatError::ChallengeSignatureLength => "Challenge signature must be exactly 64 bytes"@,
            TokenFormatError::ValidFor => "Failed to parse valid_for as i64"@,
            TokenFormatError::PublicKeyHex => "Failed to decode public_key hex string"@,
            TokenFormatError::PublicKeyLength => "Public key must be exactly 32 bytes"@,
            TokenFormatError::AuthenticationSignatureHex => "Failed to decode authentication_signature hex string"@,
            TokenFormatError::AuthenticationSignatureLength => "Authentication signature must be exactly 64 bytes"@,
        }
    }

    /// The error in words.
    pub fn message(&self) -> (text: String)
        ensures
            text@ == self.text(),
    {
        match self {
            TokenFormatError::FieldCount { found } => {
                let mut text: String = "Expected 4 parts, got ".to_owned();
                let count: String = u64_text(*found as u64);
                text.append(count.as_str());
                text
            },
            TokenFormatError::ChallengeSignatureHex => "Failed to decode challenge_signature hex string".to_owned(),
            TokenFormatError::ChallengeSignatureLength => "Challenge signature must be exactly 64 bytes".to_owned(),
            TokenFormatError::ValidFor => "Failed to parse valid_for as i64".to_owned(),
            TokenFormatError::PublicKeyHex => "Failed to decode public_key hex string".to_owned(),
            TokenFormatError::PublicKeyLength => "Public key must be exactly 32 bytes".to_owned(),
            TokenFormatError::AuthenticationSignatureHex => "Failed to decode authentication_signature hex string".to_owned(),
            TokenFormatError::AuthenticationSignatureLength => "Authentication signature must be exactly 64 bytes".to_owned(),
        }
    }
}

/// Decoding the transport text of a token gives the token back, field for
/// field.
pub proof fn lemma_token_round_trip(token: TokenData)
    requires
        token.challenge_signature.len() == 64,
        token.public_key.len() == 32,
        token.authentication_signature.len() == 64,
    ensures
        decode_token_text(token_text(token)) == Ok::<TokenData, TokenFormatError>(token),
{
    let sep = seq!['|'];
    let f0 = hex_text(token.challenge_signature);
    let f1 = decimal_text(token.valid_for as int);
    let f2 = hex_text(token.public_key);
    let f3 = hex_text(token.authentication_signature);
    lemma_decimal_text_avoids(token.valid_for as int, '|');
    lemma_hex_text_avoids(token.challenge_signature, '|');
    lemma_hex_text_avoids(token.public_key, '|');
    lemma_hex_text_avoids(token.authentication_signature, '|');
    let t3 = f3;
    let t2 = f2 + sep + t3;
    let t1 = f1 + sep + t2;
    let t0 = f0 + sep + t1;
    assert(token_text(token) =~= t0);
    lemma_fields_single(t3, '|');
    lemma_fields_cons(f2, '|', t3);
    lemma_fields_cons(f1, '|', t2);
    lemma_fields_cons(f0, '|', t1);
    assert(fields(t0, '|') =~= seq![f0, f1, f2, f3]);
    lemma_decimal_round_trip(token.valid_for as int, i64::MIN as int, i64::MAX as int);
    lemma_hex_round_trip(token.challenge_signature);
    lemma_hex_round_trip(token.public_key);
    lemma_hex_round_trip(token.authentication_signature);
    let d = decode_token_text(t0);
    assert(d.is_ok());
    assert(d.unwrap().challenge_signature == token.challenge_signature);
    assert(d.unwrap() == token);
}

/// What `issue_token_at` makes: the token for a solved challenge that is
/// good until `valid_for`, signed with `signing_key`.
pub open spec fn issued_token(
    token: IronShieldToken,
    challenge_signature: Seq<u8>,
    valid_for: i64,
    signing_key: Seq<u8>,
) -> bool {
    &&& token.challenge_signature@ == challenge_signature
    &&& token.valid_for == valid_for
    &&& token.public_key@ == ed25519_public(signing_key)
    &&& token.authentication_signature@ == ed25519_signature(
        signing_key,
        token_signable(challenge_signature, valid_for),
    )
    &&& token.signature_holds()
}

/// Issues the token for a solved challenge at the moment `now`, good for
/// `validity_window` milliseconds.
pub fn issue_token_at(
    challenge_signature: [u8; 64],
    now: i64,
    validity_window: i64,
    signing_key: &[u8; 32],
) -> (token: IronShieldToken)
    requires
        i64::MIN <= now + validity_window <= i64::MAX,
    ensures
        issued_token(token, challenge_signature@, (now + validity_window) as i64, signing_key@),
{
    let valid_for: i64 = now + validity_window;
    let public_key: [u8; 32] = ed25519_public_key(signing_key);
    let mut message: Vec<u8> = Vec::new();
    extend_bytes(&mut message, challenge_signature.as_slice());
    let deadline = i64_to_be_bytes(valid_for);
    extend_bytes(&mut message, deadline.as_slice());
    assert(message@ =~= token_signable(challenge_signature@, valid_for));
    let authentication_signature: [u8; 64] = ed25519_sign(signing_key, message.as_slice());
    IronShieldToken::new(challenge_signature, valid_for, public_key, authentication_signature)
}

/// What issuing a token owes for a moment: the token that `issue_token_at`
/// makes, good until `now + validity_window`, wherever that deadline fits 64
/// bits; and no token where it does not.
pub open spec fn token_outcome(
    outcome: Option<IronShieldToken>,
    now: i64,
    challenge_signature: Seq<u8>,
    validity_window: i64,
    signing_key: Seq<u8>,
) -> bool {
    match outcome {
        Some(token) => {
            &&& i64::MIN <= now + validity_window <= i64::MAX
            &&& issued_token(token, challenge_signature, (now + validity_window) as i64, signing_key)
        },
        None => !(i64::MIN <= now + validity_window <= i64::MAX),
    }
}

/// Issues the token for a solved challenge at the moment `now`, good for
/// `validity_window` milliseconds, for any moment and any window: `None`
/// exactly where the deadline `now + validity_window` does not fit 64 bits.
pub fn issue_token_checked_at(
    challenge_signature: [u8; 64],
    now: i64,
    validity_window: i64,
    signing_key: &[u8; 32],
) -> (token: Option<IronShieldToken>)
    ensures
        token_outcome(token, now, challenge_signature@, validity_window, signing_key@),
        token.is_some() == (i64::MIN <= now + validity_window <= i64::MAX),
        token.is_some() ==> issued_token(
            token.unwrap(),
            challenge_signature@,
            (now + validity_window) as i64,
            signing_key@,
        ),
{
    match now.checked_add(validity_window) {
        Some(_) => Some(issue_token_at(challenge_signature, now, validity_window, signing_key)),
        None => None,
    }
}

/// Issues the token for a solved challenge by the wall clock, good for
/// `validity_window` milliseconds from now: what `issue_token_checked_at`
/// makes at the moment that the clock showed. The moment is not the
/// caller's, so the contract names it only as some moment; what holds of
/// every token issued, whatever the moment was, is stated beside it.
pub fn issue_token(challenge_signature: [u8; 64], validity_window: i64, signing_key: &[u8; 32]) -> (token:
    Option<IronShieldToken>)
    ensures
        exists|now: i64| #[trigger]
            token_outcome(token, now, challenge_signature@, validity_window, signing_key@),
        token.is_some() ==> {
            let issued = token.unwrap();
            &&& issued.challenge_signature@ == challenge_signature@
            &&& issued.public_key@ == ed25519_public(signing_key@)
            &&& issued.authentication_signature@ == ed25519_signature(
                signing_key@,
                token_signable(challenge_signature@, issued.valid_for),
            )
            &&& issued.signature_holds()
        },
        validity_window == 0 ==> token.is_some(),
{
    let now: i64 = now_millis();
    let token = issue_token_checked_at(challenge_signature, now, validity_window, signing_key);
    assert(token_outcome(token, now, challenge_signature@, validity_window, signing_key@));
    token
}

/// Whether the token is to be honoured at the moment `now`.
pub fn verify_token_at(token: &IronShieldToken, now: i64) -> (valid: bool)
    ensures
        valid == token.valid_at(now),
{
    let message: Vec<u8> = token.signable_data();
    let signed: bool = ed25519_verify(
        &token.public_key,
        message.as_slice(),
        &token.authentication_signature,
    );
    signed && now <= token.valid_for
}

/// Whether the token is to be honoured by the wall clock: the answer of
/// `verify_token_at` for the moment the clock showed. Whatever the clock
/// shows, a token whose signature does not hold is refused.
pub fn verify_token(token: &IronShieldToken) -> (valid: bool)
    ensures
        exists|now: i64| valid == #[trigger] token.valid_at(now),
        valid ==> token.signature_holds(),
{
    let now: i64 = now_millis();
    verify_token_at(token, now)
}

/// A token past its deadline is refused, whether or not its signature holds.
pub proof fn lemma_expired_token_refused(token: IronShieldToken, now: i64)
    requires
        token.valid_for < now,
    ensures
        !token.valid_at(now),
        token.expired_at(now),
{
}

/// A token whose signature does not hold, as after any change to
/// `valid_for` that the issuer did not sign, is refused at every moment.
pub proof fn lemma_unsigned_token_refused(token: IronShieldToken, now: i64)
    requires
        !token.signature_holds(),
    ensures
        !token.valid_at(now),
{
}

/// A changed deadline shows: a token that differs from another in its
/// deadline alone has other signed bytes and another transport text. So the
/// signature that the issuer put on the first was put on other bytes than
/// those that the second is held against. Whether a signature holds on bytes
/// it was not made for is for Ed25519 to say, not for this library; where it
/// does not hold, `lemma_unsigned_token_refused` has the rest.
pub proof fn lemma_changed_deadline_shows(first: TokenData, second: TokenData)
    requires
        first.challenge_signature.len() == 64,
        first.public_key.len() == 32,
        first.authentication_signature.len() == 64,
        second.challenge_signature == first.challenge_signature,
        second.public_key == first.public_key,
        second.authentication_signature == first.authentication_signature,
        second.valid_for != first.valid_for,
    ensures
        token_signable(second.challenge_signature, second.valid_for) != token_signable(
            first.challenge_signature,
            first.valid_for,
        ),
        token_text(second) != token_text(first),
{
    lemma_i64_bytes_injective(first.valid_for, second.valid_for);
    let a = token_signable(first.challenge_signature, first.valid_for);
    let b = token_signable(second.challenge_signature, second.valid_for);
    if a == b {
        assert(a.skip(64) =~= be_bytes(first.valid_for));
        assert(b.skip(64) =~= be_bytes(second.valid_for));
    }
    lemma_token_round_trip(first);
    lemma_token_round_trip(second);
}

/// A token is honoured from the moment it is issued until its deadline, and
/// no longer.
pub proof fn lemma_issued_token_lifetime(
    token: IronShieldToken,
    challenge_signature: Seq<u8>,
    valid_for: i64,
    signing_key: Seq<u8>,
    now: i64,
)
    requires
        issued_token(token, challenge_signature, valid_for, signing_key),
    ensures
        token.valid_at(now) <==> now <= valid_for,
{
}

} // verus!
