//! The challenge: what a client is asked to solve, and how it travels.

use crate::bytes::{be_bytes, extend_bytes, i64_to_be_bytes};
use crate::clock::now_millis;
use crate::difficulty::{difficulty_threshold, difficulty_to_threshold, planned_attempts};
use crate::hexcode::{hex_bytes, hex_decode, hex_encode, hex_text, is_hex, lemma_hex_round_trip, lemma_hex_text_avoids};
use crate::text::{
    decimal_text, field_views, fields, i64_text, lemma_decimal_round_trip, lemma_decimal_text_avoids,
    lemma_fields_cons, lemma_fields_single, parse_i64, parse_signed, split_fields, u64_text,
};
use vstd::prelude::*;
use vstd::string::*;

verus! {

/// How long a challenge stays valid, in milliseconds.
pub const CHALLENGE_LIFETIME_MS: i64 = 30_000;

/// A proof-of-work challenge.
///
/// * `random_nonce`: the per-challenge entropy, as hexadecimal text.
/// * `created_time`, `expiration_time`: Unix timestamps in milliseconds.
/// * `website_id`: the protected site.
/// * `challenge_param`: the threshold, a 256-bit big-endian number; a hash is
///   accepted if and only if it is strictly below it.
/// * `public_key`: the issuer's Ed25519 public key.
/// * `challenge_signature`: the issuer's Ed25519 signature over
///   `signable_data`.
#[derive(Debug, Clone)]
pub struct IronShieldChallenge {
    pub random_nonce: String,
    pub created_time: i64,
    pub expiration_time: i64,
    pub website_id: String,
    pub challenge_param: [u8; 32],
    pub public_key: [u8; 32],
    pub challenge_signature: [u8; 64],
}

/// A challenge as mathematics sees it.
pub struct ChallengeData {
    pub random_nonce: Seq<char>,
    pub created_time: i64,
    pub expiration_time: i64,
    pub website_id: Seq<char>,
    pub challenge_param: Seq<u8>,
    pub public_key: Seq<u8>,
    pub challenge_signature: Seq<u8>,
}

/// Why a text is no challenge.
#[derive(Debug, Clone, Copy, PartialEq, Eq, Structural)]
pub enum FormatError {
    /// The text does not have seven fields; `found` is what it has.
    FieldCount { found: usize },
    /// The second field is no 64-bit decimal.
    CreatedTime,
    /// The third field is no 64-bit decimal.
    ExpirationTime,
    /// The fifth field is no hexadecimal text.
    ThresholdHex,
    /// The fifth field does not spell 32 bytes.
    ThresholdLength,
    /// The sixth field is no hexadecimal text.
    PublicKeyHex,
    /// The sixth field does not spell 32 bytes.
    PublicKeyLength,
    /// The seventh field is no hexadecimal text.
    SignatureHex,
    /// The seventh field does not spell 64 bytes.
    SignatureLength,
}

impl View for IronShieldChallenge {
    type V = ChallengeData;

    open spec fn view(&self) -> ChallengeData {
        ChallengeData {
            random_nonce: self.random_nonce@,
            created_time: self.created_time,
            expiration_time: self.expiration_time,
            website_id: self.website_id@,
            challenge_param: self.challenge_param@,
            public_key: self.public_key@,
            challenge_signature: self.challenge_signature@,
        }
    }
}

/// The byte string that the issuer signs: the seed's text as UTF-8, the two
/// timestamps as eight big-endian bytes each, then the threshold. The
/// signature, the public key and `website_id` are not part of it.
pub open spec fn signable_bytes(c: ChallengeData) -> Seq<u8> {
    vstd::utf8::encode_utf8(c.random_nonce) + be_bytes(c.created_time) + be_bytes(c.expiration_time)
        + c.challenge_param
}

/// The transport text of a challenge: its seven fields joined by `|`, the
/// timestamps in decimal, the byte fields in lower-case hexadecimal.
pub open spec fn challenge_text(c: ChallengeData) -> Seq<char> {
    c.random_nonce + seq!['|'] + decimal_text(c.created_time as int) + seq!['|'] + decimal_text(
        c.expiration_time as int,
    ) + seq!['|'] + c.website_id + seq!['|'] + hex_text(c.challenge_param) + seq!['|'] + hex_text(
        c.public_key,
    ) + seq!['|'] + hex_text(c.challenge_signature)
}

/// The value of a field that must be a 64-bit decimal.
pub open spec fn time_field(field: Seq<char>) -> Option<int> {
    parse_signed(field, i64::MIN as int, i64::MAX as int)
}

/// What a transport text decodes to. The checks come in the order of the
/// fields, and the first that fails names the error.
pub open spec fn decode_text(text: Seq<char>) -> Result<ChallengeData, FormatError> {
    let parts = fields(text, '|');
    if parts.len() != 7 {
        Err(FormatError::FieldCount { found: parts.len() as usize })
    } else if time_field(parts[1]).is_none() {
        Err(FormatError::CreatedTime)
    } else if time_field(parts[2]).is_none() {
        Err(FormatError::ExpirationTime)
    } else if !is_hex(parts[4]) {
        Err(FormatError::ThresholdHex)
    } else if parts[4].len() != 64 {
        Err(FormatError::ThresholdLength)
    } else if !is_hex(parts[5]) {
        Err(FormatError::PublicKeyHex)
    } else if parts[5].len() != 64 {
        Err(FormatError::PublicKeyLength)
    } else if !is_hex(parts[6]) {
        Err(FormatError::SignatureHex)
    } else if parts[6].len() != 128 {
        Err(FormatError::SignatureLength)
    } else {
        Ok(
            ChallengeData {
                random_nonce: parts[0],
                created_time: time_field(parts[1]).unwrap() as i64,
                expiration_time: time_field(parts[2]).unwrap() as i64,
                website_id: parts[3],
                challenge_param: hex_bytes(parts[4]),
                public_key: hex_bytes(parts[5]),
                challenge_signature: hex_bytes(parts[6]),
            },
        )
    }
}

/// Copies 32 bytes into an array; `None` for any other length.
pub fn to_array_32(bytes: &Vec<u8>) -> (array: Option<[u8; 32]>)
    ensures
        array.is_some() == (bytes@.len() == 32),
        array.is_some() ==> array.unwrap()@ == bytes@,
{
    if bytes.len() != 32 {
        return None;
    }
    let mut array: [u8; 32] = [0u8; 32];
    let mut i: usize = 0;
    while i < 32
        invariant
            i <= 32,
            bytes@.len() == 32,
            forall|j: int| 0 <= j < i ==> array@[j] == bytes@[j],
        decreases 32 - i,
    {
        array[i] = bytes[i];
        i = i + 1;
    }
    assert(array@ =~= bytes@);
    Some(array)
}

/// Copies 64 bytes into an array; `None` for any other length.
pub fn to_array_64(bytes: &Vec<u8>) -> (array: Option<[u8; 64]>)
    ensures
        array.is_some() == (bytes@.len() == 64),
        array.is_some() ==> array.unwrap()@ == bytes@,
{
    if bytes.len() != 64 {
        return None;
    }
    let mut array: [u8; 64] = [0u8; 64];
    let mut i: usize = 0;
    while i < 64
        invariant
            i <= 64,
            bytes@.len() == 64,
            forall|j: int| 0 <= j < i ==> array@[j] == bytes@[j],
        decreases 64 - i,
    {
        array[i] = bytes[i];
        i = i + 1;
    }
    assert(array@ =~= bytes@);
    Some(array)
}

impl IronShieldChallenge {
    /// Whether the challenge expires `CHALLENGE_LIFETIME_MS` after it was
    /// created, as every challenge made by `new` does.
    pub open spec fn well_formed(&self) -> bool {
        self.expiration_time == self.created_time + 30_000
    }

    /// A challenge created at `created_time` that expires 30 seconds later.
    pub fn new(
        random_nonce: String,
        created_time: i64,
        website_id: String,
        challenge_param: [u8; 32],
        public_key: [u8; 32],
        signature: [u8; 64],
    ) -> (challenge: Self)
        requires
            created_time + 30_000 <= i64::MAX,
        ensures
            challenge.well_formed(),
            challenge.random_nonce == random_nonce,
            challenge.created_time == created_time,
            challenge.website_id == website_id,
            challenge.challenge_param == challenge_param,
            challenge.public_key == public_key,
            challenge.challenge_signature == signature,
    {
        Self {
            random_nonce,
            created_time,
            website_id,
            expiration_time: created_time + CHALLENGE_LIFETIME_MS,
            challenge_param,
            public_key,
            challenge_signature: signature,
        }
    }

    /// Converts a difficulty (an expected number of attempts, at least 1)
    /// into the threshold that a solution's hash must stay below.
    pub fn difficulty_to_challenge_param(difficulty: u64) -> (param: [u8; 32])
        requires
            difficulty > 0,
        ensures
            param@ == difficulty_threshold(difficulty),
    {
        difficulty_to_threshold(difficulty)
    }

    /// How many attempts to plan for at a difficulty: three times the
    /// expected number, capped at `u64::MAX`.
    pub fn recommended_attempts(difficulty: u64) -> (attempts: u64)
        ensures
            attempts == planned_attempts(difficulty),
    {
        if difficulty > u64::MAX / 3 {
            u64::MAX
        } else {
            difficulty * 3
        }
    }

    /// Whether the challenge has expired at the moment `now`: strictly after
    /// its expiration time.
    pub open spec fn expired_at(&self, now: i64) -> bool {
        now > self.expiration_time
    }

    /// The milliseconds from `now` to the expiration, negative once it has
    /// passed, held to the range of `i64` where the difference leaves it.
    pub open spec fn time_left_at(&self, now: i64) -> int {
        clamp_i64(self.expiration_time - now)
    }

    /// Whether the challenge has expired at the moment `now`.
    pub fn is_expired_at(&self, now: i64) -> (expired: bool)
        ensures
            expired == self.expired_at(now),
    {
        now > self.expiration_time
    }

    /// Whether the challenge has expired by the wall clock: the answer of
    /// `is_expired_at` for the moment the clock showed.
    pub fn is_expired(&self) -> (expired: bool)
        ensures
            exists|now: i64| expired == #[trigger] self.expired_at(now),
    {
        let now: i64 = now_millis();
        self.is_expired_at(now)
    }

    /// The milliseconds from `now` to the expiration.
    pub fn time_until_expiration_at(&self, now: i64) -> (left: i64)
        ensures
            left == self.time_left_at(now),
    {
        let wide: i128 = (self.expiration_time as i128) - (now as i128);
        if wide > i64::MAX as i128 {
            i64::MAX
        } else if wide < i64::MIN as i128 {
            i64::MIN
        } else {
            wide as i64
        }
    }

    /// The milliseconds left by the wall clock until the expiration: the
    /// answer of `time_until_expiration_at` for the moment the clock showed.
    pub fn time_until_expiration(&self) -> (left: i64)
        ensures
            exists|now: i64| left == #[trigger] self.time_left_at(now),
    {
        let now: i64 = now_millis();
        self.time_until_expiration_at(now)
    }

    /// The transport text of the challenge.
    pub fn concat_struct(&self) -> (text: String)
        ensures
            text@ == challenge_text(self@),
    {
        proof {
            reveal_strlit("|");
        }
        assert("|"@ =~= seq!['|']);
        let mut text: String = self.random_nonce.clone();
        text.append("|");
        let created: String = i64_text(self.created_time);
        text.append(created.as_str());
        text.append("|");
        let expires: String = i64_text(self.expiration_time);
        text.append(expires.as_str());
        text.append("|");
        text.append(self.website_id.as_str());
        text.append("|");
        let param: String = hex_encode(self.challenge_param.as_slice());
        text.append(param.as_str());
        text.append("|");
        let key: String = hex_encode(self.public_key.as_slice());
        text.append(key.as_str());
        text.append("|");
        let signature: String = hex_encode(self.challenge_signature.as_slice());
        text.append(signature.as_str());
        text
    }

    /// Reads a challenge back from its transport text. The text must have
    /// seven fields; the timestamps must be 64-bit decimals; the threshold and
    /// the key must be hexadecimal for 32 bytes, the signature for 64.
    pub fn from_concat_struct(concat_str: &str) -> (decoded: Result<Self, FormatError>)
        ensures
            match decoded {
                Ok(challenge) => decode_text(concat_str@) == Ok::<ChallengeData, FormatError>(
                    challenge@,
                ),
                Err(error) => decode_text(concat_str@) == Err::<ChallengeData, FormatError>(error),
            },
    {
        let parts: Vec<&str> = split_fields(concat_str, '|');
        proof {
            assert(field_views(parts@).len() == parts@.len());
            assert forall|i: int| 0 <= i < parts@.len() implies parts@[i]@ == fields(
                concat_str@,
                '|',
            )[i] by {
                assert(field_views(parts@)[i] == parts@[i]@);
            }
        }
        if parts.len() != 7 {
            return Err(FormatError::FieldCount { found: parts.len() });
        }
        let random_nonce: String = parts[0].to_owned();
        let created_time: i64 = match parse_i64(parts[1]) {
            Some(v) => v,
            None => {
                return Err(FormatError::CreatedTime);
            },
        };
        let expiration_time: i64 = match parse_i64(parts[2]) {
            Some(v) => v,
            None => {
                return Err(FormatError::ExpirationTime);
            },
        };
        let website_id: String = parts[3].to_owned();
        let param_bytes: Vec<u8> = match hex_decode(parts[4]) {
            Ok(bytes) => bytes,
            Err(_) => {
                return Err(FormatError::ThresholdHex);
            },
        };
        let challenge_param: [u8; 32] = match to_array_32(&param_bytes) {
            Some(array) => array,
            None => {
                return Err(FormatError::ThresholdLength);
            },
        };
        let key_bytes: Vec<u8> = match hex_decode(parts[5]) {
            Ok(bytes) => bytes,
            Err(_) => {
                return Err(FormatError::PublicKeyHex);
            },
        };
        let public_key: [u8; 32] = match to_array_32(&key_bytes) {
            Some(array) => array,
            None => {
                return Err(FormatError::PublicKeyLength);
            },
        };
        let signature_bytes: Vec<u8> = match hex_decode(parts[6]) {
            Ok(bytes) => bytes,
            Err(_) => {
                return Err(FormatError::SignatureHex);
            },
        };
        let challenge_signature: [u8; 64] = match to_array_64(&signature_bytes) {
            Some(array) => array,
            None => {
                return Err(FormatError::SignatureLength);
            },
        };
        let challenge = Self {
            random_nonce,
            created_time,
            expiration_time,
            website_id,
            challenge_param,
            public_key,
            challenge_signature,
        };
        proof {
            assert(challenge@ == decode_text(concat_str@).unwrap());
        }
        Ok(challenge)
    }

    /// The bytes that the challenge's signature covers.
    pub fn signable_data(&self) -> (data: Vec<u8>)
        ensures
            data@ == signable_bytes(self@),
    {
        let mut data: Vec<u8> = Vec::new();
        extend_bytes(&mut data, self.random_nonce.as_str().as_bytes());
        let created = i64_to_be_bytes(self.created_time);
        extend_bytes(&mut data, created.as_slice());
        let expires = i64_to_be_bytes(self.expiration_time);
        extend_bytes(&mut data, expires.as_slice());
        extend_bytes(&mut data, self.challenge_param.as_slice());
        assert(data@ =~= signable_bytes(self@));
        data
    }
}

impl FormatError {
    /// The error in words.
    pub open spec fn text(self) -> Seq<char> {
        match self {
            FormatError::FieldCount { found } => "Expected 7 parts, got "@ + decimal_text(found as int),
            FormatError::CreatedTime => "Failed to parse created_time as i64"@,
            FormatError::ExpirationTime => "Failed to parse expiration_time as i64"@,
            FormatError::ThresholdHex => "Failed to decode challenge_params hex string"@,
            FormatError::ThresholdLength => "Challenge params must be exactly 32 bytes"@,
            FormatError::PublicKeyHex => "Failed to decode public_key hex string"@,
            FormatError::PublicKeyLength => "Public key must be exactly 32 bytes"@,
            FormatError::SignatureHex => "Failed to decode challenge_signature hex string"@,
            FormatError::SignatureLength => "Signature must be exactly 64 bytes"@,
        }
    }

    /// The error in words.
    pub fn message(&self) -> (text: String)
        ensures
            text@ == self.text(),
    {
        match self {
            FormatError::FieldCount { found } => {
                let mut text: String = "Expected 7 parts, got ".to_owned();
                let count: String = u64_text(*found as u64);
                text.append(count.as_str());
                text
            },
            FormatError::CreatedTime => "Failed to parse created_time as i64".to_owned(),
            FormatError::ExpirationTime => "Failed to parse expiration_time as i64".to_owned(),
            FormatError::ThresholdHex => "Failed to decode challenge_params hex string".to_owned(),
            FormatError::ThresholdLength => "Challenge params must be exactly 32 bytes".to_owned(),
            FormatError::PublicKeyHex => "Failed to decode public_key hex string".to_owned(),
            FormatError::PublicKeyLength => "Public key must be exactly 32 bytes".to_owned(),
            FormatError::SignatureHex => "Failed to decode challenge_signature hex string".to_owned(),
            FormatError::SignatureLength => "Signature must be exactly 64 bytes".to_owned(),
        }
    }
}

/// Whether a challenge can travel as text: neither of its two free-text
/// fields holds the separator, and its byte fields have their lengths.
pub open spec fn transportable(c: ChallengeData) -> bool {
    &&& !c.random_nonce.contains('|')
    &&& !c.website_id.contains('|')
    &&& c.challenge_param.len() == 32
    &&& c.public_key.len() == 32
    &&& c.challenge_signature.len() == 64
}

/// Decoding the transport text of a challenge gives the challenge back,
/// field for field, provided neither `random_nonce` nor `website_id` holds a
/// `|` (such a challenge's text has more than seven fields).
pub proof fn lemma_transport_round_trip(c: ChallengeData)
    requires
        transportable(c),
    ensures
        decode_text(challenge_text(c)) == Ok::<ChallengeData, FormatError>(c),
{
    let sep = seq!['|'];
    let f0 = c.random_nonce;
    let f1 = decimal_text(c.created_time as int);
    let f2 = decimal_text(c.expiration_time as int);
    let f3 = c.website_id;
    let f4 = hex_text(c.challenge_param);
    let f5 = hex_text(c.public_key);
    let f6 = hex_text(c.challenge_signature);
    lemma_decimal_text_avoids(c.created_time as int, '|');
    lemma_decimal_text_avoids(c.expiration_time as int, '|');
    lemma_hex_text_avoids(c.challenge_param, '|');
    lemma_hex_text_avoids(c.public_key, '|');
    lemma_hex_text_avoids(c.challenge_signature, '|');
    let t6 = f6;
    let t5 = f5 + sep + t6;
    let t4 = f4 + sep + t5;
    let t3 = f3 + sep + t4;
    let t2 = f2 + sep + t3;
    let t1 = f1 + sep + t2;
    let t0 = f0 + sep + t1;
    assert(challenge_text(c) =~= t0);
    lemma_fields_single(t6, '|');
    lemma_fields_cons(f5, '|', t6);
    lemma_fields_cons(f4, '|', t5);
    lemma_fields_cons(f3, '|', t4);
    lemma_fields_cons(f2, '|', t3);
    lemma_fields_cons(f1, '|', t2);
    lemma_fields_cons(f0, '|', t1);
    let parts = fields(t0, '|');
    assert(parts =~= seq![f0, f1, f2, f3, f4, f5, f6]);
    lemma_decimal_round_trip(c.created_time as int, i64::MIN as int, i64::MAX as int);
    lemma_decimal_round_trip(c.expiration_time as int, i64::MIN as int, i64::MAX as int);
    lemma_hex_round_trip(c.challenge_param);
    lemma_hex_round_trip(c.public_key);
    lemma_hex_round_trip(c.challenge_signature);
    let d = decode_text(t0);
    assert(d.is_ok());
    assert(d.unwrap().random_nonce == c.random_nonce);
    assert(d.unwrap().challenge_param == c.challenge_param);
    assert(d.unwrap() == c);
}

/// A challenge made more than its lifetime ago has expired, and the time
/// left to it is negative.
pub proof fn lemma_old_challenge_has_expired(challenge: IronShieldChallenge, now: i64)
    requires
        challenge.well_formed(),
        now - challenge.created_time > 30_000,
    ensures
        challenge.expired_at(now),
        challenge.time_left_at(now) < 0,
{
}

/// `v` held to the range of `i64`.
pub open spec fn clamp_i64(v: int) -> int {
    if v > i64::MAX {
        i64::MAX as int
    } else if v < i64::MIN {
        i64::MIN as int
    } else {
        v
    }
}

} // verus!
