use ironshield::bytes::{bytes_less, i64_to_be_bytes, i64_to_le_bytes};
use ironshield::challenge::{FormatError, IronShieldChallenge};
use ironshield::response::IronShieldChallengeResponse;
use ironshield::text::split_fields;
use ironshield::transport::{
    checked_base64url_encode, concat_struct_base64url_decode, concat_struct_base64url_encode, TransportError,
};

fn sample() -> IronShieldChallenge {
    IronShieldChallenge::new(
        "deadbeef".to_string(),
        1000000,
        "test_website".to_string(),
        [0x12; 32],
        [0x34; 32],
        [0x56; 64],
    )
}

fn sample_text() -> String {
    format!(
        "deadbeef|1000000|1030000|test_website|{}|{}|{}",
        "12".repeat(32),
        "34".repeat(32),
        "56".repeat(64)
    )
}

#[test]
fn test_ironshield_challenge_creation() {
    let challenge = IronShieldChallenge::new(
        "deadbeef".to_string(),
        1000000,
        "test_website".to_string(),
        [0xFF; 32], // Very high threshold - should be easy to find solution
        [0x00; 32],
        [0x00; 64],
    );

    assert_eq!(challenge.random_nonce, "deadbeef");
    assert_eq!(challenge.created_time, 1000000);
    assert_eq!(challenge.expiration_time, 1030000); // +30 seconds
    assert_eq!(challenge.website_id, "test_website");
    assert_eq!(challenge.challenge_param, [0xFF; 32]);
}

#[test]
fn test_ironshield_challenge_expiration() {
    let past_time = chrono::Utc::now().timestamp_millis() - 60000; // 1 minute ago
    let challenge: IronShieldChallenge = IronShieldChallenge::new(
        "deadbeef".to_string(),
        past_time,
        "test_website".to_string(),
        [0xFF; 32],
        [0x00; 32],
        [0x00; 64],
    );

    assert!(challenge.is_expired(), "Challenge created in the past should be expired");
    assert!(challenge.time_until_expiration() < 0, "Time until expiration should be negative");
}

#[test]
fn fresh_challenge_is_not_expired() {
    let now = chrono::Utc::now().timestamp_millis();
    let challenge = IronShieldChallenge::new(
        "deadbeef".to_string(),
        now,
        "test_website".to_string(),
        [0xFF; 32],
        [0x00; 32],
        [0x00; 64],
    );
    assert!(!challenge.is_expired());
    let left = challenge.time_until_expiration();
    assert!(left > 0 && left <= 30_000);
}

#[test]
fn expiration_at_given_moments() {
    let challenge = sample();
    assert!(!challenge.is_expired_at(1_029_999));
    assert!(!challenge.is_expired_at(1_030_000));
    assert!(challenge.is_expired_at(1_030_001));
    assert_eq!(challenge.time_until_expiration_at(1_000_000), 30_000);
    assert_eq!(challenge.time_until_expiration_at(1_030_000), 0);
    assert_eq!(challenge.time_until_expiration_at(1_030_001), -1);
    assert_eq!(challenge.time_until_expiration_at(1_060_000), -30_000);
}

#[test]
fn time_until_expiration_saturates() {
    let mut challenge = sample();
    challenge.expiration_time = i64::MAX;
    assert_eq!(challenge.time_until_expiration_at(-1), i64::MAX);
    assert_eq!(challenge.time_until_expiration_at(0), i64::MAX);
    challenge.expiration_time = i64::MIN;
    assert_eq!(challenge.time_until_expiration_at(1), i64::MIN);
    assert_eq!(challenge.time_until_expiration_at(0), i64::MIN);
}

#[test]
fn signable_data_layout() {
    let challenge = IronShieldChallenge::new(
        "deadbeef".to_string(),
        1000000,
        "test_website".to_string(),
        [0xFF; 32],
        [0x00; 32],
        [0x00; 64],
    );
    let expected = hex::decode(
        "646561646265656600000000000f424000000000000fb770ffffffffffffffffffffffffffffffffffffffffffffffffffffffffffffffff",
    )
    .unwrap();
    assert_eq!(challenge.signable_data(), expected);
}

#[test]
fn signable_data_leaves_out_site_key_and_signature() {
    let a = sample();
    let mut b = sample();
    b.website_id = "another_site".to_string();
    b.public_key = [0x99; 32];
    b.challenge_signature = [0x77; 64];
    assert_eq!(a.signable_data(), b.signable_data());
    let mut c = sample();
    c.challenge_param = [0x13; 32];
    assert_ne!(a.signable_data(), c.signable_data());
}

#[test]
fn integer_bytes_exact() {
    assert_eq!(i64_to_le_bytes(12345), 12345i64.to_le_bytes());
    assert_eq!(i64_to_be_bytes(12345), 12345i64.to_be_bytes());
    assert_eq!(i64_to_be_bytes(-2), [0xff, 0xff, 0xff, 0xff, 0xff, 0xff, 0xff, 0xfe]);
    assert_eq!(i64_to_le_bytes(-2), [0xfe, 0xff, 0xff, 0xff, 0xff, 0xff, 0xff, 0xff]);
    for v in [0i64, 1, -1, i64::MAX, i64::MIN, 0x0102030405060708] {
        assert_eq!(i64_to_le_bytes(v), v.to_le_bytes());
        assert_eq!(i64_to_be_bytes(v), v.to_be_bytes());
    }
}

#[test]
fn bytes_less_is_strict_big_endian_order() {
    let zero = [0u8; 32];
    let mut one = [0u8; 32];
    one[31] = 1;
    let mut high = [0u8; 32];
    high[0] = 1;
    assert!(bytes_less(&zero, &one));
    assert!(!bytes_less(&one, &zero));
    assert!(!bytes_less(&one, &one));
    assert!(bytes_less(&one, &high));
    assert!(!bytes_less(&high, &one));
    assert!(!bytes_less(&zero, &zero));
    assert!(bytes_less(&high, &[0xFF; 32]));
}

#[test]
fn concat_struct_exact_text() {
    assert_eq!(sample().concat_struct(), sample_text());
}

#[test]
fn concat_struct_negative_times() {
    let mut challenge = sample();
    challenge.created_time = -5;
    challenge.expiration_time = i64::MIN;
    let text = challenge.concat_struct();
    assert!(text.starts_with("deadbeef|-5|-9223372036854775808|test_website|"));
    let back = IronShieldChallenge::from_concat_struct(&text).unwrap();
    assert_eq!(back.created_time, -5);
    assert_eq!(back.expiration_time, i64::MIN);
}

#[test]
fn from_concat_struct_round_trip() {
    let challenge = sample();
    let back = IronShieldChallenge::from_concat_struct(&challenge.concat_struct()).unwrap();
    assert_eq!(back.random_nonce, challenge.random_nonce);
    assert_eq!(back.created_time, challenge.created_time);
    assert_eq!(back.expiration_time, challenge.expiration_time);
    assert_eq!(back.website_id, challenge.website_id);
    assert_eq!(back.challenge_param, challenge.challenge_param);
    assert_eq!(back.public_key, challenge.public_key);
    assert_eq!(back.challenge_signature, challenge.challenge_signature);
}

#[test]
fn from_concat_struct_round_trip_with_odd_fields() {
    let challenge = IronShieldChallenge::new(
        "".to_string(),
        i64::MAX - 30_000,
        "site with spaces, colons: and \u{e9}\u{4e16}".to_string(),
        [0x00; 32],
        [0xFF; 32],
        [0xAB; 64],
    );
    let back = IronShieldChallenge::from_concat_struct(&challenge.concat_struct()).unwrap();
    assert_eq!(back.random_nonce, "");
    assert_eq!(back.created_time, i64::MAX - 30_000);
    assert_eq!(back.expiration_time, i64::MAX);
    assert_eq!(back.website_id, challenge.website_id);
    assert_eq!(back.challenge_param, [0x00; 32]);
    assert_eq!(back.public_key, [0xFF; 32]);
    assert_eq!(back.challenge_signature, [0xAB; 64]);
}

#[test]
fn from_concat_struct_accepts_upper_case_hex_and_plus_sign() {
    let text = format!(
        "seed|+7|007|site|{}|{}|{}",
        "AB".repeat(32),
        "cD".repeat(32),
        "Ef".repeat(64)
    );
    let back = IronShieldChallenge::from_concat_struct(&text).unwrap();
    assert_eq!(back.created_time, 7);
    assert_eq!(back.expiration_time, 7);
    assert_eq!(back.challenge_param, [0xAB; 32]);
    assert_eq!(back.public_key, [0xCD; 32]);
    assert_eq!(back.challenge_signature, [0xEF; 64]);
}

#[test]
fn a_separator_inside_a_field_breaks_the_round_trip() {
    let mut challenge = sample();
    challenge.website_id = "a|b".to_string();
    assert_eq!(
        IronShieldChallenge::from_concat_struct(&challenge.concat_struct()).unwrap_err(),
        FormatError::FieldCount { found: 8 }
    );
}

#[test]
fn from_concat_struct_field_count() {
    assert_eq!(
        IronShieldChallenge::from_concat_struct("").unwrap_err(),
        FormatError::FieldCount { found: 1 }
    );
    assert_eq!(
        IronShieldChallenge::from_concat_struct("a|b|c").unwrap_err(),
        FormatError::FieldCount { found: 3 }
    );
    assert_eq!(
        IronShieldChallenge::from_concat_struct(&format!("{}|", sample_text())).unwrap_err(),
        FormatError::FieldCount { found: 8 }
    );
    assert_eq!(
        IronShieldChallenge::from_concat_struct("a|b|c").unwrap_err().message(),
        "Expected 7 parts, got 3"
    );
}

#[test]
fn from_concat_struct_bad_times() {
    let p = "12".repeat(32);
    let s = "56".repeat(64);
    let text = format!("seed|x|2|site|{p}|{p}|{s}");
    assert_eq!(IronShieldChallenge::from_concat_struct(&text).unwrap_err(), FormatError::CreatedTime);
    let text = format!("seed||2|site|{p}|{p}|{s}");
    assert_eq!(IronShieldChallenge::from_concat_struct(&text).unwrap_err(), FormatError::CreatedTime);
    let text = format!("seed|9223372036854775808|2|site|{p}|{p}|{s}");
    assert_eq!(IronShieldChallenge::from_concat_struct(&text).unwrap_err(), FormatError::CreatedTime);
    let text = format!("seed|1| 2|site|{p}|{p}|{s}");
    assert_eq!(IronShieldChallenge::from_concat_struct(&text).unwrap_err(), FormatError::ExpirationTime);
    let text = format!("seed|1|-|site|{p}|{p}|{s}");
    let error = IronShieldChallenge::from_concat_struct(&text).unwrap_err();
    assert_eq!(error, FormatError::ExpirationTime);
    assert_eq!(error.message(), "Failed to parse expiration_time as i64");
    assert_eq!(FormatError::CreatedTime.message(), "Failed to parse created_time as i64");
}

#[test]
fn from_concat_struct_bad_bytes() {
    let p = "12".repeat(32);
    let s = "56".repeat(64);
    let cases = [
        (format!("seed|1|2|site|zz|{p}|{s}"), FormatError::ThresholdHex, "Failed to decode challenge_params hex string"),
        (format!("seed|1|2|site|123|{p}|{s}"), FormatError::ThresholdHex, "Failed to decode challenge_params hex string"),
        (format!("seed|1|2|site|1234|{p}|{s}"), FormatError::ThresholdLength, "Challenge params must be exactly 32 bytes"),
        (format!("seed|1|2|site||{p}|{s}"), FormatError::ThresholdLength, "Challenge params must be exactly 32 bytes"),
        (format!("seed|1|2|site|{p}|g0|{s}"), FormatError::PublicKeyHex, "Failed to decode public_key hex string"),
        (format!("seed|1|2|site|{p}|{p}00|{s}"), FormatError::PublicKeyLength, "Public key must be exactly 32 bytes"),
        (format!("seed|1|2|site|{p}|{p}|{s}\u{e9}"), FormatError::SignatureHex, "Failed to decode challenge_signature hex string"),
        (format!("seed|1|2|site|{p}|{p}|{p}"), FormatError::SignatureLength, "Signature must be exactly 64 bytes"),
    ];
    for (text, expected, message) in cases {
        let error = IronShieldChallenge::from_concat_struct(&text).unwrap_err();
        assert_eq!(error, expected);
        assert_eq!(error.message(), message);
    }
}

#[test]
fn first_failing_field_names_the_error() {
    let text = "seed|x|y|site|zz|zz|zz";
    assert_eq!(IronShieldChallenge::from_concat_struct(text).unwrap_err(), FormatError::CreatedTime);
    let text = "seed|1|y|site|zz|zz|zz";
    assert_eq!(IronShieldChallenge::from_concat_struct(text).unwrap_err(), FormatError::ExpirationTime);
}

#[test]
fn split_fields_values() {
    assert_eq!(split_fields("", '|'), vec![""]);
    assert_eq!(split_fields("abc", '|'), vec!["abc"]);
    assert_eq!(split_fields("a|b", '|'), vec!["a", "b"]);
    assert_eq!(split_fields("|", '|'), vec!["", ""]);
    assert_eq!(split_fields("a||b|", '|'), vec!["a", "", "b", ""]);
    assert_eq!(split_fields("\u{e9}|\u{4e16}\u{754c}", '|'), vec!["\u{e9}", "\u{4e16}\u{754c}"]);
    let text = "x;y|z;";
    let by_std: Vec<&str> = text.split(';').collect();
    assert_eq!(split_fields(text, ';'), by_std);
}

#[test]
fn response_new_and_text() {
    let response = IronShieldChallengeResponse::new([0xAB; 64], -42);
    assert_eq!(response.challenge_signature, [0xAB; 64]);
    assert_eq!(response.solution, -42);
    assert_eq!(response.concat_struct(), format!("{}|-42", "ab".repeat(64)));
    let response = IronShieldChallengeResponse::new([0x01; 64], 1234567);
    assert_eq!(response.concat_struct(), format!("{}|1234567", "01".repeat(64)));
}

#[test]
fn base64url_exact_values() {
    assert_eq!(concat_struct_base64url_encode("hello".to_string()), "aGVsbG8");
    assert_eq!(concat_struct_base64url_encode("a|1|2|b".to_string()), "YXwxfDJ8Yg");
    assert_eq!(concat_struct_base64url_encode("".to_string()), "");
    assert_eq!(concat_struct_base64url_decode("aGVsbG8".to_string()), Ok("hello".to_string()));
    assert_eq!(checked_base64url_encode("hello".to_string()), Some("aGVsbG8".to_string()));
}

#[test]
fn base64url_round_trip_of_a_challenge() {
    let challenge = sample();
    let wrapped = concat_struct_base64url_encode(challenge.concat_struct());
    assert!(!wrapped.contains('='));
    assert!(!wrapped.contains('+'));
    assert!(!wrapped.contains('/'));
    let text = concat_struct_base64url_decode(wrapped).unwrap();
    assert_eq!(text, sample_text());
    let back = IronShieldChallenge::from_concat_struct(&text).unwrap();
    assert_eq!(back.challenge_signature, [0x56; 64]);
}

#[test]
fn base64url_errors() {
    let error = concat_struct_base64url_decode("not base64!".to_string()).unwrap_err();
    assert_eq!(error, TransportError::Base64);
    assert_eq!(error.message(), "Base64 decode error");
    // Padding is refused.
    assert_eq!(
        concat_struct_base64url_decode("aGVsbG8=".to_string()).unwrap_err(),
        TransportError::Base64
    );
    // "-_8" spells the bytes fb ff, which are no UTF-8.
    let error = concat_struct_base64url_decode("-_8".to_string()).unwrap_err();
    assert_eq!(error, TransportError::Utf8);
    assert_eq!(error.message(), "UTF-8 conversion error");
}

#[test]
fn base64url_standard_vectors() {
    let vectors = [
        ("", ""),
        ("f", "Zg"),
        ("fo", "Zm8"),
        ("foo", "Zm9v"),
        ("foob", "Zm9vYg"),
        ("fooba", "Zm9vYmE"),
        ("foobar", "Zm9vYmFy"),
        ("\u{fb}\u{ff}", "w7vDvw"),
        ("???>>>", "Pz8_Pj4-"),
    ];
    for (plain, wrapped) in vectors {
        assert_eq!(concat_struct_base64url_encode(plain.to_string()), wrapped);
        assert_eq!(concat_struct_base64url_decode(wrapped.to_string()), Ok(plain.to_string()));
    }
}

#[test]
fn base64url_refuses_text_that_wraps_nothing() {
    // One character over a multiple of four spells no byte.
    assert_eq!(concat_struct_base64url_decode("Z".to_string()), Err(TransportError::Base64));
    assert_eq!(concat_struct_base64url_decode("Zm9vY".to_string()), Err(TransportError::Base64));
    // Stray bits in the last character.
    assert_eq!(concat_struct_base64url_decode("Zh".to_string()), Err(TransportError::Base64));
    assert_eq!(concat_struct_base64url_decode("Zm9".to_string()), Err(TransportError::Base64));
    // The standard alphabet's `+` and `/` are not in this one.
    assert_eq!(concat_struct_base64url_decode("Pz8/Pj4+".to_string()), Err(TransportError::Base64));
    assert_eq!(concat_struct_base64url_decode("Zm 9v".to_string()), Err(TransportError::Base64));
}

#[test]
fn different_numbers_have_different_bytes() {
    let values = [0i64, 1, -1, 255, 256, 1 << 32, (1 << 32) + 1, i64::MAX, i64::MIN, 1_500, 1_499];
    for a in values {
        for b in values {
            assert_eq!(i64_to_be_bytes(a) == i64_to_be_bytes(b), a == b);
            assert_eq!(i64_to_le_bytes(a) == i64_to_le_bytes(b), a == b);
        }
    }
}
