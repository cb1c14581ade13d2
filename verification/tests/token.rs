use ironshield::challenge::IronShieldChallenge;
use ironshield::issuer::{
    is_fresh_at, issue_challenge, issue_challenge_at, issue_challenge_from, redeem_response_at,
    same_signature,
    verify_challenge_signature, verify_response_at, Decision, Submission,
};
use ironshield::response::IronShieldChallengeResponse;
use ironshield::solver::find_solution_single_threaded;
use ironshield::token::{
    issue_token, issue_token_at, issue_token_checked_at, verify_token, verify_token_at, IronShieldToken,
    TokenFormatError,
};

fn secret() -> [u8; 32] {
    let bytes = hex::decode("9d61b19deffd5a60ba844af492ec2cc44449c5697b326919703bac031cae7f60").unwrap();
    let mut key = [0u8; 32];
    key.copy_from_slice(&bytes);
    key
}

fn public() -> [u8; 32] {
    let bytes = hex::decode("d75a980182b10ab7d54bfed3c964073a0ee172f3daa62325af021a68f707511a").unwrap();
    let mut key = [0u8; 32];
    key.copy_from_slice(&bytes);
    key
}

#[test]
fn token_new_keeps_its_parts() {
    let token = IronShieldToken::new([1; 64], 77, [2; 32], [3; 64]);
    assert_eq!(token.challenge_signature, [1; 64]);
    assert_eq!(token.valid_for, 77);
    assert_eq!(token.public_key, [2; 32]);
    assert_eq!(token.authentication_signature, [3; 64]);
}

#[test]
fn token_text_exact() {
    let token = IronShieldToken::new([0xAB; 64], 1_700_000_000_000, [0xCD; 32], [0xEF; 64]);
    assert_eq!(
        token.concat_struct(),
        format!("{}|1700000000000|{}|{}", "ab".repeat(64), "cd".repeat(32), "ef".repeat(64))
    );
}

#[test]
fn token_signable_data_layout() {
    let token = IronShieldToken::new([0x11; 64], 0x0102030405060708, [0; 32], [0; 64]);
    let mut expected = vec![0x11u8; 64];
    expected.extend_from_slice(&[1, 2, 3, 4, 5, 6, 7, 8]);
    assert_eq!(token.signable_data(), expected);
}

#[test]
fn issued_token_exact_values() {
    let token = issue_token_at([0x11; 64], 1_700_000_000_000, 60_000, &secret());
    assert_eq!(token.challenge_signature, [0x11; 64]);
    assert_eq!(token.valid_for, 1_700_000_060_000);
    assert_eq!(token.public_key, public());
    assert_eq!(
        hex::encode(token.authentication_signature),
        "ff83f80e66100bb46c551b91d0d8b0f50598da109e7a03bb79114b454ab83b666ca0127f9ecf9e833720d0ed11b6c76e705b2742776eefb4bbb41ddc1dc6e10c"
    );
}

#[test]
fn issued_token_is_valid_until_its_deadline() {
    let token = issue_token_at([0x11; 64], 1_000, 500, &secret());
    assert!(verify_token_at(&token, 1_000));
    assert!(verify_token_at(&token, 1_499));
    assert!(verify_token_at(&token, 1_500));
    assert!(!verify_token_at(&token, 1_501));
    assert!(verify_token_at(&token, -1_000_000));
    assert!(!token.is_expired_at(1_500));
    assert!(token.is_expired_at(1_501));
}

#[test]
fn expired_token_is_rejected_with_a_correct_signature() {
    let now = chrono::Utc::now().timestamp_millis();
    let token = issue_token_at([0x11; 64], now - 120_000, 60_000, &secret());
    assert!(verify_token_at(&token, now - 60_000));
    assert!(!verify_token(&token));
    assert!(token.is_expired());
}

#[test]
fn tampered_deadline_is_rejected_whatever_the_time() {
    let now = chrono::Utc::now().timestamp_millis();
    let mut token = issue_token_at([0x11; 64], now, 60_000, &secret());
    assert!(verify_token(&token));
    assert!(!token.is_expired());
    token.valid_for += 3_600_000;
    assert!(!verify_token(&token));
    assert!(!verify_token_at(&token, now));
    assert!(!verify_token_at(&token, 0));
    assert!(!token.is_expired());
}

#[test]
fn tampered_token_fields_are_rejected() {
    let token = issue_token_at([0x11; 64], 1_000, 500, &secret());
    let mut other = token.clone();
    other.challenge_signature[0] ^= 1;
    assert!(!verify_token_at(&other, 1_000));
    let mut other = token.clone();
    other.authentication_signature[10] ^= 1;
    assert!(!verify_token_at(&other, 1_000));
    let mut other = token.clone();
    other.public_key = [0x02; 32];
    assert!(!verify_token_at(&other, 1_000));
    let mut other = token.clone();
    other.public_key = issue_token_at([0x11; 64], 1_000, 500, &[7u8; 32]).public_key;
    assert!(!verify_token_at(&other, 1_000));
}

#[test]
fn issue_token_by_the_clock() {
    let before = chrono::Utc::now().timestamp_millis();
    let token = issue_token([0x22; 64], 900_000, &secret()).unwrap();
    let after = chrono::Utc::now().timestamp_millis();
    assert!(before + 900_000 <= token.valid_for && token.valid_for <= after + 900_000);
    assert_eq!(token.public_key, public());
    assert!(verify_token(&token));
    assert!(issue_token([0x22; 64], i64::MAX, &secret()).is_none());
    let past = issue_token([0x22; 64], -1, &secret()).unwrap();
    assert!(!verify_token(&past));
}

#[test]
fn issued_challenge_exact_values() {
    let challenge = issue_challenge_from(
        &[0xde, 0xad, 0xbe, 0xef],
        1_000_000,
        "test_website".to_string(),
        [0xFF; 32],
        &secret(),
    );
    assert_eq!(challenge.random_nonce, "deadbeef");
    assert_eq!(challenge.created_time, 1_000_000);
    assert_eq!(challenge.expiration_time, 1_030_000);
    assert_eq!(challenge.website_id, "test_website");
    assert_eq!(challenge.challenge_param, [0xFF; 32]);
    assert_eq!(challenge.public_key, public());
    assert_eq!(
        hex::encode(challenge.challenge_signature),
        "eb4c26fc9dbcd0706805bfafdead70620e903f77ca0b9324f5a2e74fae7eb1665ceef163a1ed41df0794cfdb85ebd7e08543f222a2897c4bbad02cda3a537d03"
    );
    assert!(verify_challenge_signature(&challenge));
}

#[test]
fn challenge_signature_covers_the_signable_fields_only() {
    let challenge =
        issue_challenge_from(&[1, 2, 3], 1_000_000, "test_website".to_string(), [0x40; 32], &secret());
    let mut other = challenge.clone();
    other.website_id = "elsewhere".to_string();
    assert!(verify_challenge_signature(&other));
    let mut other = challenge.clone();
    other.challenge_param = [0xFF; 32];
    assert!(!verify_challenge_signature(&other));
    let mut other = challenge.clone();
    other.expiration_time += 1;
    assert!(!verify_challenge_signature(&other));
    let mut other = challenge.clone();
    other.random_nonce = "010204".to_string();
    assert!(!verify_challenge_signature(&other));
    let mut other = challenge.clone();
    other.challenge_signature[63] ^= 0x80;
    assert!(!verify_challenge_signature(&other));
}

#[test]
fn issue_challenge_by_the_clock() {
    let before = chrono::Utc::now().timestamp_millis();
    let a = issue_challenge("site".to_string(), [0xFF; 32], &secret()).unwrap();
    let b = issue_challenge("site".to_string(), [0xFF; 32], &secret()).unwrap();
    let after = chrono::Utc::now().timestamp_millis();
    assert_eq!(a.random_nonce.len(), 32);
    assert!(a.random_nonce.chars().all(|c| c.is_ascii_hexdigit() && !c.is_ascii_uppercase()));
    assert_ne!(a.random_nonce, b.random_nonce);
    assert!(before <= a.created_time && a.created_time <= after);
    assert_eq!(a.expiration_time, a.created_time + 30_000);
    assert_eq!(a.website_id, "site");
    assert_eq!(a.public_key, public());
    assert!(verify_challenge_signature(&a));
    assert!(verify_challenge_signature(&b));
    assert!(!a.is_expired());
}

#[test]
fn freshness_bounds_the_past_only() {
    assert!(is_fresh_at(1_000_000, 1_000_000));
    assert!(is_fresh_at(1_000_000, 1_060_000));
    assert!(!is_fresh_at(1_000_000, 1_060_001));
    // A timestamp from the future is accepted, however far ahead it lies.
    assert!(is_fresh_at(1_000_000, 0));
    assert!(is_fresh_at(i64::MAX, 0));
    assert!(is_fresh_at(i64::MAX, i64::MIN));
    assert!(!is_fresh_at(i64::MIN, i64::MAX));
    assert!(!is_fresh_at(i64::MIN, 0));
}

#[test]
fn same_signature_values() {
    assert!(same_signature(&[5; 64], &[5; 64]));
    let mut other = [5u8; 64];
    other[63] = 6;
    assert!(!same_signature(&[5; 64], &other));
    other[63] = 5;
    other[0] = 4;
    assert!(!same_signature(&[5; 64], &other));
}

#[test]
fn end_to_end_issue_solve_redeem() {
    let mut threshold = [0xFFu8; 32];
    threshold[0] = 0x04;
    let challenge =
        issue_challenge_from(&[0xca, 0xfe, 0x12, 0x34], 1_000_000, "site".to_string(), threshold, &secret());
    let response = find_solution_single_threaded(&challenge).unwrap();
    assert!(verify_response_at(&challenge, &response, 1_000_500));
    assert!(verify_response_at(&challenge, &response, 1_060_000));
    // Stale.
    assert!(!verify_response_at(&challenge, &response, 1_060_001));
    // From the future: accepted, since only staleness is bounded.
    assert!(verify_response_at(&challenge, &response, 5));
    // Wrong nonce.
    let wrong = IronShieldChallengeResponse::new(response.challenge_signature, response.solution + 1_000_000);
    assert!(!verify_response_at(&challenge, &wrong, 1_000_500));
    // An answer to another challenge.
    let alien = IronShieldChallengeResponse::new([0x01; 64], response.solution);
    assert!(!verify_response_at(&challenge, &alien, 1_000_500));
    // A challenge that the issuer did not sign.
    let mut forged: IronShieldChallenge = challenge.clone();
    forged.challenge_param = [0xFF; 32];
    assert!(!verify_response_at(&forged, &response, 1_000_500));

    let token = redeem_response_at(&challenge, &response, 1_000_500, 900_000, &secret()).unwrap();
    assert_eq!(token.challenge_signature, challenge.challenge_signature);
    assert_eq!(token.valid_for, 1_900_500);
    assert!(verify_token_at(&token, 1_900_500));
    assert!(!verify_token_at(&token, 1_900_501));
    assert!(redeem_response_at(&challenge, &wrong, 1_000_500, 900_000, &secret()).is_none());
    assert!(redeem_response_at(&challenge, &response, 1_060_001, 900_000, &secret()).is_none());
}

#[test]
fn submission_decisions() {
    let now = 1_700_000_000_000i64;
    let none = Submission { challenge: None, nonce: None, timestamp: None, difficulty: None };
    assert!(!none.has_proof_of_work_headers());
    assert_eq!(none.decide_at(now), Decision::IssueChallenge);
    assert!(!none.verify_at(now));

    let partial =
        Submission { challenge: Some("test_challenge"), nonce: Some("153"), timestamp: None, difficulty: Some("2") };
    assert!(!partial.has_proof_of_work_headers());
    assert_eq!(partial.decide_at(now), Decision::IssueChallenge);
    assert!(!partial.verify_at(now));

    let good = Submission {
        challenge: Some("test_challenge"),
        nonce: Some("153"),
        timestamp: Some("1699999990000"),
        difficulty: Some("2"),
    };
    assert!(good.has_proof_of_work_headers());
    assert!(good.verify_at(now));
    assert_eq!(good.decide_at(now), Decision::Accept);
    // Exactly sixty seconds old is still fresh; one millisecond more is not.
    assert_eq!(good.decide_at(1_699_999_990_000 + 60_000), Decision::Accept);
    assert_eq!(good.decide_at(1_699_999_990_000 + 60_001), Decision::Reject);
    // A timestamp ahead of the clock is not refused.
    assert_eq!(good.decide_at(0), Decision::Accept);
}

#[test]
fn submission_rejections() {
    let now = 1_700_000_000_000i64;
    let base = Submission {
        challenge: Some("test_challenge"),
        nonce: Some("153"),
        timestamp: Some("1699999990000"),
        difficulty: Some("2"),
    };
    let wrong_nonce = Submission { nonce: Some("154"), ..base };
    assert_eq!(wrong_nonce.decide_at(now), Decision::Reject);
    let base = Submission {
        challenge: Some("test_challenge"),
        nonce: Some("153"),
        timestamp: Some("1699999990000"),
        difficulty: Some("2"),
    };
    let bad_nonce = Submission { nonce: Some("0x99"), ..base };
    assert_eq!(bad_nonce.decide_at(now), Decision::Reject);
    let base = Submission {
        challenge: Some("test_challenge"),
        nonce: Some("153"),
        timestamp: Some("1699999990000"),
        difficulty: Some("2"),
    };
    let bad_time = Submission { timestamp: Some("yesterday"), ..base };
    assert_eq!(bad_time.decide_at(now), Decision::Reject);
    let base = Submission {
        challenge: Some("test_challenge"),
        nonce: Some("153"),
        timestamp: Some("1699999990000"),
        difficulty: Some("2"),
    };
    let bad_difficulty = Submission { difficulty: Some("-1"), ..base };
    assert_eq!(bad_difficulty.decide_at(now), Decision::Reject);
    let base = Submission {
        challenge: Some("test_challenge"),
        nonce: Some("153"),
        timestamp: Some("1699999990000"),
        difficulty: Some("2"),
    };
    let harder = Submission { difficulty: Some("3"), ..base };
    assert_eq!(harder.decide_at(now), Decision::Reject);
    let base = Submission {
        challenge: Some("test_challenge"),
        nonce: Some("153"),
        timestamp: Some("1699999990000"),
        difficulty: Some("2"),
    };
    let other = Submission { challenge: Some("another"), ..base };
    assert_eq!(other.decide_at(now), Decision::Reject);
}

#[test]
fn token_text_round_trip() {
    let token = issue_token_at([0x11; 64], 1_700_000_000_000, 60_000, &secret());
    let back = IronShieldToken::from_concat_struct(&token.concat_struct()).unwrap();
    assert_eq!(back.challenge_signature, token.challenge_signature);
    assert_eq!(back.valid_for, token.valid_for);
    assert_eq!(back.public_key, token.public_key);
    assert_eq!(back.authentication_signature, token.authentication_signature);
    assert!(verify_token_at(&back, 1_700_000_000_000));
    let negative = IronShieldToken::new([0; 64], i64::MIN, [0xFF; 32], [0x80; 64]);
    let back = IronShieldToken::from_concat_struct(&negative.concat_struct()).unwrap();
    assert_eq!(back.valid_for, i64::MIN);
    assert_eq!(back.public_key, [0xFF; 32]);
    assert_eq!(back.authentication_signature, [0x80; 64]);
}

#[test]
fn token_text_errors() {
    let s = "ab".repeat(64);
    let k = "cd".repeat(32);
    let cases = [
        ("".to_string(), TokenFormatError::FieldCount { found: 1 }, "Expected 4 parts, got 1"),
        (format!("{s}|1|{k}|{s}|"), TokenFormatError::FieldCount { found: 5 }, "Expected 4 parts, got 5"),
        (format!("xy|1|{k}|{s}"), TokenFormatError::ChallengeSignatureHex, "Failed to decode challenge_signature hex string"),
        (format!("{k}|1|{k}|{s}"), TokenFormatError::ChallengeSignatureLength, "Challenge signature must be exactly 64 bytes"),
        (format!("{s}|1.5|{k}|{s}"), TokenFormatError::ValidFor, "Failed to parse valid_for as i64"),
        (format!("{s}|1|{k}0|{s}"), TokenFormatError::PublicKeyHex, "Failed to decode public_key hex string"),
        (format!("{s}|1|{s}|{s}"), TokenFormatError::PublicKeyLength, "Public key must be exactly 32 bytes"),
        (format!("{s}|1|{k}|{s}g0"), TokenFormatError::AuthenticationSignatureHex, "Failed to decode authentication_signature hex string"),
        (format!("{s}|1|{k}|"), TokenFormatError::AuthenticationSignatureLength, "Authentication signature must be exactly 64 bytes"),
    ];
    for (text, expected, message) in cases {
        let error = IronShieldToken::from_concat_struct(&text).unwrap_err();
        assert_eq!(error, expected);
        assert_eq!(error.message(), message);
    }
}

#[test]
fn issue_challenge_at_any_moment() {
    let seed = [0xde, 0xad, 0xbe, 0xef];
    let made = issue_challenge_at(&seed, 1_000_000, "test_website".to_string(), [0xFF; 32], &secret()).unwrap();
    let direct = issue_challenge_from(&seed, 1_000_000, "test_website".to_string(), [0xFF; 32], &secret());
    assert_eq!(made.random_nonce, "deadbeef");
    assert_eq!(made.created_time, 1_000_000);
    assert_eq!(made.expiration_time, 1_030_000);
    assert_eq!(made.website_id, "test_website");
    assert_eq!(made.challenge_param, [0xFF; 32]);
    assert_eq!(made.public_key, public());
    assert_eq!(made.challenge_signature, direct.challenge_signature);
    assert!(verify_challenge_signature(&made));

    // The last moment whose expiration still fits, and the first that does not.
    let last = issue_challenge_at(&seed, i64::MAX - 30_000, "w".to_string(), [0x01; 32], &secret()).unwrap();
    assert_eq!(last.expiration_time, i64::MAX);
    assert!(verify_challenge_signature(&last));
    assert!(issue_challenge_at(&seed, i64::MAX - 29_999, "w".to_string(), [0x01; 32], &secret()).is_none());
    assert!(issue_challenge_at(&seed, i64::MAX, "w".to_string(), [0x01; 32], &secret()).is_none());
    let early = issue_challenge_at(&[], i64::MIN, "".to_string(), [0x00; 32], &secret()).unwrap();
    assert_eq!(early.random_nonce, "");
    assert_eq!(early.expiration_time, i64::MIN + 30_000);
}

#[test]
fn issue_token_checked_at_any_moment_and_window() {
    let made = issue_token_checked_at([0x11; 64], 1_700_000_000_000, 60_000, &secret()).unwrap();
    let direct = issue_token_at([0x11; 64], 1_700_000_000_000, 60_000, &secret());
    assert_eq!(made.challenge_signature, [0x11; 64]);
    assert_eq!(made.valid_for, 1_700_000_060_000);
    assert_eq!(made.public_key, public());
    assert_eq!(made.authentication_signature, direct.authentication_signature);
    assert!(verify_token_at(&made, 1_700_000_060_000));
    assert!(!verify_token_at(&made, 1_700_000_060_001));

    // The last deadline that fits, on either side, and the first that does not.
    let last = issue_token_checked_at([0x11; 64], i64::MAX - 5, 5, &secret()).unwrap();
    assert_eq!(last.valid_for, i64::MAX);
    assert!(issue_token_checked_at([0x11; 64], i64::MAX - 5, 6, &secret()).is_none());
    assert!(issue_token_checked_at([0x11; 64], i64::MAX, i64::MAX, &secret()).is_none());
    let first = issue_token_checked_at([0x11; 64], i64::MIN + 5, -5, &secret()).unwrap();
    assert_eq!(first.valid_for, i64::MIN);
    assert!(issue_token_checked_at([0x11; 64], i64::MIN + 5, -6, &secret()).is_none());
    // A window that reaches back is no error: the token is made, and is past.
    let past = issue_token_checked_at([0x11; 64], 1_000, -1, &secret()).unwrap();
    assert_eq!(past.valid_for, 999);
    assert!(!verify_token_at(&past, 1_000));
    assert!(issue_token_checked_at([0x11; 64], i64::MAX, 0, &secret()).is_some());
    assert!(issue_token_checked_at([0x11; 64], i64::MAX, i64::MIN, &secret()).is_some());
}

#[test]
fn changed_deadline_changes_signed_bytes_and_text() {
    let token = issue_token_at([0x11; 64], 1_000, 500, &secret());
    for deadline in [1_499i64, 1_501, 0, -1, i64::MAX, i64::MIN, 1_500 + 256, 1_500 + (1 << 32)] {
        let mut other = token.clone();
        other.valid_for = deadline;
        assert_ne!(other.signable_data(), token.signable_data());
        assert_ne!(other.concat_struct(), token.concat_struct());
        assert!(!verify_token_at(&other, 0));
        assert!(!verify_token_at(&other, deadline));
    }
}

#[test]
fn zero_threshold_accepts_no_answer() {
    let challenge =
        issue_challenge_from(&[0xca, 0xfe, 0x12, 0x34], 1_000_000, "site".to_string(), [0x00; 32], &secret());
    for solution in [0i64, 1, 2, 316, -1, i64::MAX] {
        let response = IronShieldChallengeResponse::new(challenge.challenge_signature, solution);
        assert!(!verify_response_at(&challenge, &response, 1_000_500));
        assert!(redeem_response_at(&challenge, &response, 1_000_500, 900_000, &secret()).is_none());
    }
}
