use ironshield::challenge::IronShieldChallenge;
use ironshield::difficulty::{
    bit_count, bot_score_to_difficulty, checked_bot_score_to_difficulty, difficulty_to_threshold,
};

fn threshold_with(lead: usize, mask: u8) -> [u8; 32] {
    let mut arr = [0u8; 32];
    arr[lead] = mask;
    for i in (lead + 1)..32 {
        arr[i] = 0xFF;
    }
    arr
}

#[test]
fn test_bot_score_to_difficulty() {
    assert_eq!(bot_score_to_difficulty(99, 10_000, 1040), 10_000);
    assert_eq!(bot_score_to_difficulty(0, 10_000, 1040), 10_203_040);
    assert_eq!(bot_score_to_difficulty(1, 10_000, 1040), 9_998_160);
}

#[test]
fn checked_score_matches_unchecked_in_range() {
    assert_eq!(checked_bot_score_to_difficulty(99, 10_000, 1040), Some(10_000));
    assert_eq!(checked_bot_score_to_difficulty(0, 10_000, 1040), Some(10_203_040));
    assert_eq!(checked_bot_score_to_difficulty(1, 10_000, 1040), Some(9_998_160));
    assert_eq!(checked_bot_score_to_difficulty(50, 0, 1), Some(49 * 49));
}

#[test]
fn checked_score_rejects_out_of_range() {
    assert_eq!(checked_bot_score_to_difficulty(100, 10_000, 1040), None);
    assert_eq!(checked_bot_score_to_difficulty(u64::MAX, 0, 0), None);
}

#[test]
fn checked_score_rejects_overflow() {
    assert_eq!(checked_bot_score_to_difficulty(0, 0, u64::MAX), None);
    assert_eq!(checked_bot_score_to_difficulty(98, u64::MAX, 1), None);
    assert_eq!(checked_bot_score_to_difficulty(99, u64::MAX, u64::MAX), Some(u64::MAX));
}

#[test]
fn score_difficulty_is_monotone() {
    let mut previous = bot_score_to_difficulty(0, 10_000, 1040);
    for score in 1..=99u64 {
        let next = bot_score_to_difficulty(score, 10_000, 1040);
        assert!(next <= previous);
        previous = next;
    }
    assert_eq!(previous, 10_000);
}

#[test]
fn challenge_test_difficulty_to_challenge_param() {
    // Difficulty 1: every byte set.
    let challenge_param: [u8; 32] = IronShieldChallenge::difficulty_to_challenge_param(1);
    assert_eq!(challenge_param, [0xFF; 32]);

    // Difficulty 2 has two binary digits: the leading bit is bit 254, which
    // is the second bit of the first byte.
    let challenge_param: [u8; 32] = IronShieldChallenge::difficulty_to_challenge_param(2);
    let expected: [u8; 32] = {
        let mut arr: [u8; 32] = [0u8; 32];
        arr[0] = 0x40;
        for i in 1..32 {
            arr[i] = 0xFF;
        }
        arr
    };
    assert_eq!(challenge_param, expected);

    // Difficulty 256 has nine binary digits: the leading bit is bit 247, the
    // top bit of the second byte.
    let challenge_param = IronShieldChallenge::difficulty_to_challenge_param(256);
    let expected = {
        let mut arr = [0u8; 32];
        arr[1] = 0x80;
        for i in 2..32 {
            arr[i] = 0xFF;
        }
        arr
    };
    assert_eq!(challenge_param, expected);
}

#[test]
fn threshold_of_one_is_all_ones() {
    assert_eq!(difficulty_to_threshold(1), [0xFF; 32]);
}

#[test]
fn threshold_exact_values() {
    assert_eq!(difficulty_to_threshold(2), threshold_with(0, 0x40));
    assert_eq!(difficulty_to_threshold(3), threshold_with(0, 0x40));
    assert_eq!(difficulty_to_threshold(4), threshold_with(0, 0x20));
    assert_eq!(difficulty_to_threshold(255), threshold_with(0, 0x01));
    assert_eq!(difficulty_to_threshold(256), threshold_with(1, 0x80));
    assert_eq!(difficulty_to_threshold(1024), threshold_with(1, 0x20));
    assert_eq!(difficulty_to_threshold(10_000), threshold_with(1, 0x04));
    assert_eq!(difficulty_to_threshold(1 << 63), threshold_with(7, 0x01));
}

#[test]
fn threshold_of_largest_difficulty_is_not_zero() {
    // 64 binary digits put the leading bit at position 192: the lowest bit of
    // the eighth byte. A 64-bit difficulty never reaches the all-zero
    // threshold.
    let param = difficulty_to_threshold(u64::MAX);
    assert_eq!(param, threshold_with(7, 0x01));
    assert_ne!(param, [0u8; 32]);
}

#[test]
fn threshold_practical_values_are_neither_extreme() {
    for difficulty in [256u64, 1000, 1024, 10_000] {
        let param = IronShieldChallenge::difficulty_to_challenge_param(difficulty);
        assert_ne!(param, [0; 32]);
        assert_ne!(param, [0xFF; 32]);
    }
    assert_eq!(
        IronShieldChallenge::difficulty_to_challenge_param(1000),
        IronShieldChallenge::difficulty_to_challenge_param(1000)
    );
}

#[test]
fn threshold_never_rises_with_difficulty() {
    let mut previous = difficulty_to_threshold(1);
    let mut difficulty: u64 = 2;
    while difficulty < (1 << 40) {
        let next = difficulty_to_threshold(difficulty);
        assert!(next <= previous);
        previous = next;
        difficulty = difficulty * 3 / 2 + 1;
    }
}

#[test]
fn bit_count_values() {
    assert_eq!(bit_count(0), 0);
    assert_eq!(bit_count(1), 1);
    assert_eq!(bit_count(2), 2);
    assert_eq!(bit_count(255), 8);
    assert_eq!(bit_count(256), 9);
    assert_eq!(bit_count(u64::MAX), 64);
}

#[test]
fn challenge_test_recommended_attempts() {
    assert_eq!(IronShieldChallenge::recommended_attempts(1000), 3000);
    assert_eq!(IronShieldChallenge::recommended_attempts(50000), 150000);
    assert_eq!(IronShieldChallenge::recommended_attempts(0), 0);

    // Test overflow protection
    assert_eq!(IronShieldChallenge::recommended_attempts(u64::MAX), u64::MAX);
}

#[test]
fn lib_test_recommended_attempts() {
    assert_eq!(IronShieldChallenge::recommended_attempts(1000), 3000);
    assert_eq!(IronShieldChallenge::recommended_attempts(50000), 150000);
    assert_eq!(IronShieldChallenge::recommended_attempts(0), 0);

    // Test overflow protection
    assert_eq!(IronShieldChallenge::recommended_attempts(u64::MAX), u64::MAX);
}

#[test]
fn recommended_attempts_saturates_at_the_boundary() {
    let last_exact = u64::MAX / 3;
    assert_eq!(IronShieldChallenge::recommended_attempts(last_exact), last_exact * 3);
    assert_eq!(IronShieldChallenge::recommended_attempts(last_exact + 1), u64::MAX);
    for d in [0u64, 1, 7, 1 << 40, u64::MAX / 3, u64::MAX / 2, u64::MAX] {
        assert_eq!(IronShieldChallenge::recommended_attempts(d), d.saturating_mul(3));
    }
}
