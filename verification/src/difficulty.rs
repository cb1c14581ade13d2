//! Difficulty calibration: from a human-likelihood score to an expected
//! number of attempts, and from there to a 256-bit acceptance threshold.

use crate::bytes::{be_value, lemma_be_value_bound, lemma_be_value_front, lemma_be_value_skips_zeros, pow256};
use vstd::arithmetic::power2::{lemma2_to64, lemma_pow2_adds, lemma_pow2_unfold, pow2};
use vstd::prelude::*;

verus! {

/// The highest score the bot-detection signal hands out ("surely human").
pub const MAX_BOT_SCORE: u64 = 99;

/// The difficulty that belongs to a score: the distance from the human end
/// of the scale, squared, times the scaling factor, on top of the base.
pub open spec fn score_difficulty(bot_score: u64, base_difficulty: u64, scaling_factor: u64) -> int {
    (99 - bot_score) * (99 - bot_score) * scaling_factor + base_difficulty
}

/// Whether `score_difficulty` is defined for the score and fits a `u64`.
pub open spec fn score_difficulty_fits(bot_score: u64, base_difficulty: u64, scaling_factor: u64) -> bool {
    bot_score <= 99 && score_difficulty(bot_score, base_difficulty, scaling_factor) <= u64::MAX
}

/// Maps a score to a difficulty, or to `None` where the score lies above
/// `MAX_BOT_SCORE` or the difficulty would not fit 64 bits. This is the form
/// for callers that hold a score from outside.
pub fn checked_bot_score_to_difficulty(
    bot_score: u64,
    base_difficulty: u64,
    scaling_factor: u64,
) -> (difficulty: Option<u64>)
    ensures
        score_difficulty_fits(bot_score, base_difficulty, scaling_factor) ==> difficulty == Some(
            score_difficulty(bot_score, base_difficulty, scaling_factor) as u64,
        ),
        !score_difficulty_fits(bot_score, base_difficulty, scaling_factor) ==> difficulty.is_none(),
{
    if bot_score > MAX_BOT_SCORE {
        return None;
    }
    let inverted: u64 = MAX_BOT_SCORE - bot_score;
    assert(inverted * inverted <= 99 * 99) by (nonlinear_arith)
        requires
            inverted <= 99,
    ;
    let squared: u64 = inverted * inverted;
    match squared.checked_mul(scaling_factor) {
        None => None,
        Some(scaled) => scaled.checked_add(base_difficulty),
    }
}

/// Maps a score between 0 (surely a bot) and `MAX_BOT_SCORE` (surely human) to
/// a difficulty. The curve is quadratic, so that traffic near the bot end pays
/// far more than traffic near the human end.
pub fn bot_score_to_difficulty(bot_score: u64, base_difficulty: u64, scaling_factor: u64) -> (difficulty: u64)
    requires
        score_difficulty_fits(bot_score, base_difficulty, scaling_factor),
    ensures
        difficulty == score_difficulty(bot_score, base_difficulty, scaling_factor),
{
    let inverted_score: u64 = MAX_BOT_SCORE - bot_score;
    assert(inverted_score * inverted_score <= 99 * 99) by (nonlinear_arith)
        requires
            inverted_score <= 99,
    ;
    assert(inverted_score * inverted_score * scaling_factor >= 0) by (nonlinear_arith)
        requires
            inverted_score >= 0,
            scaling_factor >= 0,
    ;
    (inverted_score * inverted_score) * scaling_factor + base_difficulty
}

/// The difficulty never falls below the base, and equals it at the human end.
pub proof fn lemma_score_difficulty_floor(bot_score: u64, base_difficulty: u64, scaling_factor: u64)
    requires
        bot_score <= 99,
    ensures
        score_difficulty(bot_score, base_difficulty, scaling_factor) >= base_difficulty,
        score_difficulty(99, base_difficulty, scaling_factor) == base_difficulty,
{
    let inv = 99 - bot_score;
    assert(inv * inv * scaling_factor >= 0) by (nonlinear_arith)
        requires
            inv >= 0,
            scaling_factor >= 0,
    ;
    let zero = 99 - 99u64;
    assert(zero * zero * scaling_factor == 0) by (nonlinear_arith)
        requires
            zero == 0,
    ;
}

/// A lower score (more bot-like) never gets a lower difficulty.
pub proof fn lemma_score_difficulty_monotone(low: u64, high: u64, base_difficulty: u64, scaling_factor: u64)
    requires
        low <= high <= 99,
    ensures
        score_difficulty(low, base_difficulty, scaling_factor) >= score_difficulty(
            high,
            base_difficulty,
            scaling_factor,
        ),
{
    let a = 99 - low;
    let b = 99 - high;
    assert(a * a * scaling_factor >= b * b * scaling_factor) by (nonlinear_arith)
        requires
            a >= b >= 0,
            scaling_factor >= 0,
    ;
}

/// The number of binary digits of `d`: 0 for 0, and otherwise the `b` with
/// `2^(b-1) <= d < 2^b`.
pub open spec fn bit_length(d: u64) -> nat
    decreases d,
{
    if d == 0 {
        0
    } else {
        1 + bit_length(d / 2)
    }
}

/// The position of the threshold's leading one-bit, bit 255 being the most
/// significant of the 256: one position lower for each binary digit of `d`.
pub open spec fn leading_bit(d: u64) -> int {
    256 - bit_length(d)
}

/// The index, in big-endian order, of the byte that holds bit `pos`.
pub open spec fn byte_of_bit(pos: int) -> int {
    (255 - pos) / 8
}

/// Byte `i` of the threshold for a difficulty of two or more: zero before
/// the byte of the leading bit, that bit alone in its byte, `0xFF` after it.
pub open spec fn threshold_byte(d: u64, i: int) -> u8 {
    let pos = leading_bit(d);
    if i < byte_of_bit(pos) {
        0u8
    } else if i == byte_of_bit(pos) {
        pow2((pos % 8) as nat) as u8
    } else {
        0xFFu8
    }
}

/// The 256-bit threshold, big-endian, that a difficulty stands for. A hash
/// below it is accepted. Difficulty 1 accepts all but the last hash. For `d`
/// of `b` binary digits the threshold lies between `2^(256-b)` and
/// `2^(257-b)`, so a uniform hash passes with a probability within a factor
/// of two of `1/d`; it is a coarse stand-in for `2^256 / d`, not the quotient.
pub open spec fn difficulty_threshold(d: u64) -> Seq<u8> {
    if d == 1 {
        Seq::new(32, |i: int| 0xFFu8)
    } else {
        Seq::new(32, |i: int| threshold_byte(d, i))
    }
}

/// A 64-bit number has at most 64 binary digits, and a positive one has one.
pub proof fn lemma_bit_length_bounds(d: u64)
    ensures
        bit_length(d) <= 64,
        d > 0 ==> bit_length(d) >= 1,
        d > 1 ==> bit_length(d) >= 2,
{
    lemma_bit_length_pow2(d);
    lemma2_to64();
    if bit_length(d) > 64 {
        lemma_pow2_monotone(64, (bit_length(d) - 1) as nat);
    }
    if d > 1 {
        assert(bit_length(d) == 1 + bit_length(d / 2));
        assert(d / 2 > 0);
    }
}

/// `bit_length(d)` is the `b` with `2^(b-1) <= d < 2^b`.
pub proof fn lemma_bit_length_pow2(d: u64)
    ensures
        d < pow2(bit_length(d)),
        d > 0 ==> pow2((bit_length(d) - 1) as nat) <= d,
    decreases d,
{
    lemma2_to64();
    if d > 0 {
        lemma_bit_length_pow2(d / 2);
        let b = bit_length(d / 2);
        vstd::arithmetic::power2::lemma_pow2_unfold(bit_length(d));
        if d / 2 > 0 {
            vstd::arithmetic::power2::lemma_pow2_unfold(b);
        }
    }
}

proof fn lemma_pow2_monotone(a: nat, b: nat)
    requires
        a <= b,
    ensures
        pow2(a) <= pow2(b),
    decreases b - a,
{
    if a < b {
        lemma_pow2_monotone(a, (b - 1) as nat);
        vstd::arithmetic::power2::lemma_pow2_unfold(b);
    }
}

/// More digits never come with a smaller number.
pub proof fn lemma_bit_length_monotone(a: u64, b: u64)
    requires
        a <= b,
    ensures
        bit_length(a) <= bit_length(b),
    decreases b,
{
    if a > 0 {
        lemma_bit_length_monotone(a / 2, b / 2);
    }
}

/// Counts the binary digits of `d`.
pub fn bit_count(d: u64) -> (bits: usize)
    ensures
        bits == bit_length(d),
        bits <= 64,
{
    proof {
        lemma_bit_length_bounds(d);
    }
    let mut rest: u64 = d;
    let mut bits: usize = 0;
    while rest > 0
        invariant
            bits + bit_length(rest) == bit_length(d),
            bit_length(d) <= 64,
        decreases rest,
    {
        rest = rest / 2;
        bits = bits + 1;
    }
    bits
}

/// The byte with bit `bit` alone set.
pub fn single_bit(bit: usize) -> (mask: u8)
    requires
        bit < 8,
    ensures
        mask == pow2(bit as nat),
{
    proof {
        lemma2_to64();
    }
    if bit == 0 {
        1
    } else if bit == 1 {
        2
    } else if bit == 2 {
        4
    } else if bit == 3 {
        8
    } else if bit == 4 {
        16
    } else if bit == 5 {
        32
    } else if bit == 6 {
        64
    } else {
        128
    }
}

/// Converts a difficulty (an expected number of attempts, at least 1) into
/// the threshold that a solution's hash must stay below.
pub fn difficulty_to_threshold(difficulty: u64) -> (threshold: [u8; 32])
    requires
        difficulty > 0,
    ensures
        threshold@ == difficulty_threshold(difficulty),
{
    if difficulty == 1 {
        let easy: [u8; 32] = [0xFFu8; 32];
        assert(easy@ =~= difficulty_threshold(difficulty));
        return easy;
    }
    proof {
        lemma_bit_length_bounds(difficulty);
    }
    let bits: usize = bit_count(difficulty);
    let pos: usize = 256 - bits;
    let lead: usize = (255 - pos) / 8;
    let mut threshold: [u8; 32] = [0u8; 32];
    threshold[lead] = single_bit(pos % 8);
    let mut i: usize = lead + 1;
    while i < 32
        invariant
            lead < i <= 32,
            pos == leading_bit(difficulty),
            lead == byte_of_bit(pos as int),
            forall|j: int| 0 <= j < i ==> threshold@[j] == threshold_byte(difficulty, j),
            forall|j: int| i <= j < 32 ==> threshold@[j] == 0u8,
        decreases 32 - i,
    {
        threshold[i] = 0xFF;
        i = i + 1;
    }
    assert(threshold@ =~= difficulty_threshold(difficulty));
    threshold
}

/// `256^n` is `2^(8n)`.
pub proof fn lemma_pow256_is_pow2(n: nat)
    ensures
        pow256(n) == pow2(8 * n),
    decreases n,
{
    lemma2_to64();
    if n > 0 {
        lemma_pow256_is_pow2((n - 1) as nat);
        lemma_pow2_adds(8, (8 * (n - 1)) as nat);
    }
}

/// The size of a threshold: for a difficulty `d >= 2` of `b` binary digits
/// the threshold, read as a number, is at least `2^(256-b)` and below
/// `2^(257-b)`. With `2^(b-1) <= d < 2^b` this puts the share of hashes that
/// pass within a factor of two of `1/d`.
pub proof fn lemma_threshold_size(d: u64)
    requires
        d >= 2,
    ensures
        pow2((256 - bit_length(d)) as nat) <= be_value(difficulty_threshold(d)),
        be_value(difficulty_threshold(d)) < pow2((257 - bit_length(d)) as nat),
{
    lemma_bit_length_bounds(d);
    lemma2_to64();
    let t = difficulty_threshold(d);
    let pos = leading_bit(d);
    let lead = byte_of_bit(pos);
    let q = pos / 8;
    let r = pos % 8;
    assert(lead == 31 - q);
    lemma_be_value_skips_zeros(t, lead);
    let tail = t.skip(lead);
    assert(tail.len() == q + 1);
    assert(tail[0] == t[lead]);
    lemma_be_value_front(tail);
    lemma_be_value_bound(tail.skip(1));
    let p = pow256(q as nat);
    lemma_pow256_is_pow2(q as nat);
    lemma_pow2_adds(r as nat, (8 * q) as nat);
    assert(pow2(pos as nat) == pow2(r as nat) * p);
    let mask = pow2(r as nat);
    assert(mask <= 128) by {
        assert(r == 0 || r == 1 || r == 2 || r == 3 || r == 4 || r == 5 || r == 6 || r == 7);
    }
    assert(tail[0] as nat == mask);
    let low = be_value(tail.skip(1));
    assert(be_value(t) == mask * p + low);
    lemma_pow2_unfold((pos + 1) as nat);
    assert(pow2((pos + 1) as nat) == 2 * (mask * p));
    assert(mask * p + low < 2 * (mask * p)) by (nonlinear_arith)
        requires
            low < p,
            mask >= 1,
            p >= 0,
    ;
    assert(mask >= 1) by {
        assert(r == 0 || r == 1 || r == 2 || r == 3 || r == 4 || r == 5 || r == 6 || r == 7);
    }
}

/// A higher difficulty never has a higher threshold: asking for more work
/// never admits more hashes.
pub proof fn lemma_threshold_monotone(low: u64, high: u64)
    requires
        1 <= low <= high,
    ensures
        be_value(difficulty_threshold(low)) >= be_value(difficulty_threshold(high)),
{
    lemma_bit_length_bounds(low);
    lemma_bit_length_bounds(high);
    lemma_bit_length_monotone(low, high);
    lemma2_to64();
    let bl = bit_length(low);
    let bh = bit_length(high);
    if high == 1 {
    } else if low == 1 {
        lemma_threshold_size(high);
        let t = difficulty_threshold(low);
        lemma_be_value_front(t);
        let p = pow256(31);
        lemma_pow256_is_pow2(31);
        lemma_pow2_adds(7, 248);
        assert(pow2(255) == 128 * p);
        lemma_pow2_monotone((257 - bh) as nat, 255);
        assert(t[0] == 0xFFu8);
        assert(255 * p >= 128 * p) by (nonlinear_arith)
            requires
                p >= 0,
        ;
    } else if bl == bh {
        assert(difficulty_threshold(low) =~= difficulty_threshold(high));
    } else {
        lemma_threshold_size(low);
        lemma_threshold_size(high);
        lemma_pow2_monotone((257 - bh) as nat, (256 - bl) as nat);
    }
}

/// How many attempts to plan for: three times the expected number, capped at
/// the largest 64-bit value.
pub open spec fn planned_attempts(difficulty: u64) -> int {
    if difficulty * 3 <= u64::MAX {
        difficulty * 3
    } else {
        u64::MAX as int
    }
}

/// No difficulty has the all-zero threshold: at 64 bits the leading bit
/// never falls off the low end, so every threshold admits some hash.
pub proof fn lemma_threshold_not_zero(d: u64)
    requires
        d > 0,
    ensures
        difficulty_threshold(d) != Seq::new(32, |i: int| 0u8),
{
    lemma_bit_length_bounds(d);
    lemma2_to64();
    let zero = Seq::new(32, |i: int| 0u8);
    if d == 1 {
        assert(difficulty_threshold(d)[0] != zero[0]);
    } else {
        let pos = leading_bit(d);
        let lead = byte_of_bit(pos);
        assert(0 <= lead < 32);
        assert(difficulty_threshold(d)[lead] == pow2((pos % 8) as nat) as u8);
        let bit = pos % 8;
        assert(pow2(bit as nat) as u8 != 0u8) by {
            lemma2_to64();
            assert(bit == 0 || bit == 1 || bit == 2 || bit == 3 || bit == 4 || bit == 5 || bit == 6
                || bit == 7);
        }
        assert(difficulty_threshold(d)[lead] != zero[lead]);
    }
}

} // verus!
