//! The older difficulty model: a hash in hexadecimal text must begin with a
//! given number of zeros.
//!
//! A count of `k` zeros asks for a hash below `16^(64-k)`, about `16^k`
//! attempts; it is a scale of its own and is not the difficulty that
//! `difficulty_to_threshold` takes. The threshold model is the one to use;
//! this module keeps older clients working.

use crate::bytes::{bytes_less, lemma_nothing_below_zero, lex_less};
use crate::digest::{sha256, sha256_digest};
use crate::hexcode::{hex_digit, hex_encode, hex_text};
use crate::solver::SolveError;
use crate::text::{decimal_text, parse_u64, parse_unsigned, u64_text};
use vstd::prelude::*;
use vstd::string::*;

verus! {

/// How many nonces the searches try before they give up.
pub const MAX_ATTEMPTS: u64 = 10_000_000;

/// How many starting nonces one unit of parallel work holds.
pub const CHUNK_SIZE: usize = 10_000;

/// The text that is hashed for a candidate: the challenge, a colon, and the
/// nonce in decimal.
pub open spec fn legacy_input(challenge: Seq<char>, nonce: u64) -> Seq<char> {
    challenge + seq![':'] + decimal_text(nonce as int)
}

/// The hash of a candidate: the SHA-256 digest of the input text's UTF-8
/// bytes, as 64 lower-case hexadecimal digits.
pub open spec fn legacy_hash(challenge: Seq<char>, nonce: u64) -> Seq<char> {
    hex_text(legacy_digest(challenge, nonce))
}

/// Whether `hash` begins with `count` zeros (it must be that long).
pub open spec fn has_zero_prefix(hash: Seq<char>, count: int) -> bool {
    &&& count <= hash.len()
    &&& forall|i: int| 0 <= i < count ==> hash[i] == '0'
}

/// Whether `nonce` satisfies the challenge at a difficulty: its hash begins
/// with that many zeros.
pub open spec fn legacy_solves(challenge: Seq<char>, nonce: u64, difficulty: usize) -> bool {
    has_zero_prefix(legacy_hash(challenge, nonce), difficulty as int)
}

/// The least nonce from `from` up to, not including, `ceiling` that
/// satisfies the challenge, if there is one.
pub open spec fn first_legacy_solution(
    challenge: Seq<char>,
    difficulty: usize,
    from: int,
    ceiling: int,
) -> Option<u64>
    decreases ceiling - from,
{
    if from >= ceiling || from < 0 || from > u64::MAX {
        None
    } else if legacy_solves(challenge, from as u64, difficulty) {
        Some(from as u64)
    } else {
        first_legacy_solution(challenge, difficulty, from + 1, ceiling)
    }
}

/// The digest of a candidate: SHA-256 over the UTF-8 bytes of the input
/// text.
pub open spec fn legacy_digest(challenge: Seq<char>, nonce: u64) -> Seq<u8> {
    sha256(vstd::utf8::encode_utf8(legacy_input(challenge, nonce)))
}

/// The digest of the challenge with a nonce: 32 bytes.
pub fn calculate_digest(challenge: &str, nonce: u64) -> (digest: [u8; 32])
    ensures
        digest@ == legacy_digest(challenge@, nonce),
        legacy_digest(challenge@, nonce).len() == 32,
{
    proof {
        reveal_strlit(":");
    }
    assert(":"@ =~= seq![':']);
    let mut input: String = challenge.to_owned();
    input.append(":");
    let digits: String = u64_text(nonce);
    input.append(digits.as_str());
    sha256_digest(input.as_str().as_bytes())
}

/// The hash of the challenge with a nonce, as hexadecimal text: 64 digits.
pub fn calculate_hash(challenge: &str, nonce: u64) -> (hash: String)
    ensures
        hash@ == legacy_hash(challenge@, nonce),
        hash@.len() == 64,
{
    let digest: [u8; 32] = calculate_digest(challenge, nonce);
    hex_encode(digest.as_slice())
}

/// Whether the hexadecimal text of `digest` begins with `count` zeros. The
/// text is never written: the digest is compared with the threshold that
/// stands for the count. The text has 64 digits, so no digest has more
/// zeros than that.
pub fn digest_has_zeros(digest: &[u8; 32], count: usize) -> (yes: bool)
    ensures
        yes == has_zero_prefix(hex_text(digest@), count as int),
        count > 64 ==> !yes,
{
    if count == 0 {
        return true;
    }
    proof {
        lemma_zero_prefix_is_threshold(digest@, count as int);
    }
    let threshold: [u8; 32] = zero_count_to_threshold(count);
    bytes_less(digest, &threshold)
}

/// Whether a search ended with the report that the attempt limit was
/// reached.
pub open spec fn hit_the_limit(outcome: Result<(u64, String), SolveError>) -> bool {
    match outcome {
        Err(SolveError::AttemptLimit) => true,
        _ => false,
    }
}

/// Searches the nonces `0, 1, 2, ..` below `ceiling` for the first whose
/// hash begins with `difficulty` zeros, and returns it with its hash. A hash
/// has 64 digits, so a search for more zeros than that finds nothing.
pub fn find_solution_below(challenge: &str, difficulty: usize, ceiling: u64) -> (outcome: Result<
    (u64, String),
    SolveError,
>)
    ensures
        match outcome {
            Ok(found) => {
                &&& first_legacy_solution(challenge@, difficulty, 0, ceiling as int) == Some(found.0)
                &&& found.1@ == legacy_hash(challenge@, found.0)
            },
            Err(SolveError::AttemptLimit) => first_legacy_solution(
                challenge@,
                difficulty,
                0,
                ceiling as int,
            ).is_none(),
            Err(_) => false,
        },
        outcome.is_ok() ==> outcome.unwrap().1@.len() == 64,
        difficulty > 64 ==> hit_the_limit(outcome),
{
    let mut nonce: u64 = 0;
    while nonce < ceiling
        invariant
            first_legacy_solution(challenge@, difficulty, 0, ceiling as int) == first_legacy_solution(
                challenge@,
                difficulty,
                nonce as int,
                ceiling as int,
            ),
        decreases ceiling - nonce,
    {
        let digest: [u8; 32] = calculate_digest(challenge, nonce);
        if digest_has_zeros(&digest, difficulty) {
            return Ok((nonce, hex_encode(digest.as_slice())));
        }
        nonce = nonce + 1;
    }
    Err(SolveError::AttemptLimit)
}

/// Searches the first `MAX_ATTEMPTS` nonces, one after the other, for one
/// whose hash begins with `difficulty` zeros.
pub fn find_solution(challenge: &str, difficulty: usize) -> (outcome: Result<(u64, String), SolveError>)
    ensures
        match outcome {
            Ok(found) => {
                &&& first_legacy_solution(challenge@, difficulty, 0, MAX_ATTEMPTS as int) == Some(
                    found.0,
                )
                &&& found.1@ == legacy_hash(challenge@, found.0)
            },
            Err(SolveError::AttemptLimit) => first_legacy_solution(
                challenge@,
                difficulty,
                0,
                MAX_ATTEMPTS as int,
            ).is_none(),
            Err(_) => false,
        },
        outcome.is_ok() ==> outcome.unwrap().1@.len() == 64,
        difficulty > 64 ==> hit_the_limit(outcome),
{
    find_solution_below(challenge, difficulty, MAX_ATTEMPTS)
}

/// Byte `j` of the threshold that stands for `count` leading zeros: the
/// number `16^(64 - count)` has one byte that is not zero, `0x10` or `0x01`
/// as `count` is odd or even, at index `(count - 1) / 2`. Beyond 64 zeros
/// there is no such hash, and the threshold is zero throughout.
pub open spec fn zero_prefix_threshold_byte(count: int, j: int) -> u8 {
    if count > 64 || j != (count - 1) / 2 {
        0u8
    } else if count % 2 == 1 {
        0x10u8
    } else {
        0x01u8
    }
}

/// The threshold that stands for `count >= 1` leading zeros: a 32-byte hash
/// is strictly below it exactly if its hexadecimal text begins with `count`
/// zeros (`lemma_zero_prefix_is_threshold`). No 32-byte threshold stands for
/// a count of 0, which every hash meets.
pub open spec fn zero_prefix_threshold(count: int) -> Seq<u8> {
    Seq::new(32, |j: int| zero_prefix_threshold_byte(count, j))
}

/// The threshold that stands for a count of leading zeros.
pub fn zero_count_to_threshold(count: usize) -> (threshold: [u8; 32])
    requires
        count >= 1,
    ensures
        threshold@ == zero_prefix_threshold(count as int),
{
    let mut threshold: [u8; 32] = [0u8; 32];
    if count <= 64 {
        let at: usize = (count - 1) / 2;
        if count % 2 == 1 {
            threshold[at] = 0x10;
        } else {
            threshold[at] = 0x01;
        }
    }
    assert(threshold@ =~= zero_prefix_threshold(count as int));
    threshold
}

/// Against a string whose only byte that is not zero sits at `p`: `a` comes
/// before it exactly if `a` is zero up to `p` and smaller at `p`.
pub proof fn lemma_below_single_byte(a: Seq<u8>, b: Seq<u8>, p: int)
    requires
        a.len() == b.len(),
        0 <= p < b.len(),
        forall|j: int| 0 <= j < b.len() && j != p ==> b[j] == 0u8,
    ensures
        lex_less(a, b) <==> ((forall|j: int| 0 <= j < p ==> a[j] == 0u8) && a[p] < b[p]),
    decreases a.len(),
{
    let ra = a.skip(1);
    let rb = b.skip(1);
    if p == 0 {
        assert forall|j: int| 0 <= j < rb.len() implies rb[j] == 0u8 by {
            assert(rb[j] == b[j + 1]);
        }
        lemma_nothing_below_zero(ra, rb);
    } else {
        assert forall|j: int| 0 <= j < rb.len() && j != p - 1 implies rb[j] == 0u8 by {
            assert(rb[j] == b[j + 1]);
        }
        lemma_below_single_byte(ra, rb, p - 1);
        assert(ra[p - 1] == a[p] && rb[p - 1] == b[p]);
        if a[0] == 0u8 {
            if forall|j: int| 0 <= j < p - 1 ==> ra[j] == 0u8 {
                assert forall|j: int| 0 <= j < p implies a[j] == 0u8 by {
                    if j > 0 {
                        assert(ra[j - 1] == a[j]);
                    }
                }
            }
            if forall|j: int| 0 <= j < p ==> a[j] == 0u8 {
                assert forall|j: int| 0 <= j < p - 1 implies ra[j] == 0u8 by {
                    assert(ra[j] == a[j + 1]);
                }
            }
        }
    }
}

/// The two difficulty models meet here: the hexadecimal text of a 32-byte
/// hash begins with `count >= 1` zeros exactly if the hash is strictly below
/// `zero_prefix_threshold(count)`, that is below `16^(64 - count)`. So a
/// count of zeros is a threshold of its own kind: it asks for about
/// `16^count` attempts, not for `count` attempts.
pub proof fn lemma_zero_prefix_is_threshold(hash: Seq<u8>, count: int)
    requires
        hash.len() == 32,
        count >= 1,
    ensures
        has_zero_prefix(hex_text(hash), count) <==> lex_less(hash, zero_prefix_threshold(count)),
{
    let text = hex_text(hash);
    let t = zero_prefix_threshold(count);
    if count > 64 {
        lemma_nothing_below_zero(hash, t);
    } else {
        let p = (count - 1) / 2;
        lemma_below_single_byte(hash, t, p);
        let bytes_zero = forall|j: int| 0 <= j < p ==> hash[j] == 0u8;
        if has_zero_prefix(text, count) {
            assert forall|j: int| 0 <= j < p implies hash[j] == 0u8 by {
                assert(text[2 * j] == '0' && text[2 * j + 1] == '0');
                lemma_zero_digit(hash[j] as int / 16);
                lemma_zero_digit(hash[j] as int % 16);
            }
            assert(text[2 * p] == '0');
            lemma_zero_digit(hash[p] as int / 16);
            if count % 2 == 0 {
                assert(text[2 * p + 1] == '0');
                lemma_zero_digit(hash[p] as int % 16);
            }
            assert(hash[p] < t[p]);
        }
        if bytes_zero && hash[p] < t[p] {
            assert forall|i: int| 0 <= i < count implies text[i] == '0' by {
                lemma_zero_digit(hash[i / 2] as int / 16);
                lemma_zero_digit(hash[i / 2] as int % 16);
            }
        }
    }
}

/// The digit `0` is written for the value 0 and for no other.
pub proof fn lemma_zero_digit(v: int)
    requires
        0 <= v < 16,
    ensures
        hex_digit(v) == '0' <==> v == 0,
{
}

/// A solution as it is handed to a script: the nonce as decimal text, which
/// a script can hold without loss, the hash, and the hash's first ten
/// characters for a quick look.
#[derive(Debug, Clone)]
pub struct SolutionResult {
    pub nonce: String,
    pub hash: String,
    pub hash_prefix: String,
}

/// The first ten characters of `hash`, or all of it where it is shorter.
pub open spec fn prefix_of(hash: Seq<char>) -> Seq<char> {
    if hash.len() >= 10 {
        hash.take(10)
    } else {
        hash
    }
}

impl SolutionResult {
    /// The result for a nonce and its hash.
    pub fn new(nonce: u64, hash: String) -> (result: Self)
        ensures
            result.nonce@ == decimal_text(nonce as int),
            result.hash@ == hash@,
            result.hash_prefix@ == prefix_of(hash@),
    {
        let length: usize = hash.as_str().unicode_len();
        let hash_prefix: String = if length >= 10 {
            let head: &str = hash.as_str().substring_char(0, 10);
            assert(head@ =~= hash@.take(10));
            head.to_owned()
        } else {
            hash.clone()
        };
        Self { nonce: u64_text(nonce), hash, hash_prefix }
    }
}

/// The nonce that `text` names: an unsigned 64-bit decimal.
pub open spec fn nonce_of(text: Seq<char>) -> Option<int> {
    parse_unsigned(text, u64::MAX as int)
}

/// Whether a claimed solution holds: `nonce_str` must be an unsigned 64-bit
/// decimal, and the hash of the challenge with that nonce must begin with
/// `difficulty` zeros. Text that is no such number is refused like a wrong
/// nonce.
pub fn verify_solution(challenge: &str, nonce_str: &str, difficulty: usize) -> (valid: bool)
    ensures
        valid == match nonce_of(nonce_str@) {
            Some(nonce) => legacy_solves(challenge@, nonce as u64, difficulty),
            None => false,
        },
        difficulty > 64 ==> !valid,
{
    match parse_u64(nonce_str) {
        Some(nonce) => {
            let digest: [u8; 32] = calculate_digest(challenge, nonce);
            digest_has_zeros(&digest, difficulty)
        },
        None => false,
    }
}

/// The nonce at offset `j` from the `i`-th starting nonce.
pub open spec fn slot(starts: Seq<u64>, i: int, j: int) -> int {
    starts[i] + j
}

/// Whether slot `(i, j)` exists: `i` indexes `starts`, `j` is below `width`.
pub open spec fn in_grid(starts: Seq<u64>, width: usize, i: int, j: int) -> bool {
    0 <= i < starts.len() && 0 <= j < width
}

/// Whether slot `(a, b)` is scanned before slot `(i, j)`: the starting
/// nonces are taken in order, and the offsets in order under each.
pub open spec fn scanned_before(a: int, b: int, i: int, j: int) -> bool {
    a < i || (a == i && b < j)
}

/// Whether the nonce in slot `(i, j)` satisfies the challenge.
pub open spec fn slot_solves(
    challenge: Seq<char>,
    difficulty: usize,
    starts: Seq<u64>,
    i: int,
    j: int,
) -> bool {
    legacy_solves(challenge, slot(starts, i, j) as u64, difficulty)
}

/// Whether slot `(i, j)` is the first in scanning order that satisfies the
/// challenge.
pub open spec fn first_hit(
    challenge: Seq<char>,
    difficulty: usize,
    starts: Seq<u64>,
    width: usize,
    i: int,
    j: int,
) -> bool {
    &&& in_grid(starts, width, i, j)
    &&& slot_solves(challenge, difficulty, starts, i, j)
    &&& forall|a: int, b: int|
        in_grid(starts, width, a, b) && scanned_before(a, b, i, j) ==> !#[trigger] slot_solves(
            challenge,
            difficulty,
            starts,
            a,
            b,
        )
}

/// Whether no slot satisfies the challenge.
pub open spec fn no_hit(challenge: Seq<char>, difficulty: usize, starts: Seq<u64>, width: usize) -> bool {
    forall|a: int, b: int|
        in_grid(starts, width, a, b) ==> !#[trigger] slot_solves(challenge, difficulty, starts, a, b)
}

/// Whether `found` is a satisfying nonce from some slot, with its hash of
/// 64 digits.
pub open spec fn is_hit(
    challenge: Seq<char>,
    difficulty: usize,
    starts: Seq<u64>,
    width: usize,
    found: (u64, String),
) -> bool {
    &&& exists|i: int, j: int|
        in_grid(starts, width, i, j) && found.0 == #[trigger] slot(starts, i, j)
    &&& legacy_solves(challenge, found.0, difficulty)
    &&& found.1@ == legacy_hash(challenge, found.0)
    &&& found.1@.len() == 64
}

/// Whether every slot's nonce fits 64 bits.
pub open spec fn grid_fits(starts: Seq<u64>, width: usize) -> bool {
    forall|i: int| 0 <= i < starts.len() ==> #[trigger] starts[i] + width <= u64::MAX
}

/// Scans the slots of `chunk` in order, each starting nonce with the offsets
/// below `width`, and returns the first nonce that satisfies the challenge,
/// with its hash.
pub fn scan_chunk(challenge: &str, difficulty: usize, chunk: &[u64], width: usize) -> (found: Option<
    (u64, String),
>)
    requires
        grid_fits(chunk@, width),
    ensures
        match found {
            Some(hit) => {
                &&& exists|i: int, j: int|
                    #[trigger] first_hit(challenge@, difficulty, chunk@, width, i, j) && hit.0 == slot(
                        chunk@,
                        i,
                        j,
                    )
                &&& hit.1@ == legacy_hash(challenge@, hit.0)
                &&& is_hit(challenge@, difficulty, chunk@, width, hit)
            },
            None => no_hit(challenge@, difficulty, chunk@, width),
        },
{
    let n: usize = chunk.len();
    let mut i: usize = 0;
    while i < n
        invariant
            i <= n,
            n == chunk@.len(),
            grid_fits(chunk@, width),
            forall|a: int, b: int|
                in_grid(chunk@, width, a, b) && a < i ==> !#[trigger] slot_solves(
                    challenge@,
                    difficulty,
                    chunk@,
                    a,
                    b,
                ),
        decreases n - i,
    {
        let start: u64 = chunk[i];
        assert(chunk@[i as int] + width <= u64::MAX);
        let mut j: usize = 0;
        while j < width
            invariant
                i < n,
                j <= width,
                n == chunk@.len(),
                start == chunk@[i as int],
                start + width <= u64::MAX,
                forall|a: int, b: int|
                    in_grid(chunk@, width, a, b) && scanned_before(a, b, i as int, j as int)
                        ==> !#[trigger] slot_solves(challenge@, difficulty, chunk@, a, b),
            decreases width - j,
        {
            let nonce: u64 = start + (j as u64);
            let digest: [u8; 32] = calculate_digest(challenge, nonce);
            if digest_has_zeros(&digest, difficulty) {
                let hash: String = hex_encode(digest.as_slice());
                assert(nonce == slot(chunk@, i as int, j as int));
                assert(slot_solves(challenge@, difficulty, chunk@, i as int, j as int));
                assert(first_hit(challenge@, difficulty, chunk@, width, i as int, j as int));
                assert(in_grid(chunk@, width, i as int, j as int));
                return Some((nonce, hash));
            }
            assert(!slot_solves(challenge@, difficulty, chunk@, i as int, j as int));
            j = j + 1;
        }
        i = i + 1;
    }
    None
}

/// `par_chunks` and `find_map_any` of `rayon`: `starts` is cut into pieces of
/// `chunk_size` starting nonces, `scan_chunk` runs on the pieces in parallel,
/// and the result of some piece that found a nonce comes back, or `None` if
/// no piece found one. Which piece wins where several find one is left to
/// the scheduler, so the contract says only what holds of each of them: it
/// is what `scan_chunk` is proved to return for its piece.
#[verifier::external_body]
fn scan_chunks_in_parallel(
    challenge: &str,
    difficulty: usize,
    starts: &[u64],
    chunk_size: usize,
    width: usize,
) -> (found: Option<(u64, String)>)
    requires
        chunk_size > 0,
        grid_fits(starts@, width),
    ensures
        match found {
            Some(hit) => is_hit(challenge@, difficulty, starts@, width, hit),
            None => no_hit(challenge@, difficulty, starts@, width),
        },
{
    rayon::iter::ParallelIterator::find_map_any(
        rayon::slice::ParallelSlice::par_chunks(starts, chunk_size),
        |chunk| scan_chunk(challenge, difficulty, chunk, width),
    )
}

/// The starting nonces `0, stride, 2 * stride, ..` below `ceiling`.
pub fn strided_starts(ceiling: u64, stride: usize) -> (starts: Vec<u64>)
    requires
        stride > 0,
        ceiling + stride <= u64::MAX,
    ensures
        forall|i: int| 0 <= i < starts@.len() ==> #[trigger] starts@[i] == i * stride,
        (starts@.len() - 1) * stride < ceiling <= starts@.len() * stride,
{
    let mut starts: Vec<u64> = Vec::new();
    let mut start: u64 = 0;
    assert(0 * stride == 0) by (nonlinear_arith);
    assert((0 - 1) * stride < 0) by (nonlinear_arith)
        requires
            stride > 0,
    ;
    while start < ceiling
        invariant
            stride > 0,
            ceiling + stride <= u64::MAX,
            start == starts@.len() * stride,
            forall|i: int| 0 <= i < starts@.len() ==> #[trigger] starts@[i] == i * stride,
            (starts@.len() - 1) * stride < ceiling,
        decreases ceiling + stride - start,
    {
        let ghost k = starts@.len() as int;
        assert((k + 1) * stride == k * stride + stride) by (nonlinear_arith);
        assert((k + 1 - 1) * stride == k * stride) by (nonlinear_arith);
        starts.push(start);
        start = start + (stride as u64);
    }
    starts
}

/// Searches the nonces below `ceiling` in parallel: the starting nonces `0,
/// num_threads, 2 * num_threads, ..` are handed out in pieces of
/// `chunk_size`, and under each starting nonce the `num_threads` nonces from
/// it on are tried. Any satisfying nonce may come back, not only the least.
pub fn find_solution_parallel_below(
    challenge: &str,
    difficulty: usize,
    num_threads: usize,
    ceiling: u64,
    chunk_size: usize,
) -> (outcome: Result<(u64, String), SolveError>)
    requires
        num_threads > 0,
        chunk_size > 0,
        ceiling + 2 * num_threads <= u64::MAX,
    ensures
        match outcome {
            Ok(found) => {
                &&& found.0 < ceiling + num_threads
                &&& legacy_solves(challenge@, found.0, difficulty)
                &&& found.1@ == legacy_hash(challenge@, found.0)
            },
            Err(SolveError::AttemptLimit) => forall|n: u64|
                n < ceiling ==> !legacy_solves(challenge@, n, difficulty),
            Err(_) => false,
        },
        outcome.is_ok() ==> outcome.unwrap().1@.len() == 64,
        difficulty > 64 ==> hit_the_limit(outcome),
{
    let starts: Vec<u64> = strided_starts(ceiling, num_threads);
    let ghost len = starts@.len() as int;
    proof {
        assert forall|i: int| 0 <= i < len implies #[trigger] starts@[i] + num_threads
            <= u64::MAX by {
            assert(starts@[i] == i * num_threads);
            assert(i * num_threads <= (len - 1) * num_threads) by (nonlinear_arith)
                requires
                    i <= len - 1,
                    num_threads > 0,
            ;
        }
    }
    match scan_chunks_in_parallel(challenge, difficulty, starts.as_slice(), chunk_size, num_threads) {
        Some(hit) => {
            proof {
                let (i, j) = choose|i: int, j: int|
                    in_grid(starts@, num_threads, i, j) && hit.0 == #[trigger] slot(starts@, i, j);
                assert(starts@[i] == i * num_threads);
                assert(i * num_threads <= (len - 1) * num_threads) by (nonlinear_arith)
                    requires
                        i <= len - 1,
                        num_threads > 0,
                ;
            }
            Ok(hit)
        },
        None => {
            proof {
                assert forall|n: u64| n < ceiling implies !legacy_solves(
                    challenge@,
                    n,
                    difficulty,
                ) by {
                    let t = num_threads as int;
                    let i = n as int / t;
                    let j = n as int % t;
                    vstd::arithmetic::div_mod::lemma_fundamental_div_mod(n as int, t);
                    assert(n == t * i + j);
                    assert(t * i == i * t) by (nonlinear_arith);
                    assert(i < len) by (nonlinear_arith)
                        requires
                            n == i * t + j,
                            0 <= j,
                            n < len * t,
                            t > 0,
                    ;
                    assert(0 <= i) by (nonlinear_arith)
                        requires
                            n == i * t + j,
                            j < t,
                            n >= 0,
                            t > 0,
                    ;
                    assert(in_grid(starts@, num_threads, i, j));
                    assert(starts@[i] == i * num_threads);
                    assert(slot(starts@, i, j) == n);
                    assert(!slot_solves(challenge@, difficulty, starts@, i, j));
                }
            }
            Err(SolveError::AttemptLimit)
        },
    }
}

/// Searches the first `MAX_ATTEMPTS` nonces in parallel, in strides of
/// `num_threads`, for one whose hash begins with `difficulty` zeros.
pub fn find_solution_parallel(challenge: &str, difficulty: usize, num_threads: usize) -> (outcome:
    Result<(u64, String), SolveError>)
    requires
        num_threads > 0,
    ensures
        match outcome {
            Ok(found) => {
                &&& found.0 < MAX_ATTEMPTS + num_threads
                &&& legacy_solves(challenge@, found.0, difficulty)
                &&& found.1@ == legacy_hash(challenge@, found.0)
            },
            Err(SolveError::AttemptLimit) => forall|n: u64|
                n < MAX_ATTEMPTS ==> !legacy_solves(challenge@, n, difficulty),
            Err(_) => false,
        },
        outcome.is_ok() ==> outcome.unwrap().1@.len() == 64,
        difficulty > 64 ==> hit_the_limit(outcome),
{
    if (num_threads as u64) > MAX_ATTEMPTS {
        let single: Vec<u64> = vec![0u64];
        assert(grid_fits(single@, num_threads));
        match scan_chunks_in_parallel(challenge, difficulty, single.as_slice(), CHUNK_SIZE, num_threads) {
            Some(hit) => {
                proof {
                    let (i, j) = choose|i: int, j: int|
                        in_grid(single@, num_threads, i, j) && hit.0 == #[trigger] slot(single@, i, j);
                }
                Ok(hit)
            },
            None => {
                proof {
                    assert forall|n: u64| n < MAX_ATTEMPTS implies !legacy_solves(
                        challenge@,
                        n,
                        difficulty,
                    ) by {
                        assert(in_grid(single@, num_threads, 0, n as int));
                        assert(slot(single@, 0, n as int) == n);
                        assert(!slot_solves(challenge@, difficulty, single@, 0, n as int));
                    }
                }
                Err(SolveError::AttemptLimit)
            },
        }
    } else {
        find_solution_parallel_below(challenge, difficulty, num_threads, MAX_ATTEMPTS, CHUNK_SIZE)
    }
}

/// What `first_legacy_solution` finds satisfies the challenge, lies in the
/// range searched, and has no satisfying nonce before it.
pub proof fn lemma_first_legacy_solution_is_least(
    challenge: Seq<char>,
    difficulty: usize,
    from: int,
    ceiling: int,
    nonce: u64,
)
    requires
        first_legacy_solution(challenge, difficulty, from, ceiling) == Some(nonce),
    ensures
        from <= nonce < ceiling,
        legacy_solves(challenge, nonce, difficulty),
        forall|n: u64| from <= n < nonce ==> !legacy_solves(challenge, n, difficulty),
    decreases ceiling - from,
{
    if from < ceiling && 0 <= from <= u64::MAX && !legacy_solves(challenge, from as u64, difficulty) {
        lemma_first_legacy_solution_is_least(challenge, difficulty, from + 1, ceiling, nonce);
    }
}

/// Where `first_legacy_solution` finds nothing, no nonce in the range
/// satisfies the challenge.
pub proof fn lemma_no_legacy_solution_in_range(
    challenge: Seq<char>,
    difficulty: usize,
    from: int,
    ceiling: int,
)
    requires
        0 <= from,
        first_legacy_solution(challenge, difficulty, from, ceiling).is_none(),
    ensures
        forall|n: u64| from <= n < ceiling ==> !legacy_solves(challenge, n, difficulty),
    decreases ceiling - from,
{
    if from < ceiling && from <= u64::MAX {
        lemma_no_legacy_solution_in_range(challenge, difficulty, from + 1, ceiling);
    }
}

} // verus!
