//! The nonce search against a threshold, and the check of a claimed nonce.

use crate::bytes::{all_zero, bytes_less, i64_to_le_bytes, le_bytes, lemma_nothing_below_zero, lex_less};
use crate::challenge::{ChallengeData, IronShieldChallenge};
use crate::digest::{sha256, sha256_digest, sha256_digest_pair};
use crate::hexcode::{hex_bytes, hex_decode, hex_error_text, is_hex};
use crate::legacy::{in_grid, scanned_before, slot, strided_starts};
use crate::response::IronShieldChallengeResponse;
use crate::text::{decimal_text, i64_text};
use vstd::prelude::*;
use vstd::string::*;

verus! {

/// How many nonces `find_solution_single_threaded` tries before it gives up.
pub const MAX_ATTEMPTS_SINGLE_THREADED: i64 = 100_000_000;

/// How many nonces `find_solution_multi_threaded` covers before it gives up.
pub const MAX_ATTEMPTS_MULTI_THREADED: i64 = 10_000_000;

/// How many starting nonces one unit of parallel work holds.
pub const NONCE_CHUNK_SIZE: usize = 10_000;

/// Why a search ended without a solution.
#[derive(Debug, Clone)]
pub enum SolveError {
    /// The challenge's seed is no hexadecimal text; `detail` says where.
    InvalidSeed { detail: String },
    /// No nonce below the ceiling `attempts` satisfies the challenge.
    Exhausted { attempts: i64 },
    /// No nonce within the attempt limit has a hash with the zeros asked for.
    AttemptLimit,
}

/// The hash of a candidate: SHA-256 over the seed's bytes followed by the
/// nonce as eight little-endian bytes.
pub open spec fn candidate_hash(seed: Seq<u8>, nonce: i64) -> Seq<u8> {
    sha256(seed + le_bytes(nonce))
}

/// Whether `nonce` satisfies the challenge: the seed is hexadecimal and the
/// candidate's hash, read as a 256-bit big-endian number, is strictly below
/// the threshold.
pub open spec fn solves(c: ChallengeData, nonce: i64) -> bool {
    is_hex(c.random_nonce) && lex_less(
        candidate_hash(hex_bytes(c.random_nonce), nonce),
        c.challenge_param,
    )
}

/// The least nonce from `from` up to, not including, `ceiling` that
/// satisfies the challenge, if there is one.
pub open spec fn first_solution(c: ChallengeData, from: int, ceiling: int) -> Option<i64>
    decreases ceiling - from,
{
    if from >= ceiling || from > i64::MAX || from < i64::MIN {
        None
    } else if solves(c, from as i64) {
        Some(from as i64)
    } else {
        first_solution(c, from + 1, ceiling)
    }
}

/// What a search below `ceiling` owes: the least satisfying nonce with the
/// challenge's own signature; or the refusal of a seed that is no
/// hexadecimal text; or the report that no nonce below the ceiling
/// satisfies the challenge.
pub open spec fn search_outcome(
    c: ChallengeData,
    ceiling: i64,
    outcome: Result<IronShieldChallengeResponse, SolveError>,
) -> bool {
    match outcome {
        Ok(response) => {
            &&& is_hex(c.random_nonce)
            &&& first_solution(c, 0, ceiling as int) == Some(response.solution)
            &&& response.challenge_signature@ == c.challenge_signature
        },
        Err(SolveError::InvalidSeed { .. }) => !is_hex(c.random_nonce),
        Err(SolveError::Exhausted { attempts }) => {
            &&& is_hex(c.random_nonce)
            &&& attempts == ceiling
            &&& first_solution(c, 0, ceiling as int).is_none()
        },
        Err(SolveError::AttemptLimit) => false,
    }
}

/// Whether a search ended with the report that nothing below `ceiling`
/// satisfies the challenge.
pub open spec fn exhausted_at(outcome: Result<IronShieldChallengeResponse, SolveError>, ceiling: i64) -> bool {
    match outcome {
        Err(SolveError::Exhausted { attempts }) => attempts == ceiling,
        _ => false,
    }
}

/// Whether the hash of `nonce` under the decoded seed is below the
/// threshold. The hash has 32 bytes, so a threshold of zeros admits none.
pub fn nonce_meets_threshold(seed: &[u8], threshold: &[u8; 32], nonce: i64) -> (meets: bool)
    ensures
        meets == lex_less(candidate_hash(seed@, nonce), threshold@),
        candidate_hash(seed@, nonce).len() == 32,
        all_zero(threshold@) ==> !meets,
{
    let nonce_bytes: [u8; 8] = i64_to_le_bytes(nonce);
    let hash: [u8; 32] = sha256_digest_pair(seed, nonce_bytes.as_slice());
    proof {
        if all_zero(threshold@) {
            lemma_nothing_below_zero(hash@, threshold@);
        }
    }
    bytes_less(&hash, threshold)
}

/// Searches the nonces `0, 1, 2, ..` below `ceiling` for the first whose
/// hash is below the challenge's threshold.
pub fn find_solution_within(challenge: &IronShieldChallenge, ceiling: i64) -> (outcome: Result<
    IronShieldChallengeResponse,
    SolveError,
>)
    ensures
        search_outcome(challenge@, ceiling, outcome),
        is_hex(challenge@.random_nonce) && all_zero(challenge@.challenge_param) ==> exhausted_at(
            outcome,
            ceiling,
        ),
{
    let seed: Vec<u8> = match hex_decode(challenge.random_nonce.as_str()) {
        Ok(bytes) => bytes,
        Err(error) => {
            return Err(SolveError::InvalidSeed { detail: hex_error_text(&error) });
        },
    };
    let mut nonce: i64 = 0;
    while nonce < ceiling
        invariant
            0 <= nonce,
            is_hex(challenge@.random_nonce),
            seed@ == hex_bytes(challenge@.random_nonce),
            first_solution(challenge@, 0, ceiling as int) == first_solution(
                challenge@,
                nonce as int,
                ceiling as int,
            ),
        decreases ceiling - nonce,
    {
        if nonce_meets_threshold(seed.as_slice(), &challenge.challenge_param, nonce) {
            return Ok(IronShieldChallengeResponse::new(challenge.challenge_signature, nonce));
        }
        nonce = nonce + 1;
    }
    Err(SolveError::Exhausted { attempts: ceiling })
}

/// Searches for a solution of the challenge among the first
/// `MAX_ATTEMPTS_SINGLE_THREADED` nonces, on the calling thread.
pub fn find_solution_single_threaded(challenge: &IronShieldChallenge) -> (outcome: Result<
    IronShieldChallengeResponse,
    SolveError,
>)
    ensures
        search_outcome(challenge@, MAX_ATTEMPTS_SINGLE_THREADED, outcome),
        is_hex(challenge@.random_nonce) && all_zero(challenge@.challenge_param) ==> exhausted_at(
            outcome,
            MAX_ATTEMPTS_SINGLE_THREADED,
        ),
{
    find_solution_within(challenge, MAX_ATTEMPTS_SINGLE_THREADED)
}

/// Whether `nonce` satisfies the challenge. A seed that is no hexadecimal
/// text satisfies nothing, and a threshold of zeros is satisfied by nothing.
pub fn verify_ironshield_solution(challenge: &IronShieldChallenge, nonce: i64) -> (valid: bool)
    ensures
        valid == solves(challenge@, nonce),
        all_zero(challenge@.challenge_param) ==> !valid,
{
    match hex_decode(challenge.random_nonce.as_str()) {
        Ok(seed) => nonce_meets_threshold(seed.as_slice(), &challenge.challenge_param, nonce),
        Err(_) => false,
    }
}

/// The hash of a candidate from one joined buffer: the seed's bytes and the
/// nonce's eight little-endian bytes are copied into one vector first.
pub fn candidate_hash_joined(seed: &[u8], nonce: i64) -> (hash: [u8; 32])
    ensures
        hash@ == candidate_hash(seed@, nonce),
{
    let nonce_bytes: [u8; 8] = i64_to_le_bytes(nonce);
    let mut input: Vec<u8> = Vec::new();
    crate::bytes::extend_bytes(&mut input, seed);
    crate::bytes::extend_bytes(&mut input, nonce_bytes.as_slice());
    assert(input@ =~= seed@ + le_bytes(nonce));
    sha256_digest(input.as_slice())
}

/// The hash of a candidate by feeding the hasher the seed and then the nonce.
pub fn candidate_hash_streamed(seed: &[u8], nonce: i64) -> (hash: [u8; 32])
    ensures
        hash@ == candidate_hash(seed@, nonce),
{
    let nonce_bytes: [u8; 8] = i64_to_le_bytes(nonce);
    sha256_digest_pair(seed, nonce_bytes.as_slice())
}

/// Whether the nonce in slot `(i, j)` has a hash below the threshold.
pub open spec fn slot_meets(seed: Seq<u8>, threshold: Seq<u8>, starts: Seq<u64>, i: int, j: int) -> bool {
    lex_less(candidate_hash(seed, slot(starts, i, j) as i64), threshold)
}

/// Whether every slot's nonce fits a signed 64-bit number.
pub open spec fn nonces_fit(starts: Seq<u64>, width: usize) -> bool {
    forall|i: int| 0 <= i < starts.len() ==> #[trigger] starts[i] + width <= i64::MAX
}

/// Whether slot `(i, j)` is the first in scanning order whose nonce has a
/// hash below the threshold.
pub open spec fn first_meeting_slot(
    seed: Seq<u8>,
    threshold: Seq<u8>,
    starts: Seq<u64>,
    width: usize,
    i: int,
    j: int,
) -> bool {
    &&& in_grid(starts, width, i, j)
    &&& slot_meets(seed, threshold, starts, i, j)
    &&& forall|a: int, b: int|
        in_grid(starts, width, a, b) && scanned_before(a, b, i, j) ==> !#[trigger] slot_meets(
            seed,
            threshold,
            starts,
            a,
            b,
        )
}

/// Whether no slot's nonce has a hash below the threshold.
pub open spec fn no_slot_meets(seed: Seq<u8>, threshold: Seq<u8>, starts: Seq<u64>, width: usize) -> bool {
    forall|a: int, b: int|
        in_grid(starts, width, a, b) ==> !#[trigger] slot_meets(seed, threshold, starts, a, b)
}

/// Whether `nonce` sits in some slot and has a hash, of 32 bytes, below the
/// threshold.
pub open spec fn some_slot_meets(
    seed: Seq<u8>,
    threshold: Seq<u8>,
    starts: Seq<u64>,
    width: usize,
    nonce: i64,
) -> bool {
    &&& exists|i: int, j: int| in_grid(starts, width, i, j) && nonce == #[trigger] slot(starts, i, j)
    &&& candidate_hash(seed, nonce).len() == 32
    &&& lex_less(candidate_hash(seed, nonce), threshold)
}

/// Scans the slots of `chunk` in order, each starting nonce with the offsets
/// below `width`, and returns the first nonce whose hash is below the
/// threshold.
pub fn scan_nonce_chunk(seed: &[u8], threshold: &[u8; 32], chunk: &[u64], width: usize) -> (found: Option<
    i64,
>)
    requires
        nonces_fit(chunk@, width),
    ensures
        match found {
            Some(nonce) => {
                &&& exists|i: int, j: int|
                    #[trigger] first_meeting_slot(seed@, threshold@, chunk@, width, i, j) && nonce
                        == slot(chunk@, i, j)
                &&& some_slot_meets(seed@, threshold@, chunk@, width, nonce)
            },
            None => no_slot_meets(seed@, threshold@, chunk@, width),
        },
{
    let n: usize = chunk.len();
    let mut i: usize = 0;
    while i < n
        invariant
            i <= n,
            n == chunk@.len(),
            nonces_fit(chunk@, width),
            forall|a: int, b: int|
                in_grid(chunk@, width, a, b) && a < i ==> !#[trigger] slot_meets(
                    seed@,
                    threshold@,
                    chunk@,
                    a,
                    b,
                ),
        decreases n - i,
    {
        let start: u64 = chunk[i];
        assert(chunk@[i as int] + width <= i64::MAX);
        let mut j: usize = 0;
        while j < width
            invariant
                i < n,
                j <= width,
                n == chunk@.len(),
                start == chunk@[i as int],
                start + width <= i64::MAX,
                forall|a: int, b: int|
                    in_grid(chunk@, width, a, b) && scanned_before(a, b, i as int, j as int)
                        ==> !#[trigger] slot_meets(seed@, threshold@, chunk@, a, b),
            decreases width - j,
        {
            let nonce: i64 = (start + (j as u64)) as i64;
            if nonce_meets_threshold(seed, threshold, nonce) {
                assert(nonce == slot(chunk@, i as int, j as int));
                assert(slot_meets(seed@, threshold@, chunk@, i as int, j as int));
                assert(first_meeting_slot(seed@, threshold@, chunk@, width, i as int, j as int));
                assert(in_grid(chunk@, width, i as int, j as int));
                return Some(nonce);
            }
            assert(!slot_meets(seed@, threshold@, chunk@, i as int, j as int));
            j = j + 1;
        }
        i = i + 1;
    }
    None
}

/// `par_chunks` and `find_map_any` of `rayon`: `starts` is cut into pieces of
/// `chunk_size` starting nonces, `scan_nonce_chunk` runs on the pieces in
/// parallel, and the result of some piece that found a nonce comes back, or
/// `None` if no piece found one. Which piece wins where several find one is
/// left to the scheduler, so the contract says only what holds of each: it
/// is what `scan_nonce_chunk` is proved to return for its piece.
#[verifier::external_body]
fn scan_nonce_chunks_in_parallel(
    seed: &[u8],
    threshold: &[u8; 32],
    starts: &[u64],
    chunk_size: usize,
    width: usize,
) -> (found: Option<i64>)
    requires
        chunk_size > 0,
        nonces_fit(starts@, width),
    ensures
        match found {
            Some(nonce) => some_slot_meets(seed@, threshold@, starts@, width, nonce),
            None => no_slot_meets(seed@, threshold@, starts@, width),
        },
{
    rayon::iter::ParallelIterator::find_map_any(
        rayon::slice::ParallelSlice::par_chunks(starts, chunk_size),
        |chunk| scan_nonce_chunk(seed, threshold, chunk, width),
    )
}

/// What a parallel search below `ceiling` with a stride of `num_threads`
/// owes: some satisfying nonce below `ceiling + num_threads`, with the
/// challenge's own signature (which one is not fixed where there are
/// several); or the refusal of a seed that is no hexadecimal text; or the
/// report that no nonce from 0 up to the ceiling satisfies the challenge.
pub open spec fn parallel_outcome(
    c: ChallengeData,
    ceiling: i64,
    num_threads: usize,
    outcome: Result<IronShieldChallengeResponse, SolveError>,
) -> bool {
    match outcome {
        Ok(response) => {
            &&& 0 <= response.solution < ceiling + num_threads
            &&& solves(c, response.solution)
            &&& response.challenge_signature@ == c.challenge_signature
        },
        Err(SolveError::InvalidSeed { .. }) => !is_hex(c.random_nonce),
        Err(SolveError::Exhausted { attempts }) => {
            &&& is_hex(c.random_nonce)
            &&& attempts == ceiling
            &&& forall|n: i64| 0 <= n < ceiling ==> !solves(c, n)
        },
        Err(SolveError::AttemptLimit) => false,
    }
}

/// Searches the nonces below `ceiling` in parallel: the starting nonces `0,
/// num_threads, 2 * num_threads, ..` are handed out in pieces of
/// `chunk_size`, and under each starting nonce the `num_threads` nonces from
/// it on are tried with the same hash and comparison as the sequential
/// search. The first piece to find a nonce wins.
pub fn find_solution_parallel_within(
    challenge: &IronShieldChallenge,
    num_threads: usize,
    ceiling: i64,
    chunk_size: usize,
) -> (outcome: Result<IronShieldChallengeResponse, SolveError>)
    requires
        num_threads > 0,
        chunk_size > 0,
        ceiling + 2 * num_threads <= i64::MAX,
    ensures
        parallel_outcome(challenge@, ceiling, num_threads, outcome),
        is_hex(challenge@.random_nonce) && all_zero(challenge@.challenge_param) ==> exhausted_at(
            outcome,
            ceiling,
        ),
{
    let seed: Vec<u8> = match hex_decode(challenge.random_nonce.as_str()) {
        Ok(bytes) => bytes,
        Err(error) => {
            return Err(SolveError::InvalidSeed { detail: hex_error_text(&error) });
        },
    };
    if ceiling <= 0 {
        return Err(SolveError::Exhausted { attempts: ceiling });
    }
    let starts: Vec<u64> = strided_starts(ceiling as u64, num_threads);
    let ghost len = starts@.len() as int;
    proof {
        assert forall|i: int| 0 <= i < len implies #[trigger] starts@[i] + num_threads
            <= i64::MAX by {
            assert(starts@[i] == i * num_threads);
            assert(i * num_threads <= (len - 1) * num_threads) by (nonlinear_arith)
                requires
                    i <= len - 1,
                    num_threads > 0,
            ;
        }
    }
    match scan_nonce_chunks_in_parallel(
        seed.as_slice(),
        &challenge.challenge_param,
        starts.as_slice(),
        chunk_size,
        num_threads,
    ) {
        Some(nonce) => {
            proof {
                if all_zero(challenge@.challenge_param) {
                    lemma_nothing_below_zero(candidate_hash(seed@, nonce), challenge@.challenge_param);
                }
                let (i, j) = choose|i: int, j: int|
                    in_grid(starts@, num_threads, i, j) && nonce == #[trigger] slot(starts@, i, j);
                assert(starts@[i] == i * num_threads);
                assert(i * num_threads <= (len - 1) * num_threads) by (nonlinear_arith)
                    requires
                        i <= len - 1,
                        num_threads > 0,
                ;
            }
            Ok(IronShieldChallengeResponse::new(challenge.challenge_signature, nonce))
        },
        None => {
            proof {
                assert forall|n: i64| 0 <= n < ceiling implies !solves(challenge@, n) by {
                    let t = num_threads as int;
                    let i = n as int / t;
                    let j = n as int % t;
                    vstd::arithmetic::div_mod::lemma_fundamental_div_mod(n as int, t);
                    assert(n == t * i + j);
                    assert(t * i == i * t) by (nonlinear_arith);
                    assert(i < len) by (nonlinear_arith)
                        requires
                            n == i * t + j,
                            0 <= j,
                            n < len * t,
                            t > 0,
                    ;
                    assert(0 <= i) by (nonlinear_arith)
                        requires
                            n == i * t + j,
                            j < t,
                            n >= 0,
                            t > 0,
                    ;
                    assert(in_grid(starts@, num_threads, i, j));
                    assert(starts@[i] == i * num_threads);
                    assert(slot(starts@, i, j) == n);
                    assert(!slot_meets(seed@, challenge@.challenge_param, starts@, i, j));
                }
            }
            Err(SolveError::Exhausted { attempts: ceiling })
        },
    }
}

/// Searches for a solution of the challenge among the first
/// `MAX_ATTEMPTS_MULTI_THREADED` nonces with `num_threads` workers. Where
/// `num_threads` is zero or beyond the number of nonces, the search runs
/// with one nonce per starting point.
pub fn find_solution_multi_threaded(challenge: &IronShieldChallenge, num_threads: usize) -> (outcome:
    Result<IronShieldChallengeResponse, SolveError>)
    ensures
        0 < num_threads <= MAX_ATTEMPTS_MULTI_THREADED ==> parallel_outcome(
            challenge@,
            MAX_ATTEMPTS_MULTI_THREADED,
            num_threads,
            outcome,
        ),
        !(0 < num_threads <= MAX_ATTEMPTS_MULTI_THREADED) ==> parallel_outcome(
            challenge@,
            MAX_ATTEMPTS_MULTI_THREADED,
            1,
            outcome,
        ),
        is_hex(challenge@.random_nonce) && all_zero(challenge@.challenge_param) ==> exhausted_at(
            outcome,
            MAX_ATTEMPTS_MULTI_THREADED,
        ),
{
    if num_threads == 0 || (num_threads as u64) > (MAX_ATTEMPTS_MULTI_THREADED as u64) {
        find_solution_parallel_within(challenge, 1, MAX_ATTEMPTS_MULTI_THREADED, NONCE_CHUNK_SIZE)
    } else {
        find_solution_parallel_within(challenge, num_threads, MAX_ATTEMPTS_MULTI_THREADED, NONCE_CHUNK_SIZE)
    }
}

impl SolveError {
    /// The error in words.
    pub open spec fn text(self) -> Seq<char> {
        match self {
            SolveError::InvalidSeed { detail } => "Failed to decode random_nonce hex: "@ + detail@,
            SolveError::Exhausted { attempts } => "Could not find solution within "@ + decimal_text(
                attempts as int,
            ) + " attempts"@,
            SolveError::AttemptLimit => "Could not find solution within attempt limit"@,
        }
    }

    /// The error in words.
    pub fn message(&self) -> (text: String)
        ensures
            text@ == self.text(),
    {
        match self {
            SolveError::InvalidSeed { detail } => {
                let mut text: String = "Failed to decode random_nonce hex: ".to_owned();
                text.append(detail.as_str());
                text
            },
            SolveError::Exhausted { attempts } => {
                let mut text: String = "Could not find solution within ".to_owned();
                let count: String = i64_text(*attempts);
                text.append(count.as_str());
                text.append(" attempts");
                text
            },
            SolveError::AttemptLimit => "Could not find solution within attempt limit".to_owned(),
        }
    }
}

/// What `first_solution` finds satisfies the challenge, lies in the range
/// searched, and has no satisfying nonce before it.
pub proof fn lemma_first_solution_is_least(c: ChallengeData, from: int, ceiling: int, nonce: i64)
    requires
        first_solution(c, from, ceiling) == Some(nonce),
    ensures
        from <= nonce < ceiling,
        solves(c, nonce),
        forall|n: i64| from <= n < nonce ==> !solves(c, n),
    decreases ceiling - from,
{
    if from < ceiling && i64::MIN <= from <= i64::MAX && !solves(c, from as i64) {
        lemma_first_solution_is_least(c, from + 1, ceiling, nonce);
    }
}

/// Where `first_solution` finds nothing, no nonce in the range satisfies the
/// challenge.
pub proof fn lemma_no_solution_in_range(c: ChallengeData, from: int, ceiling: int)
    requires
        i64::MIN <= from,
        first_solution(c, from, ceiling).is_none(),
    ensures
        forall|n: i64| from <= n < ceiling ==> !solves(c, n),
    decreases ceiling - from,
{
    if from < ceiling && from <= i64::MAX {
        lemma_no_solution_in_range(c, from + 1, ceiling);
    }
}

/// A search that succeeds returns a nonce that the check accepts: for every
/// challenge and ceiling, whatever `find_solution_within` may return as `Ok`
/// makes `verify_ironshield_solution` answer `true`.
pub proof fn lemma_found_solution_verifies(
    c: ChallengeData,
    ceiling: i64,
    outcome: Result<IronShieldChallengeResponse, SolveError>,
)
    requires
        search_outcome(c, ceiling, outcome),
        outcome.is_ok(),
    ensures
        solves(c, outcome.unwrap().solution),
        0 <= outcome.unwrap().solution < ceiling,
{
    lemma_first_solution_is_least(c, 0, ceiling as int, outcome.unwrap().solution);
}

/// A search fails only for a reason: a seed that is no hexadecimal text, or
/// no satisfying nonce below the ceiling. So where the seed is hexadecimal
/// and some nonce below the ceiling satisfies the challenge, it succeeds.
pub proof fn lemma_search_succeeds(
    c: ChallengeData,
    ceiling: i64,
    outcome: Result<IronShieldChallengeResponse, SolveError>,
    witness: i64,
)
    requires
        search_outcome(c, ceiling, outcome),
        0 <= witness < ceiling,
        solves(c, witness),
    ensures
        outcome.is_ok(),
{
    if outcome.is_err() {
        lemma_no_solution_in_range(c, 0, ceiling as int);
    }
}

} // verus!
