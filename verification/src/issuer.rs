//! Issuing challenges and accepting answers: the server's side of the
//! protocol.

use crate::bytes::all_zero;
use crate::challenge::{signable_bytes, ChallengeData, IronShieldChallenge};
use crate::clock::now_millis;
use crate::hexcode::{hex_encode, hex_text, is_hex, lemma_hex_round_trip};
use crate::legacy::{legacy_solves, nonce_of, verify_solution};
use crate::response::IronShieldChallengeResponse;
use crate::signature::{
    ed25519_accepts, ed25519_public, ed25519_public_key, ed25519_sign, ed25519_signature, ed25519_verify,
    random_seed,
};
use crate::solver::{solves, verify_ironshield_solution};
use crate::text::{parse_i64, parse_signed, parse_unsigned, parse_usize};
use crate::token::{issue_token_at, issued_token, IronShieldToken};
use vstd::prelude::*;
use vstd::string::*;

verus! {

/// The oldest a submitted challenge may be, in milliseconds.
pub const MAX_CHALLENGE_AGE_MS: i64 = 60_000;

/// Whether the challenge's signature checks out under the key it carries.
pub open spec fn challenge_signed(c: ChallengeData) -> bool {
    ed25519_accepts(c.public_key, signable_bytes(c), c.challenge_signature)
}

/// What `issue_challenge_from` makes of a seed, a moment, a site, a
/// threshold and a signing key.
pub open spec fn issued_challenge(
    c: ChallengeData,
    seed: Seq<u8>,
    now: i64,
    website_id: Seq<char>,
    threshold: Seq<u8>,
    signing_key: Seq<u8>,
) -> bool {
    &&& c.random_nonce == hex_text(seed)
    &&& c.created_time == now
    &&& c.expiration_time == now + 30_000
    &&& c.website_id == website_id
    &&& c.challenge_param == threshold
    &&& c.public_key == ed25519_public(signing_key)
    &&& c.challenge_signature == ed25519_signature(signing_key, signable_bytes(c))
    &&& challenge_signed(c)
}

/// Builds and signs the challenge for a seed at the moment `now`. The seed
/// travels as hexadecimal text; the signature covers `signable_data`.
pub fn issue_challenge_from(
    seed: &[u8],
    now: i64,
    website_id: String,
    threshold: [u8; 32],
    signing_key: &[u8; 32],
) -> (challenge: IronShieldChallenge)
    requires
        now + 30_000 <= i64::MAX,
    ensures
        issued_challenge(challenge@, seed@, now, website_id@, threshold@, signing_key@),
        challenge.well_formed(),
{
    let random_nonce: String = hex_encode(seed);
    let public_key: [u8; 32] = ed25519_public_key(signing_key);
    let unsigned = IronShieldChallenge::new(
        random_nonce,
        now,
        website_id,
        threshold,
        public_key,
        [0u8; 64],
    );
    let message: Vec<u8> = unsigned.signable_data();
    let signature: [u8; 64] = ed25519_sign(signing_key, message.as_slice());
    let challenge = IronShieldChallenge {
        random_nonce: unsigned.random_nonce,
        created_time: unsigned.created_time,
        expiration_time: unsigned.expiration_time,
        website_id: unsigned.website_id,
        challenge_param: unsigned.challenge_param,
        public_key: unsigned.public_key,
        challenge_signature: signature,
    };
    assert(signable_bytes(challenge@) == signable_bytes(unsigned@));
    challenge
}

/// Issues a challenge with a fresh random seed at the present moment: what
/// `issue_challenge_at` makes of the sixteen bytes that the generator gave
/// and the moment that the clock showed. Seed and moment are not the
/// caller's, so the contract names them only as some seed and some moment;
/// what every issued challenge has, whatever they were, is stated beside it.
pub fn issue_challenge(website_id: String, threshold: [u8; 32], signing_key: &[u8; 32]) -> (challenge:
    Option<IronShieldChallenge>)
    ensures
        exists|seed: Seq<u8>, now: i64|
            seed.len() == 16 && #[trigger] issue_outcome(
                challenge,
                seed,
                now,
                website_id@,
                threshold@,
                signing_key@,
            ),
        challenge.is_some() ==> {
            let c = challenge.unwrap();
            &&& c.well_formed()
            &&& is_hex(c@.random_nonce)
            &&& c@.random_nonce.len() == 32
            &&& c@.website_id == website_id@
            &&& c@.challenge_param == threshold@
            &&& c@.public_key == ed25519_public(signing_key@)
            &&& c@.challenge_signature == ed25519_signature(signing_key@, signable_bytes(c@))
            &&& challenge_signed(c@)
        },
{
    let seed: [u8; 16] = random_seed();
    let now: i64 = now_millis();
    proof {
        lemma_hex_round_trip(seed@);
    }
    let challenge = issue_challenge_at(seed.as_slice(), now, website_id, threshold, signing_key);
    assert(issue_outcome(challenge, seed@, now, website_id@, threshold@, signing_key@));
    challenge
}

/// What issuing owes for a seed and a moment: the challenge that
/// `issue_challenge_from` makes of them, wherever the expiration time, 30
/// seconds after `now`, still fits 64 bits; and no challenge where it does
/// not.
pub open spec fn issue_outcome(
    outcome: Option<IronShieldChallenge>,
    seed: Seq<u8>,
    now: i64,
    website_id: Seq<char>,
    threshold: Seq<u8>,
    signing_key: Seq<u8>,
) -> bool {
    match outcome {
        Some(challenge) => {
            &&& now + 30_000 <= i64::MAX
            &&& issued_challenge(challenge@, seed, now, website_id, threshold, signing_key)
        },
        None => now + 30_000 > i64::MAX,
    }
}

/// Builds and signs the challenge for a seed at the moment `now`, for any
/// moment: `None` exactly where `now` lies within 30 seconds of the end of
/// time as 64 bits count it, so that the challenge could not expire.
pub fn issue_challenge_at(
    seed: &[u8],
    now: i64,
    website_id: String,
    threshold: [u8; 32],
    signing_key: &[u8; 32],
) -> (challenge: Option<IronShieldChallenge>)
    ensures
        issue_outcome(challenge, seed@, now, website_id@, threshold@, signing_key@),
        challenge.is_some() == (now + 30_000 <= i64::MAX),
        challenge.is_some() ==> challenge.unwrap().well_formed(),
{
    if now > i64::MAX - 30_000 {
        return None;
    }
    let issued = issue_challenge_from(seed, now, website_id, threshold, signing_key);
    Some(issued)
}

/// Whether the challenge's signature checks out under the key it carries.
pub fn verify_challenge_signature(challenge: &IronShieldChallenge) -> (valid: bool)
    ensures
        valid == challenge_signed(challenge@),
{
    let message: Vec<u8> = challenge.signable_data();
    ed25519_verify(&challenge.public_key, message.as_slice(), &challenge.challenge_signature)
}

/// Whether a challenge created at `created_time` is still fresh at `now`: no
/// more than `MAX_CHALLENGE_AGE_MS` old. Only staleness is bounded: a
/// creation time that lies in the future counts as fresh, however far.
pub open spec fn fresh_at(created_time: i64, now: i64) -> bool {
    now - created_time <= 60_000
}

/// Whether a challenge created at `created_time` is still fresh at `now`.
pub fn is_fresh_at(created_time: i64, now: i64) -> (fresh: bool)
    ensures
        fresh == fresh_at(created_time, now),
{
    let age: i128 = (now as i128) - (created_time as i128);
    age <= MAX_CHALLENGE_AGE_MS as i128
}

/// Whether an answer to a challenge is accepted at the moment `now`: the
/// answer names this challenge, the challenge is signed by the key it
/// carries and is still fresh, and the nonce satisfies it.
pub open spec fn accepts_response(c: ChallengeData, signature: Seq<u8>, solution: i64, now: i64) -> bool {
    &&& signature == c.challenge_signature
    &&& challenge_signed(c)
    &&& fresh_at(c.created_time, now)
    &&& solves(c, solution)
}

/// Whether two signatures are the same bytes.
pub fn same_signature(a: &[u8; 64], b: &[u8; 64]) -> (same: bool)
    ensures
        same == (a@ == b@),
{
    let mut i: usize = 0;
    while i < 64
        invariant
            i <= 64,
            forall|j: int| 0 <= j < i ==> a@[j] == b@[j],
        decreases 64 - i,
    {
        if a[i] != b[i] {
            return false;
        }
        i = i + 1;
    }
    assert(a@ =~= b@);
    true
}

/// Checks an answer against its challenge at the moment `now`. Every
/// failure is the same `false`: the caller does not learn which check
/// failed. No answer to a challenge with a threshold of zeros is accepted.
pub fn verify_response_at(
    challenge: &IronShieldChallenge,
    response: &IronShieldChallengeResponse,
    now: i64,
) -> (accepted: bool)
    ensures
        accepted == accepts_response(
            challenge@,
            response.challenge_signature@,
            response.solution,
            now,
        ),
        all_zero(challenge@.challenge_param) ==> !accepted,
{
    if !same_signature(&response.challenge_signature, &challenge.challenge_signature) {
        return false;
    }
    if !verify_challenge_signature(challenge) {
        return false;
    }
    if !is_fresh_at(challenge.created_time, now) {
        return false;
    }
    verify_ironshield_solution(challenge, response.solution)
}

/// Checks an answer at the moment `now` and, where it is accepted, issues
/// the bypass token for the challenge, good for `validity_window`
/// milliseconds.
pub fn redeem_response_at(
    challenge: &IronShieldChallenge,
    response: &IronShieldChallengeResponse,
    now: i64,
    validity_window: i64,
    signing_key: &[u8; 32],
) -> (token: Option<IronShieldToken>)
    requires
        i64::MIN <= now + validity_window <= i64::MAX,
    ensures
        token.is_some() == accepts_response(
            challenge@,
            response.challenge_signature@,
            response.solution,
            now,
        ),
        token.is_some() ==> issued_token(
            token.unwrap(),
            challenge@.challenge_signature,
            (now + validity_window) as i64,
            signing_key@,
        ),
        all_zero(challenge@.challenge_param) ==> token.is_none(),
{
    if verify_response_at(challenge, response, now) {
        let issued = issue_token_at(challenge.challenge_signature, now, validity_window, signing_key);
        Some(issued)
    } else {
        None
    }
}

/// The four protocol fields of a request, each as it arrived or absent.
pub struct Submission<'a> {
    pub challenge: Option<&'a str>,
    pub nonce: Option<&'a str>,
    pub timestamp: Option<&'a str>,
    pub difficulty: Option<&'a str>,
}

/// What is done with a request.
#[derive(Debug, Clone, Copy, PartialEq, Eq, Structural)]
pub enum Decision {
    /// The request makes no attempt: hand out a fresh challenge.
    IssueChallenge,
    /// The request's solution holds: let it through.
    Accept,
    /// The request's solution does not hold: turn it away.
    Reject,
}

impl<'a> Submission<'a> {
    /// Whether all four fields are present.
    pub open spec fn complete(&self) -> bool {
        self.challenge.is_some() && self.nonce.is_some() && self.timestamp.is_some()
            && self.difficulty.is_some()
    }

    /// Whether the submission holds at the moment `now`: all four fields are
    /// present, the timestamp is a 64-bit decimal no more than
    /// `MAX_CHALLENGE_AGE_MS` in the past, the difficulty is a decimal count
    /// of zeros, and the nonce is a decimal whose hash with the challenge
    /// begins with that many zeros.
    pub open spec fn holds_at(&self, now: i64) -> bool {
        &&& self.complete()
        &&& match parse_signed(self.timestamp.unwrap()@, i64::MIN as int, i64::MAX as int) {
            Some(created) => fresh_at(created as i64, now),
            None => false,
        }
        &&& match parse_unsigned(self.difficulty.unwrap()@, usize::MAX as int) {
            Some(difficulty) => match nonce_of(self.nonce.unwrap()@) {
                Some(nonce) => legacy_solves(self.challenge.unwrap()@, nonce as u64, difficulty as usize),
                None => false,
            },
            None => false,
        }
    }

    /// What is owed to the submission at the moment `now`.
    pub open spec fn decision_at(&self, now: i64) -> Decision {
        if !self.complete() {
            Decision::IssueChallenge
        } else if self.holds_at(now) {
            Decision::Accept
        } else {
            Decision::Reject
        }
    }

    /// Whether all four protocol fields are present.
    pub fn has_proof_of_work_headers(&self) -> (present: bool)
        ensures
            present == self.complete(),
    {
        self.challenge.is_some() && self.nonce.is_some() && self.timestamp.is_some()
            && self.difficulty.is_some()
    }

    /// Whether the submitted solution holds at the moment `now`. A missing
    /// field, a malformed number, a stale timestamp and a wrong nonce all
    /// give `false`.
    pub fn verify_at(&self, now: i64) -> (valid: bool)
        ensures
            valid == self.holds_at(now),
    {
        match (self.challenge, self.nonce, self.timestamp, self.difficulty) {
            (Some(challenge), Some(nonce_str), Some(timestamp_str), Some(difficulty_str)) => {
                match parse_i64(timestamp_str) {
                    Some(timestamp_millis) => {
                        if !is_fresh_at(timestamp_millis, now) {
                            return false;
                        }
                    },
                    None => {
                        return false;
                    },
                }
                let difficulty: usize = match parse_usize(difficulty_str) {
                    Some(d) => d,
                    None => {
                        return false;
                    },
                };
                verify_solution(challenge, nonce_str, difficulty)
            },
            _ => false,
        }
    }

    /// The decision on the submission at the moment `now`.
    pub fn decide_at(&self, now: i64) -> (decision: Decision)
        ensures
            decision == self.decision_at(now),
    {
        if !self.has_proof_of_work_headers() {
            Decision::IssueChallenge
        } else if self.verify_at(now) {
            Decision::Accept
        } else {
            Decision::Reject
        }
    }
}

/// A challenge that was just issued passes the signature check.
pub proof fn lemma_issued_challenge_is_signed(
    c: ChallengeData,
    seed: Seq<u8>,
    now: i64,
    website_id: Seq<char>,
    threshold: Seq<u8>,
    signing_key: Seq<u8>,
)
    requires
        issued_challenge(c, seed, now, website_id, threshold, signing_key),
    ensures
        challenge_signed(c),
        is_hex(c.random_nonce),
{
    lemma_hex_round_trip(seed);
}

/// Freshness bounds the past only: a challenge stamped at or after `now` is
/// fresh, and one stamped more than `MAX_CHALLENGE_AGE_MS` before is not.
pub proof fn lemma_freshness_is_one_sided(created_time: i64, now: i64)
    ensures
        created_time >= now ==> fresh_at(created_time, now),
        now - created_time > 60_000 ==> !fresh_at(created_time, now),
        0 <= now - created_time <= 60_000 ==> fresh_at(created_time, now),
{
}

} // verus!
