//! The answer to a challenge.

use crate::hexcode::{hex_encode, hex_text};
use crate::text::{decimal_text, i64_text};
use vstd::prelude::*;
use vstd::string::*;

verus! {

/// A client's answer to a challenge.
///
/// * `challenge_signature`: the signature of the challenge that is answered,
///   copied from it, so that the answer belongs to that challenge alone.
/// * `solution`: the nonce that was found.
#[derive(Debug, Clone)]
pub struct IronShieldChallengeResponse {
    pub challenge_signature: [u8; 64],
    pub solution: i64,
}

/// The transport text of an answer: the signature in hexadecimal, `|`, the
/// solution in decimal.
pub open spec fn response_text(signature: Seq<u8>, solution: i64) -> Seq<char> {
    hex_text(signature) + seq!['|'] + decimal_text(solution as int)
}

impl IronShieldChallengeResponse {
    /// An answer with the given signature and solution.
    pub fn new(challenge_signature: [u8; 64], solution: i64) -> (response: Self)
        ensures
            response.challenge_signature == challenge_signature,
            response.solution == solution,
    {
        Self { challenge_signature, solution }
    }

    /// The transport text of the answer.
    pub fn concat_struct(&self) -> (text: String)
        ensures
            text@ == response_text(self.challenge_signature@, self.solution),
    {
        proof {
            reveal_strlit("|");
        }
        assert("|"@ =~= seq!['|']);
        let mut text: String = hex_encode(self.challenge_signature.as_slice());
        text.append("|");
        let solution: String = i64_text(self.solution);
        text.append(solution.as_str());
        text
    }
}

} // verus!
