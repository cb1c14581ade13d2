//! IronShield: a stateless proof-of-work barrier against automated traffic.
//!
//! The library calibrates a difficulty from a risk score, turns it into a
//! 256-bit threshold, searches and checks nonces against that threshold, and
//! carries challenges and bypass tokens as self-contained signed values.

pub mod bypass;
pub mod bytes;
pub mod challenge;
pub mod clock;
pub mod difficulty;
pub mod digest;
pub mod hexcode;
pub mod issuer;
pub mod legacy;
pub mod response;
pub mod signature;
pub mod solver;
pub mod text;
pub mod token;
pub mod transport;
