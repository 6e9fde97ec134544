//! Identities that tell loggers apart, so that a trace logger knows which logger it joined.
use vstd::prelude::*;

verus! {

/// `RandomState::new`: hasher keys that std draws at random for each new state; nothing is
/// claimed of them.
#[verifier::external_body]
fn random_state() -> std::collections::hash_map::RandomState {
    std::collections::hash_map::RandomState::new()
}

/// `BuildHasher::hash_one`: the hash of one fixed byte under the keys of `state`; nothing is
/// claimed of the number.
#[verifier::external_body]
fn hash_of_byte(state: &std::collections::hash_map::RandomState) -> u64 {
    std::hash::BuildHasher::hash_one(state, 0u8)
}

/// A new identity for a logger: 64 bits drawn from freshly seeded hasher keys, so that two
/// loggers share one only by a chance of about one in 2^64.
pub fn fresh_identity() -> (id: u64) {
    let state = random_state();
    hash_of_byte(&state)
}

} // verus!
