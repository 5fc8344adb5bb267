//! Identifiers of history entries and of sessions.

use vstd::prelude::*;
use rand::rngs::SmallRng;
use rand::Rng;
use rand::SeedableRng;

verus! {

/// `rand::rngs::SmallRng`: a generator of numbers whose state is not looked
/// into.
#[verifier::external_type_specification]
#[verifier::external_body]
pub struct ExSmallRng(SmallRng);

/// `SmallRng::from_entropy`: a generator seeded by the system, about which
/// nothing is said. The call fails only where the system has no entropy to
/// give.
#[verifier::external_body]
pub(crate) fn seeded_rng() -> SmallRng {
    SmallRng::from_entropy()
}

/// `Rng::gen` for `i64`: the generator's next number, which may be any.
#[verifier::external_body]
pub(crate) fn next_number(rng: &mut SmallRng) -> i64 {
    rng.gen()
}

/// Names one entry of a history for as long as the history holds it. A new
/// entry gets an identifier drawn at random, a line read from a file one
/// derived from its position and text. Nothing keeps two entries from getting
/// the same identifier; among so many numbers that is rare, and where it
/// happens the later entry takes the place of the earlier.
#[derive(Debug, Clone, Copy, PartialEq, Eq, Structural, Hash)]
pub struct HistoryItemId(pub i64);

/// An opaque label of the session a history belongs to.
#[derive(Debug, Clone, Copy, PartialEq, Eq, Structural, Hash)]
pub struct HistorySessionId(pub i64);

impl HistoryItemId {
    pub fn new(id: i64) -> (r: Self)
        ensures
            r == HistoryItemId(id),
    {
        HistoryItemId(id)
    }
}

impl HistorySessionId {
    pub fn new(id: i64) -> (r: Self)
        ensures
            r == HistorySessionId(id),
    {
        HistorySessionId(id)
    }
}

} // verus!
