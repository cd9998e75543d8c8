//! Generation of a new access address from an entropy source.

use crate::access_address::{access_addr_valid, is_valid_access_addr, ActiveAddressSet};
use vstd::prelude::*;

verus! {

/// Why no access address was generated.
#[derive(Clone, Copy, Debug, PartialEq, Eq, Structural)]
pub enum GenerationError {
    /// Every candidate that the attempts allowed was drawn and rejected.
    Exhausted,
}

/// A source of random 32-bit words. It should be seeded from a physical
/// source with at least 20 bits of entropy; nothing here depends on it.
pub trait EntropySource {
    /// Draws the next word.
    fn next_u32(&mut self) -> u32;
}

/// How a generation goes on after one candidate.
#[derive(Clone, Copy, Debug, PartialEq, Eq, Structural)]
pub enum Step {
    /// The candidate is the new access address.
    Accepted(u32),
    /// The candidate was rejected, and `attempts_left` more may be drawn.
    Retry { attempts_left: u32 },
    /// No attempt is left.
    Exhausted,
}

/// The step that follows the draw of `candidate` when `attempts_left`
/// attempts were left before it, the draw itself included. With no attempt
/// left the candidate does not count.
pub open spec fn step_after(
    candidate: u32,
    attempts_left: u32,
    active: Set<u32>,
    coded_phy_supported: bool,
) -> Step {
    if attempts_left == 0 {
        Step::Exhausted
    } else if access_addr_valid(candidate, active, coded_phy_supported) {
        Step::Accepted(candidate)
    } else if attempts_left == 1 {
        Step::Exhausted
    } else {
        Step::Retry { attempts_left: (attempts_left - 1) as u32 }
    }
}

/// Judges one drawn candidate: it is accepted as it was drawn if it is a
/// valid access address; if not, it costs one attempt.
pub fn judge_candidate(
    candidate: u32,
    attempts_left: u32,
    active: &ActiveAddressSet,
    coded_phy_supported: bool,
) -> (step: Step)
    ensures
        step == step_after(candidate, attempts_left, active@, coded_phy_supported),
{
    if attempts_left == 0 {
        Step::Exhausted
    } else if is_valid_access_addr(candidate, active, coded_phy_supported) {
        Step::Accepted(candidate)
    } else if attempts_left == 1 {
        Step::Exhausted
    } else {
        Step::Retry { attempts_left: attempts_left - 1 }
    }
}

/// Draws candidates from `entropy`, one for each attempt, and returns the
/// first that [`judge_candidate`] accepts. After `max_attempts` rejected
/// candidates the generation gives up; with no attempt allowed it draws
/// nothing.
pub fn generate<E: EntropySource>(
    entropy: &mut E,
    active: &ActiveAddressSet,
    coded_phy_supported: bool,
    max_attempts: u32,
) -> (result: Result<u32, GenerationError>)
    ensures
        max_attempts == 0 ==> result == Err::<u32, GenerationError>(GenerationError::Exhausted),
        result matches Ok(addr) ==> access_addr_valid(addr, active@, coded_phy_supported),
        result matches Err(error) ==> error == GenerationError::Exhausted,
{
    let mut attempts_left: u32 = max_attempts;
    while attempts_left > 0
        invariant
            attempts_left <= max_attempts,
        decreases attempts_left,
    {
        let candidate: u32 = entropy.next_u32();
        match judge_candidate(candidate, attempts_left, active, coded_phy_supported) {
            Step::Accepted(addr) => {
                return Ok(addr);
            },
            Step::Retry { attempts_left: left } => {
                attempts_left = left;
            },
            Step::Exhausted => {
                return Err(GenerationError::Exhausted);
            },
        }
    }
    Err(GenerationError::Exhausted)
}

} // verus!
