//! The bookkeeping of a player's proof accumulator: how many steps it has
//! folded, and how its public parameters are come by. The folding itself
//! is the work of the proof system; what it reports is recorded here.

use crate::error::ProtocolError;
use vstd::prelude::*;

verus! {

/// How the public parameters of a circuit are obtained.
#[derive(Copy, Clone, Debug, PartialEq, Eq, Structural)]
pub enum ParametersPlan {
    /// Read them from the cache.
    Load,
    /// Generate them, and store them in the cache before they are used.
    GenerateAndStore,
}

/// Decides how to obtain the public parameters: from the cache where it
/// exists, by generating and storing them where it does not.
pub fn parameters_plan(cache_exists: bool) -> (r: ParametersPlan)
    ensures
        cache_exists ==> r == ParametersPlan::Load,
        !cache_exists ==> r == ParametersPlan::GenerateAndStore,
{
    if cache_exists {
        ParametersPlan::Load
    } else {
        ParametersPlan::GenerateAndStore
    }
}

/// The record of what an accumulator holds. It starts with no step and
/// grows by one step at a time; it is never wound back.
#[derive(Copy, Clone, Debug, PartialEq, Eq, Structural)]
pub struct FoldLog {
    pub steps: usize,
}

impl FoldLog {
    /// The record of a fresh accumulator: no step folded yet.
    pub fn new() -> (r: FoldLog)
        ensures
            r.steps == 0,
    {
        FoldLog { steps: 0 }
    }

    /// Records what the accumulator reported of a step. A folded step
    /// raises the count by exactly one; a refused one is a failure and
    /// leaves the count as it was.
    pub fn record(&mut self, folded: bool) -> (r: Result<(), ProtocolError>)
        requires
            old(self).steps < usize::MAX,
        ensures
            r is Ok <==> folded,
            folded ==> final(self).steps == old(self).steps + 1,
            !folded ==> final(self).steps == old(self).steps,
            r matches Err(e) ==> e == ProtocolError::FoldFailed,
    {
        if folded {
            self.steps = self.steps + 1;
            Ok(())
        } else {
            Err(ProtocolError::FoldFailed)
        }
    }

    /// The number of steps to name when the accumulated proof is checked.
    pub fn step_count(&self) -> (r: usize)
        ensures
            r == self.steps,
    {
        self.steps
    }
}

} // verus!
