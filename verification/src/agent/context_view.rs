//! The planning context manager: the summaries it hands out and their
//! budget.
use vstd::prelude::*;

verus! {

/// Tracks the summaries given to the planner: the hash of the last one,
/// how many were given, and the token budget they are packed into.
pub struct PlanningContextManager {
    pub last_hash: Option<String>,
    pub version: u64,
    pub token_budget: usize,
}

impl PlanningContextManager {
    /// A manager that has given no summary yet, with a budget of at least
    /// one token.
    pub fn with_token_budget(token_budget: usize) -> (r: PlanningContextManager)
        ensures
            r.last_hash is None,
            r.version == 0,
            r.token_budget == if token_budget < 1 {
                1
            } else {
                token_budget
            },
    {
        PlanningContextManager {
            last_hash: None,
            version: 0,
            token_budget: if token_budget < 1 {
                1
            } else {
                token_budget
            },
        }
    }
}

} // verus!
