//! Verified core of an LLM agent runner: provider error handling and
//! fallback chains, context-budget policy, JSON compaction, and the text and
//! bookkeeping logic around planning.
use vstd::prelude::*;

pub mod text;
pub mod json;
pub mod keyed;
pub mod agent;
pub mod llm;
pub mod offchain;

verus! {
}
