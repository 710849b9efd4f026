//! Building the planner's context within a token budget.
pub mod packing;
pub mod budget_policy;
pub mod budgeter;
pub mod collector;
pub mod prompt_compact;
pub mod projector;
