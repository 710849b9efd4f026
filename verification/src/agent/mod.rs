//! The agent runner's planning-side logic.
pub mod brain;
pub mod brain_round;
pub mod budget;
pub mod candidates;
pub mod checkpoint_view;
pub mod capabilities;
pub mod context;
pub mod context_view;
pub mod error_state;
pub mod execution_view;
pub mod facts;
pub mod input_normalize;
pub mod input_store;
pub mod intent_context;
pub mod intent_segmented;
pub mod message_compactor;
pub mod missing_input;
pub mod agent_loop;
pub mod planner;
pub mod planning_request;
pub mod segmented_prompt;
pub mod segmented_round;
