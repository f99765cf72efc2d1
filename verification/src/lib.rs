//! A token-curated registry: participants stake tokens to propose entries,
//! vote for or against their admission, and settle the stakes once a
//! proposal is resolved.
//!
//! The registry is a deterministic state machine. Applying a transition to a
//! state yields the next state; a transition that breaks a rule leaves the
//! state as it was.

pub mod identity;
pub mod laws;
pub mod machine;
pub mod proposal;
pub mod rules;
pub mod tally;
pub mod token_map;

pub use identity::{Proposal, User};
pub use machine::{initial_state, StateMachine, Tcr};
pub use proposal::{ProposalMap, ProposalState, Votes};
pub use rules::{Rejection, Transitions};
pub use tally::Tokens;
pub use token_map::TokenMap;
