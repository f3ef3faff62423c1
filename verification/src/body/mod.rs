//! The body: materializes algebraic states as digits and logic actions.
pub mod adapter;
pub mod projection;
