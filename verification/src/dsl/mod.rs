//! The proof DSL: its schema and the bridge that scores a proof path with an energy.
pub mod schema;
pub mod stp_bridge;
