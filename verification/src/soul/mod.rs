//! The algebraic state space: forms, their class group operations and the
//! number theory that builds a discriminant from a context.
pub mod forms;
pub mod commute;
pub mod algebra;
pub mod primes;
pub mod entropy;
pub mod dynamics;
