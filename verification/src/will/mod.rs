//! The will: the moves of the search and the certificate of a search.
pub mod perturber;
pub mod tracer;
pub mod dynamics;
pub mod evaluator;
