//! The schema of the Evolver DSL: predicates, constraints and proof actions.
use vstd::prelude::*;

verus! {

/// Logic as energy: the operations on logic matrices.
pub struct LogicMatrix;

/// Basic predicates that can be asserted on a variable.
#[derive(Debug, Clone, Copy, PartialEq, Eq, Structural)]
pub enum Predicate {
    IsOdd,
    IsEven,
    IsPrime,
    IsPositive,
}

/// How the energy of a quantifier is aggregated over a collection.
#[derive(Debug, Clone, Copy, PartialEq, Eq, Structural)]
pub enum AggregationStrategy {
    /// Every violation adds to the total.
    Sum,
    /// The worst offender dominates (softmax).
    LogSumExp,
}

/// The logical rules of the DSL.
#[derive(Debug, Clone)]
pub enum Constraint {
    /// Variable `x` must satisfy the predicate.
    Assert(Predicate, String),
    /// If the first holds, the second must hold.
    AssertImplies(String, String),
    /// Every element of a collection satisfies the predicate.
    AssertForAll { collection: String, predicate: Predicate, strategy: AggregationStrategy },
}

/// The type that a definition gives a symbol.
#[derive(Debug, Clone, Copy, PartialEq, Eq, Structural)]
pub enum LogicType {
    Even,
    Odd,
    Integer,
}

/// The value of a symbol: a one-hot parity vector (`[1, 0]` even, `[0, 1]`
/// odd) or a scalar.
#[derive(Debug, Clone)]
pub enum LogicValue {
    Vector(Vec<u8>),
    Scalar(u8),
}

/// One step of a proof path.
#[derive(Debug, Clone)]
pub enum ProofAction {
    /// Introduces `symbol` with a type.
    Define { symbol: String, value_type: LogicType },
    /// Rewrites `target` by a rule.
    Transform { target: String, rule: String },
    /// Asserts a condition on the symbols defined so far.
    Assert { condition: String },
    /// Does nothing.
    NoOp,
}

} // verus!
