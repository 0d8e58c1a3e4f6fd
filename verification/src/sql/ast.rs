use vstd::prelude::*;

verus! {

/// The binary operators of the query language: comparisons and the two
/// boolean connectives.
#[derive(Debug, Clone, Copy, PartialEq, Eq, Structural)]
pub enum BinaryOperator {
    Eq,
    Neq,
    Gt,
    Lt,
    Gte,
    Lte,
    And,
    Or,
}

} // verus!
