//! Patterns matched against expressions.

use vstd::prelude::*;

use crate::expr::Op;

verus! {

/// What a match may look for.
#[derive(Debug)]
pub enum Pattern {
    /// Matches only the identical literal.
    Const(i64),
    /// Matches any single expression, binding it to the name.
    Var(String),
    /// Binds what remains of an AC operand multiset; stands only as the
    /// last element of an `Op` pattern's list.
    Rest(String),
    /// Matches a binary node positionally, or an AC node by assigning each
    /// sub-pattern an operand of its own.
    Op(Op, Vec<Pattern>),
}

} // verus!
