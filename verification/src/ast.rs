//! The typed syntax tree built by the parser, and the parser's errors.
//!
//! Each node exclusively owns its children; the tree is built bottom-up
//! and never mutated afterwards.

use vstd::prelude::*;

use crate::token::{ComparisonOperator, DiceFilterKind, MathOperator};

verus! {

/// A parse error, each carrying the character offset it was detected at.
#[derive(Debug, Clone, Copy, PartialEq, Eq, Structural)]
pub enum ParseError {
    /// A second comparison operator: one expression holds at most one
    /// top-level boolean test. The position is the second operator's.
    ExtraComparisonOperator { position: usize },
    /// An additive operator where an operand was expected (`+-`, a
    /// leading `-`): the grammar has no unary plus or minus.
    ConsecutiveAddOperators { position: usize },
    /// A `(` whose group is never closed; the position is the `(`'s.
    UnmatchedParenthesis { position: usize },
    /// Any other token the grammar does not allow at that point, such as
    /// trailing tokens after a complete expression or a `*` missing an
    /// operand. At end of input the position is the last token's end
    /// offset (0 when there are no tokens at all).
    UnexpectedToken { position: usize },
}

/// A keep/drop filter attached to one dice term: which end is kept or
/// dropped, and how many dice.
#[derive(Debug, Clone, Copy, PartialEq, Eq, Structural)]
pub struct DiceFilter {
    pub kind: DiceFilterKind,
    pub count: u64,
}

/// `NdS` with an optional filter: roll `count` dice of `sides` sides.
#[derive(Debug, Clone, Copy, PartialEq, Eq)]
pub struct DiceExpression {
    pub count: u64,
    pub sides: u64,
    pub filter: Option<DiceFilter>,
}

/// A binary arithmetic node; both operands are exclusively owned subtrees.
#[derive(Debug, PartialEq, Eq)]
pub struct MathExpression {
    pub operator: MathOperator,
    pub lhs: ValueExpr,
    pub rhs: ValueExpr,
}

/// An arithmetic/dice expression: one side of a comparison, or the whole
/// input when no comparison is present.
#[derive(Debug, PartialEq, Eq)]
pub enum ValueExpr {
    Literal(u64),
    Dice(DiceExpression),
    Math(Box<MathExpression>),
    Parenthesized(Box<ValueExpr>),
}

/// A top-level boolean test between two arithmetic expressions.
#[derive(Debug, PartialEq, Eq)]
pub struct ComparisonExpression {
    pub operator: ComparisonOperator,
    pub lhs: ValueExpr,
    pub rhs: ValueExpr,
}

/// The parse result: a bare arithmetic expression, or a single comparison
/// as the outermost node.
#[derive(Debug, PartialEq, Eq)]
pub enum ParsedExpression {
    Value(ValueExpr),
    Comparison(ComparisonExpression),
}

} // verus!
