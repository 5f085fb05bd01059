//! Lexical tokens: the unit of output of the tokenizer.
//!
//! A token carries its kind and the inclusive `start`/`end` character
//! offsets it occupies in the source text, used for diagnostics.

use vstd::prelude::*;

verus! {

/// A keep/drop selection rule attached to a dice term.
#[derive(Debug, Clone, Copy, PartialEq, Eq, Structural)]
pub enum DiceFilterKind {
    KeepHighest,
    KeepLowest,
    DropHighest,
    DropLowest,
}

/// An arithmetic operator.
#[derive(Debug, Clone, Copy, PartialEq, Eq, Structural)]
pub enum MathOperator {
    Plus,
    Minus,
    Times,
    Divide,
}

/// A relational operator for the optional top-level comparison.
#[derive(Debug, Clone, Copy, PartialEq, Eq, Structural)]
pub enum ComparisonOperator {
    Equals,
    NotEquals,
    Greater,
    GreaterEquals,
    Less,
    LessEquals,
}

/// The tagged variant of a token.
#[derive(Debug, Clone, Copy, PartialEq, Eq, Structural)]
pub enum TokenKind {
    /// A run of decimal digits, accumulated into one unsigned value.
    Number(u64),
    /// The dice-roll operator `d`.
    Dice,
    /// A two-character keep/drop filter operator: `kh`, `kl`, `dh` or `dl`.
    Filter(DiceFilterKind),
    /// One of `+`, `-`, `*`, `/`.
    Math(MathOperator),
    LeftParen,
    RightParen,
    /// One of `=`, `!=`, `>`, `>=`, `<`, `<=`.
    Compare(ComparisonOperator),
}

/// A positioned token: its kind plus the zero-based character offsets
/// (inclusive on both ends) that it spans in the source string.
#[derive(Debug, Clone, Copy, PartialEq, Eq, Structural)]
pub struct Token {
    pub kind: TokenKind,
    pub start: usize,
    pub end: usize,
}

impl Token {
    /// True exactly when this token is a relational operator; the parser
    /// uses this to split the token stream at the top-level comparison.
    pub fn is_comparison_operator(&self) -> (r: bool)
        ensures
            r == (self.kind is Compare),
    {
        match self.kind {
            TokenKind::Compare(_) => true,
            _ => false,
        }
    }
}

} // verus!
