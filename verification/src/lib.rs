//! Dice-notation expression language: a tokenizer for expressions such as
//! `20d6kl2+5>=10`, a recursive-descent parser producing a typed syntax
//! tree, and an evaluator that rolls dice against an injected random
//! source, applies keep/drop filters, and reduces arithmetic and an
//! optional top-level comparison.

pub mod token;
pub mod lexer;
pub mod ast;
pub mod parser;
pub mod eval;
