//! Recursive-descent parser: turns the token sequence into a typed
//! syntax tree with one optional top-level comparison.
//!
//! Grammar, highest precedence first:
//! ```text
//! primary    := Number | dice | '(' arithmetic ')'
//! dice       := Number? 'd' Number filter?      (omitted count: 1 die)
//! filter     := ('kh' | 'kl' | 'dh' | 'dl') Number
//! term       := primary (('*' | '/') primary)*  (left-associative)
//! arithmetic := term (('+' | '-') term)*        (left-associative)
//! input      := arithmetic (comparison arithmetic)?
//! ```
//! The mathematical model is `spec_parse` and the `parse_*` specification
//! functions below; the executable parser is proved to return exactly
//! their result, so the tree is a pure function of the tokens.

use vstd::prelude::*;

use crate::ast::{
    ComparisonExpression, DiceExpression, DiceFilter, MathExpression, ParseError,
    ParsedExpression, ValueExpr,
};
use crate::lexer::LexedExpression;
use crate::token::{ComparisonOperator, DiceFilterKind, MathOperator, Token, TokenKind};

verus! {

/// The offset reported for an error at the end of a token range: the end
/// offset of the token just before it, or 0 when the range is empty.
pub open spec fn eof_offset(toks: Seq<Token>, end: int) -> usize {
    if end <= 0 {
        0
    } else {
        toks[end - 1].end
    }
}

/// The position a sub-parser hands to the next one, clamped into the
/// range `[i + 1, end]`. Every parser in fact advances and stays within
/// bounds, so the clamping never alters a result; it only makes the
/// termination of the mutually recursive definitions evident.
pub open spec fn clamped_next(i: int, j: int, end: int) -> int {
    if i + 1 > end {
        end
    } else if j <= i {
        i + 1
    } else if j > end {
        end
    } else {
        j
    }
}

/// Parse a dice term whose `d` token sits at `dpos`, with `count` dice:
/// the sides must follow as a number, then optionally a filter and its
/// number. Returns the node and the position just past it.
pub open spec fn parse_dice(toks: Seq<Token>, end: int, count: u64, dpos: int) -> Result<
    (ValueExpr, int),
    ParseError,
> {
    if dpos + 1 < end && toks[dpos + 1].kind is Number {
        let sides = match toks[dpos + 1].kind {
            TokenKind::Number(n) => n,
            _ => 0,
        };
        if dpos + 2 < end && toks[dpos + 2].kind is Filter {
            let fkind = match toks[dpos + 2].kind {
                TokenKind::Filter(k) => k,
                _ => DiceFilterKind::KeepHighest,
            };
            if dpos + 3 < end && toks[dpos + 3].kind is Number {
                let fcount = match toks[dpos + 3].kind {
                    TokenKind::Number(n) => n,
                    _ => 0,
                };
                Ok(
                    (
                        ValueExpr::Dice(
                            DiceExpression {
                                count,
                                sides,
                                filter: Some(DiceFilter { kind: fkind, count: fcount }),
                            },
                        ),
                        dpos + 4,
                    ),
                )
            } else if dpos + 3 < end {
                Err(ParseError::UnexpectedToken { position: toks[dpos + 3].start })
            } else {
                Err(ParseError::UnexpectedToken { position: eof_offset(toks, end) })
            }
        } else {
            Ok((ValueExpr::Dice(DiceExpression { count, sides, filter: None }), dpos + 2))
        }
    } else if dpos + 1 < end {
        Err(ParseError::UnexpectedToken { position: toks[dpos + 1].start })
    } else {
        Err(ParseError::UnexpectedToken { position: eof_offset(toks, end) })
    }
}

/// Parse one primary: a literal, a dice term, or a parenthesized group.
pub open spec fn parse_primary(toks: Seq<Token>, i: int, end: int) -> Result<
    (ValueExpr, int),
    ParseError,
>
    decreases end - i, 1int,
    when 0 <= i <= end <= toks.len()
{
    if i >= end {
        Err(ParseError::UnexpectedToken { position: eof_offset(toks, end) })
    } else {
        match toks[i].kind {
            TokenKind::Number(n) => {
                if i + 1 < end && toks[i + 1].kind is Dice {
                    parse_dice(toks, end, n, i + 1)
                } else {
                    Ok((ValueExpr::Literal(n), i + 1))
                }
            },
            TokenKind::Dice => parse_dice(toks, end, 1u64, i),
            TokenKind::LeftParen => {
                match parse_arithmetic(toks, i + 1, end) {
                    Ok((inner, j)) => {
                        if 0 <= j < end && toks[j].kind is RightParen {
                            Ok((ValueExpr::Parenthesized(Box::new(inner)), j + 1))
                        } else {
                            Err(ParseError::UnmatchedParenthesis { position: toks[i].start })
                        }
                    },
                    Err(e) => Err(e),
                }
            },
            TokenKind::Math(op) => {
                if op is Plus || op is Minus {
                    Err(ParseError::ConsecutiveAddOperators { position: toks[i].start })
                } else {
                    Err(ParseError::UnexpectedToken { position: toks[i].start })
                }
            },
            _ => Err(ParseError::UnexpectedToken { position: toks[i].start }),
        }
    }
}

/// A left-associative binary node over the accumulated left operand.
pub open spec fn math_node(acc: ValueExpr, op: MathOperator, rhs: ValueExpr) -> ValueExpr {
    ValueExpr::Math(Box::new(MathExpression { operator: op, lhs: acc, rhs }))
}

/// Fold further `*` and `/` operators onto `acc`.
pub open spec fn parse_term_rest(toks: Seq<Token>, acc: ValueExpr, i: int, end: int) -> Result<
    (ValueExpr, int),
    ParseError,
>
    decreases end - i, 0int,
    when 0 <= i <= end <= toks.len()
{
    if i < end && toks[i].kind is Math {
        let op = match toks[i].kind {
            TokenKind::Math(o) => o,
            _ => MathOperator::Plus,
        };
        if op is Times || op is Divide {
            match parse_primary(toks, i + 1, end) {
                Ok((rhs, j)) => parse_term_rest(
                    toks,
                    math_node(acc, op, rhs),
                    clamped_next(i + 1, j, end),
                    end,
                ),
                Err(e) => Err(e),
            }
        } else {
            Ok((acc, i))
        }
    } else {
        Ok((acc, i))
    }
}

/// Parse one term: a primary followed by any `*`/`/` chain.
pub open spec fn parse_term(toks: Seq<Token>, i: int, end: int) -> Result<
    (ValueExpr, int),
    ParseError,
>
    decreases end - i, 2int,
    when 0 <= i <= end <= toks.len()
{
    match parse_primary(toks, i, end) {
        Ok((v, j)) => parse_term_rest(toks, v, clamped_next(i, j, end), end),
        Err(e) => Err(e),
    }
}

/// Fold further `+` and `-` operators onto `acc`.
pub open spec fn parse_arithmetic_rest(
    toks: Seq<Token>,
    acc: ValueExpr,
    i: int,
    end: int,
) -> Result<(ValueExpr, int), ParseError>
    decreases end - i, 0int,
    when 0 <= i <= end <= toks.len()
{
    if i < end && toks[i].kind is Math {
        let op = match toks[i].kind {
            TokenKind::Math(o) => o,
            _ => MathOperator::Plus,
        };
        if op is Plus || op is Minus {
            match parse_term(toks, i + 1, end) {
                Ok((rhs, j)) => parse_arithmetic_rest(
                    toks,
                    math_node(acc, op, rhs),
                    clamped_next(i + 1, j, end),
                    end,
                ),
                Err(e) => Err(e),
            }
        } else {
            Ok((acc, i))
        }
    } else {
        Ok((acc, i))
    }
}

/// Parse one arithmetic expression: a term followed by any `+`/`-` chain.
pub open spec fn parse_arithmetic(toks: Seq<Token>, i: int, end: int) -> Result<
    (ValueExpr, int),
    ParseError,
>
    decreases end - i, 3int,
    when 0 <= i <= end <= toks.len()
{
    match parse_term(toks, i, end) {
        Ok((v, j)) => parse_arithmetic_rest(toks, v, clamped_next(i, j, end), end),
        Err(e) => Err(e),
    }
}

/// Parse the token range `[i, end)` as one complete arithmetic
/// expression; anything left over is an `UnexpectedToken` error.
pub open spec fn parse_value_range(toks: Seq<Token>, i: int, end: int) -> Result<
    ValueExpr,
    ParseError,
> {
    match parse_arithmetic(toks, i, end) {
        Ok((v, j)) => {
            if j == end {
                Ok(v)
            } else if 0 <= j < end {
                Err(ParseError::UnexpectedToken { position: toks[j].start })
            } else {
                Err(ParseError::UnexpectedToken { position: 0 })
            }
        },
        Err(e) => Err(e),
    }
}

/// The index of the first comparison token at or after `i`, or the
/// sequence's length when there is none.
pub open spec fn first_cmp_index(toks: Seq<Token>, i: int) -> int
    decreases toks.len() - i,
    when 0 <= i <= toks.len()
{
    if i >= toks.len() {
        i
    } else if toks[i].kind is Compare {
        i
    } else {
        first_cmp_index(toks, i + 1)
    }
}

/// Parse a whole token sequence: split at the single allowed comparison
/// operator (the right half is parsed first, as errors there take
/// precedence), or parse everything as one arithmetic expression.
pub open spec fn spec_parse(toks: Seq<Token>) -> Result<ParsedExpression, ParseError> {
    let n = toks.len() as int;
    let c1 = first_cmp_index(toks, 0);
    if c1 >= n {
        match parse_value_range(toks, 0, n) {
            Ok(v) => Ok(ParsedExpression::Value(v)),
            Err(e) => Err(e),
        }
    } else {
        let c2 = first_cmp_index(toks, c1 + 1);
        if c2 < n {
            Err(ParseError::ExtraComparisonOperator { position: toks[c2].start })
        } else {
            match parse_value_range(toks, c1 + 1, n) {
                Err(e) => Err(e),
                Ok(rhs) => match parse_value_range(toks, 0, c1) {
                    Err(e) => Err(e),
                    Ok(lhs) => Ok(
                        ParsedExpression::Comparison(
                            ComparisonExpression {
                                operator: match toks[c1].kind {
                                    TokenKind::Compare(op) => op,
                                    _ => ComparisonOperator::Equals,
                                },
                                lhs,
                                rhs,
                            },
                        ),
                    ),
                },
            }
        }
    }
}

/// The executable step result equals the specification's: same tree,
/// same next position, or the same error.
pub open spec fn step_matches(
    r: Result<(ValueExpr, usize), ParseError>,
    s: Result<(ValueExpr, int), ParseError>,
) -> bool {
    match (r, s) {
        (Ok((v, j)), Ok((sv, sj))) => v == sv && j == sj,
        (Err(e), Err(se)) => e == se,
        _ => false,
    }
}

/// The executable whole-range result equals the specification's.
pub open spec fn tree_matches(
    r: Result<ValueExpr, ParseError>,
    s: Result<ValueExpr, ParseError>,
) -> bool {
    match (r, s) {
        (Ok(v), Ok(sv)) => v == sv,
        (Err(e), Err(se)) => e == se,
        _ => false,
    }
}

fn exec_eof_offset(toks: &Vec<Token>, end: usize) -> (r: usize)
    requires
        end <= toks@.len(),
    ensures
        r == eof_offset(toks@, end as int),
{
    if end == 0 {
        0
    } else {
        toks[end - 1].end
    }
}

fn exec_dice(toks: &Vec<Token>, end: usize, count: u64, dpos: usize) -> (r: Result<
    (ValueExpr, usize),
    ParseError,
>)
    requires
        dpos < end <= toks@.len(),
    ensures
        step_matches(r, parse_dice(toks@, end as int, count, dpos as int)),
        r matches Ok((_, j)) ==> dpos < j <= end,
{
    if dpos + 1 < end {
        match toks[dpos + 1].kind {
            TokenKind::Number(sides) => {
                if dpos + 2 < end {
                    match toks[dpos + 2].kind {
                        TokenKind::Filter(fkind) => {
                            if dpos + 3 < end {
                                match toks[dpos + 3].kind {
                                    TokenKind::Number(fcount) => Ok(
                                        (
                                            ValueExpr::Dice(
                                                DiceExpression {
                                                    count,
                                                    sides,
                                                    filter: Some(
                                                        DiceFilter { kind: fkind, count: fcount },
                                                    ),
                                                },
                                            ),
                                            dpos + 4,
                                        ),
                                    ),
                                    _ => Err(
                                        ParseError::UnexpectedToken {
                                            position: toks[dpos + 3].start,
                                        },
                                    ),
                                }
                            } else {
                                Err(
                                    ParseError::UnexpectedToken {
                                        position: exec_eof_offset(toks, end),
                                    },
                                )
                            }
                        },
                        _ => Ok(
                            (
                                ValueExpr::Dice(DiceExpression { count, sides, filter: None }),
                                dpos + 2,
                            ),
                        ),
                    }
                } else {
                    Ok((ValueExpr::Dice(DiceExpression { count, sides, filter: None }), dpos + 2))
                }
            },
            _ => Err(ParseError::UnexpectedToken { position: toks[dpos + 1].start }),
        }
    } else {
        Err(ParseError::UnexpectedToken { position: exec_eof_offset(toks, end) })
    }
}

fn exec_primary(toks: &Vec<Token>, i: usize, end: usize) -> (r: Result<
    (ValueExpr, usize),
    ParseError,
>)
    requires
        i <= end <= toks@.len(),
    ensures
        step_matches(r, parse_primary(toks@, i as int, end as int)),
        r matches Ok((_, j)) ==> i < j <= end,
    decreases end - i, 1int,
{
    if i >= end {
        Err(ParseError::UnexpectedToken { position: exec_eof_offset(toks, end) })
    } else {
        match toks[i].kind {
            TokenKind::Number(n) => {
                if i + 1 < end {
                    match toks[i + 1].kind {
                        TokenKind::Dice => exec_dice(toks, end, n, i + 1),
                        _ => Ok((ValueExpr::Literal(n), i + 1)),
                    }
                } else {
                    Ok((ValueExpr::Literal(n), i + 1))
                }
            },
            TokenKind::Dice => exec_dice(toks, end, 1, i),
            TokenKind::LeftParen => {
                match exec_arithmetic(toks, i + 1, end) {
                    Ok((inner, j)) => {
                        if j < end {
                            match toks[j].kind {
                                TokenKind::RightParen => Ok(
                                    (ValueExpr::Parenthesized(Box::new(inner)), j + 1),
                                ),
                                _ => Err(
                                    ParseError::UnmatchedParenthesis { position: toks[i].start },
                                ),
                            }
                        } else {
                            Err(ParseError::UnmatchedParenthesis { position: toks[i].start })
                        }
                    },
                    Err(e) => Err(e),
                }
            },
            TokenKind::Math(op) => {
                match op {
                    MathOperator::Plus => Err(
                        ParseError::ConsecutiveAddOperators { position: toks[i].start },
                    ),
                    MathOperator::Minus => Err(
                        ParseError::ConsecutiveAddOperators { position: toks[i].start },
                    ),
                    _ => Err(ParseError::UnexpectedToken { position: toks[i].start }),
                }
            },
            _ => Err(ParseError::UnexpectedToken { position: toks[i].start }),
        }
    }
}

fn exec_term_rest(toks: &Vec<Token>, acc: ValueExpr, i: usize, end: usize) -> (r: Result<
    (ValueExpr, usize),
    ParseError,
>)
    requires
        i <= end <= toks@.len(),
    ensures
        step_matches(r, parse_term_rest(toks@, acc, i as int, end as int)),
        r matches Ok((_, j)) ==> i <= j <= end,
    decreases end - i, 0int,
{
    if i < end {
        match toks[i].kind {
            TokenKind::Math(op) => {
                let is_muldiv = match op {
                    MathOperator::Times => true,
                    MathOperator::Divide => true,
                    _ => false,
                };
                if is_muldiv {
                    match exec_primary(toks, i + 1, end) {
                        Ok((rhs, j)) => {
                            proof {
                                assert(clamped_next(i as int + 1, j as int, end as int)
                                    == j as int);
                            }
                            exec_term_rest(
                                toks,
                                ValueExpr::Math(
                                    Box::new(MathExpression { operator: op, lhs: acc, rhs }),
                                ),
                                j,
                                end,
                            )
                        },
                        Err(e) => Err(e),
                    }
                } else {
                    Ok((acc, i))
                }
            },
            _ => Ok((acc, i)),
        }
    } else {
        Ok((acc, i))
    }
}

fn exec_term(toks: &Vec<Token>, i: usize, end: usize) -> (r: Result<
    (ValueExpr, usize),
    ParseError,
>)
    requires
        i <= end <= toks@.len(),
    ensures
        step_matches(r, parse_term(toks@, i as int, end as int)),
        r matches Ok((_, j)) ==> i < j <= end,
    decreases end - i, 2int,
{
    match exec_primary(toks, i, end) {
        Ok((v, j)) => {
            proof {
                assert(clamped_next(i as int, j as int, end as int) == j as int);
            }
            exec_term_rest(toks, v, j, end)
        },
        Err(e) => Err(e),
    }
}

fn exec_arithmetic_rest(toks: &Vec<Token>, acc: ValueExpr, i: usize, end: usize) -> (r: Result<
    (ValueExpr, usize),
    ParseError,
>)
    requires
        i <= end <= toks@.len(),
    ensures
        step_matches(r, parse_arithmetic_rest(toks@, acc, i as int, end as int)),
        r matches Ok((_, j)) ==> i <= j <= end,
    decreases end - i, 0int,
{
    if i < end {
        match toks[i].kind {
            TokenKind::Math(op) => {
                let is_addsub = match op {
                    MathOperator::Plus => true,
                    MathOperator::Minus => true,
                    _ => false,
                };
                if is_addsub {
                    match exec_term(toks, i + 1, end) {
                        Ok((rhs, j)) => {
                            proof {
                                assert(clamped_next(i as int + 1, j as int, end as int)
                                    == j as int);
                            }
                            exec_arithmetic_rest(
                                toks,
                                ValueExpr::Math(
                                    Box::new(MathExpression { operator: op, lhs: acc, rhs }),
                                ),
                                j,
                                end,
                            )
                        },
                        Err(e) => Err(e),
                    }
                } else {
                    Ok((acc, i))
                }
            },
            _ => Ok((acc, i)),
        }
    } else {
        Ok((acc, i))
    }
}

fn exec_arithmetic(toks: &Vec<Token>, i: usize, end: usize) -> (r: Result<
    (ValueExpr, usize),
    ParseError,
>)
    requires
        i <= end <= toks@.len(),
    ensures
        step_matches(r, parse_arithmetic(toks@, i as int, end as int)),
        r matches Ok((_, j)) ==> i < j <= end,
    decreases end - i, 3int,
{
    match exec_term(toks, i, end) {
        Ok((v, j)) => {
            proof {
                assert(clamped_next(i as int, j as int, end as int) == j as int);
            }
            exec_arithmetic_rest(toks, v, j, end)
        },
        Err(e) => Err(e),
    }
}

fn exec_value_range(toks: &Vec<Token>, i: usize, end: usize) -> (r: Result<ValueExpr, ParseError>)
    requires
        i <= end <= toks@.len(),
    ensures
        tree_matches(r, parse_value_range(toks@, i as int, end as int)),
{
    match exec_arithmetic(toks, i, end) {
        Ok((v, j)) => {
            if j == end {
                Ok(v)
            } else {
                Err(ParseError::UnexpectedToken { position: toks[j].start })
            }
        },
        Err(e) => Err(e),
    }
}

proof fn lemma_first_cmp_skip(toks: Seq<Token>, i: int, j: int)
    requires
        0 <= i <= j <= toks.len(),
        forall|k: int| i <= k < j ==> !(toks[k].kind is Compare),
    ensures
        first_cmp_index(toks, i) == first_cmp_index(toks, j),
    decreases j - i,
{
    if i < j {
        lemma_first_cmp_skip(toks, i + 1, j);
    }
}

/// Parse a tokenized expression into its syntax tree, or fail with the
/// first grammar violation. The result is exactly `spec_parse(tokens@)`:
/// at most one comparison operator is allowed, and when one is present it
/// becomes the outermost node, its right half parsed before its left.
pub fn parse(tokens: LexedExpression) -> (r: Result<ParsedExpression, ParseError>)
    ensures
        r == spec_parse(tokens@),
{
    let toks = &tokens.tokens;
    let n = toks.len();
    let mut cmp_at: usize = n;
    let mut idx: usize = 0;
    while idx < n
        invariant
            tokens@ == toks@,
            n == toks@.len(),
            idx <= n,
            cmp_at <= n,
            cmp_at == n ==> forall|k: int| 0 <= k < idx ==> !(toks@[k].kind is Compare),
            cmp_at < n ==> cmp_at < idx && toks@[cmp_at as int].kind is Compare && (forall|k: int|
                0 <= k < cmp_at ==> !(toks@[k].kind is Compare)) && (forall|k: int|
                cmp_at < k < idx ==> !(toks@[k].kind is Compare)),
        decreases n - idx,
    {
        if toks[idx].is_comparison_operator() {
            if cmp_at == n {
                cmp_at = idx;
            } else {
                proof {
                    lemma_first_cmp_skip(toks@, 0, cmp_at as int);
                    lemma_first_cmp_skip(toks@, cmp_at as int + 1, idx as int);
                }
                return Err(ParseError::ExtraComparisonOperator { position: toks[idx].start });
            }
        }
        idx = idx + 1;
    }
    if cmp_at == n {
        proof {
            lemma_first_cmp_skip(toks@, 0, n as int);
        }
        match exec_value_range(toks, 0, n) {
            Ok(v) => Ok(ParsedExpression::Value(v)),
            Err(e) => Err(e),
        }
    } else {
        proof {
            lemma_first_cmp_skip(toks@, 0, cmp_at as int);
            lemma_first_cmp_skip(toks@, cmp_at as int + 1, n as int);
        }
        let op = match toks[cmp_at].kind {
            TokenKind::Compare(op) => op,
            _ => {
                proof {
                    assert(false);
                }
                ComparisonOperator::Equals
            },
        };
        match exec_value_range(toks, cmp_at + 1, n) {
            Err(e) => Err(e),
            Ok(rhs) => {
                match exec_value_range(toks, 0, cmp_at) {
                    Err(e) => Err(e),
                    Ok(lhs) => Ok(
                        ParsedExpression::Comparison(
                            ComparisonExpression { operator: op, lhs, rhs },
                        ),
                    ),
                }
            },
        }
    }
}

/// Parsing is idempotent: the tree is a pure function of the token
/// sequence, so two parses of the same tokens yield structurally
/// identical results.
pub proof fn lemma_parse_deterministic(
    toks: Seq<Token>,
    r1: Result<ParsedExpression, ParseError>,
    r2: Result<ParsedExpression, ParseError>,
)
    requires
        r1 == spec_parse(toks),
        r2 == spec_parse(toks),
    ensures
        r1 == r2,
{
}

} // verus!
