//! Tokenizer: scans a source string left to right, with one character of
//! lookahead, into a sequence of positioned tokens.
//!
//! The mathematical model is `lex_from`, a recursive specification of the
//! whole scan; `tokenize` is proved to return exactly its result.
//! Whitespace is not ignorable: any character outside the notation
//! alphabet, whitespace included, is an `InvalidCharacter` error, so
//! callers must strip whitespace beforehand.

use vstd::prelude::*;

use crate::token::{ComparisonOperator, DiceFilterKind, MathOperator, Token, TokenKind};

verus! {

/// A lexical error: the single way tokenization can fail.
#[derive(Debug, Clone, Copy, PartialEq, Eq, Structural)]
pub enum LexError {
    /// `character`, found at character offset `position`, is not part of
    /// the dice notation alphabet (or, for `!` and `k`, does not begin a
    /// recognized two-character operator).
    InvalidCharacter { character: char, position: usize },
}

/// An ordered, immutable sequence of tokens, as produced by `tokenize`.
#[derive(Debug, Clone, PartialEq, Eq)]
pub struct LexedExpression {
    pub tokens: Vec<Token>,
}

impl View for LexedExpression {
    type V = Seq<Token>;

    open spec fn view(&self) -> Seq<Token> {
        self.tokens@
    }
}

/// A decimal digit `'0'..='9'`.
pub open spec fn is_digit_char(c: char) -> bool {
    48 <= c as u32 <= 57
}

/// The numeric value of a decimal digit character (0 for non-digits).
pub open spec fn digit_val(c: char) -> nat {
    if is_digit_char(c) {
        (c as u32 - 48) as nat
    } else {
        0
    }
}

/// First position at or after `i` that is past the end or holds a
/// non-digit: the exclusive end of the digit run starting at `i`.
pub open spec fn digit_run_end(s: Seq<char>, i: int) -> int
    decreases s.len() - i,
    when 0 <= i <= s.len()
{
    if i < s.len() && is_digit_char(s[i]) {
        digit_run_end(s, i + 1)
    } else {
        i
    }
}

/// The base-10 value of the digits `s[i..e)`.
pub open spec fn digits_val(s: Seq<char>, i: int, e: int) -> nat
    decreases e - i,
{
    if i >= e {
        0
    } else {
        digits_val(s, i, e - 1) * 10 + digit_val(s[e - 1])
    }
}

/// Clamp a mathematical value into `u64`: a digit run too large for the
/// machine saturates at `u64::MAX` rather than wrapping or failing.
pub open spec fn clamp_u64(n: nat) -> u64 {
    if n > u64::MAX {
        u64::MAX
    } else {
        n as u64
    }
}

pub proof fn lemma_digit_run_end(s: Seq<char>, i: int)
    requires
        0 <= i <= s.len(),
    ensures
        i <= digit_run_end(s, i) <= s.len(),
        forall|k: int| i <= k < digit_run_end(s, i) ==> is_digit_char(s[k]),
        digit_run_end(s, i) == s.len() || !is_digit_char(s[digit_run_end(s, i)]),
        i < s.len() && is_digit_char(s[i]) ==> digit_run_end(s, i) > i,
    decreases s.len() - i,
{
    if i < s.len() && is_digit_char(s[i]) {
        lemma_digit_run_end(s, i + 1);
    }
}

/// The digit run starting at `i` ends exactly where the digits stop.
pub proof fn lemma_digit_run_end_is(s: Seq<char>, i: int, j: int)
    requires
        0 <= i <= j <= s.len(),
        forall|k: int| i <= k < j ==> is_digit_char(s[k]),
        j == s.len() || !is_digit_char(s[j]),
    ensures
        digit_run_end(s, i) == j,
    decreases j - i,
{
    if i < j {
        lemma_digit_run_end_is(s, i + 1, j);
    }
}

/// The tokens lexed from `s[i..]`, or the first lexical error. This is
/// the reference meaning of tokenization; each rule mirrors one scanning
/// step with a single character of lookahead.
pub open spec fn lex_from(s: Seq<char>, i: int) -> Result<Seq<Token>, LexError>
    decreases s.len() - i,
    when 0 <= i <= s.len()
    via lex_from_decreases
{
    if i >= s.len() {
        Ok(Seq::empty())
    } else {
        let c = s[i];
        if is_digit_char(c) {
            let e = digit_run_end(s, i);
            let tok = Token {
                kind: TokenKind::Number(clamp_u64(digits_val(s, i, e))),
                start: i as usize,
                end: (e - 1) as usize,
            };
            lex_prepend(tok, lex_from(s, e))
        } else if c == '!' {
            if i + 1 < s.len() && s[i + 1] == '=' {
                lex_prepend(
                    two_char_token(TokenKind::Compare(ComparisonOperator::NotEquals), i),
                    lex_from(s, i + 2),
                )
            } else {
                Err(LexError::InvalidCharacter { character: c, position: i as usize })
            }
        } else if c == '>' {
            if i + 1 < s.len() && s[i + 1] == '=' {
                lex_prepend(
                    two_char_token(TokenKind::Compare(ComparisonOperator::GreaterEquals), i),
                    lex_from(s, i + 2),
                )
            } else {
                lex_prepend(
                    one_char_token(TokenKind::Compare(ComparisonOperator::Greater), i),
                    lex_from(s, i + 1),
                )
            }
        } else if c == '<' {
            if i + 1 < s.len() && s[i + 1] == '=' {
                lex_prepend(
                    two_char_token(TokenKind::Compare(ComparisonOperator::LessEquals), i),
                    lex_from(s, i + 2),
                )
            } else {
                lex_prepend(
                    one_char_token(TokenKind::Compare(ComparisonOperator::Less), i),
                    lex_from(s, i + 1),
                )
            }
        } else if c == 'k' {
            if i + 1 < s.len() && s[i + 1] == 'h' {
                lex_prepend(
                    two_char_token(TokenKind::Filter(DiceFilterKind::KeepHighest), i),
                    lex_from(s, i + 2),
                )
            } else if i + 1 < s.len() && s[i + 1] == 'l' {
                lex_prepend(
                    two_char_token(TokenKind::Filter(DiceFilterKind::KeepLowest), i),
                    lex_from(s, i + 2),
                )
            } else {
                Err(LexError::InvalidCharacter { character: c, position: i as usize })
            }
        } else if c == 'd' {
            if i + 1 < s.len() && s[i + 1] == 'h' {
                lex_prepend(
                    two_char_token(TokenKind::Filter(DiceFilterKind::DropHighest), i),
                    lex_from(s, i + 2),
                )
            } else if i + 1 < s.len() && s[i + 1] == 'l' {
                lex_prepend(
                    two_char_token(TokenKind::Filter(DiceFilterKind::DropLowest), i),
                    lex_from(s, i + 2),
                )
            } else {
                lex_prepend(one_char_token(TokenKind::Dice, i), lex_from(s, i + 1))
            }
        } else if c == '=' {
            lex_prepend(
                one_char_token(TokenKind::Compare(ComparisonOperator::Equals), i),
                lex_from(s, i + 1),
            )
        } else if c == '+' {
            lex_prepend(
                one_char_token(TokenKind::Math(MathOperator::Plus), i),
                lex_from(s, i + 1),
            )
        } else if c == '-' {
            lex_prepend(
                one_char_token(TokenKind::Math(MathOperator::Minus), i),
                lex_from(s, i + 1),
            )
        } else if c == '*' {
            lex_prepend(
                one_char_token(TokenKind::Math(MathOperator::Times), i),
                lex_from(s, i + 1),
            )
        } else if c == '/' {
            lex_prepend(
                one_char_token(TokenKind::Math(MathOperator::Divide), i),
                lex_from(s, i + 1),
            )
        } else if c == '(' {
            lex_prepend(one_char_token(TokenKind::LeftParen, i), lex_from(s, i + 1))
        } else if c == ')' {
            lex_prepend(one_char_token(TokenKind::RightParen, i), lex_from(s, i + 1))
        } else {
            Err(LexError::InvalidCharacter { character: c, position: i as usize })
        }
    }
}

#[via_fn]
proof fn lex_from_decreases(s: Seq<char>, i: int) {
    lemma_digit_run_end(s, i);
}

/// A token spanning the single character at offset `i`.
pub open spec fn one_char_token(kind: TokenKind, i: int) -> Token {
    Token { kind, start: i as usize, end: i as usize }
}

/// A token spanning the two characters at offsets `i` and `i + 1`.
pub open spec fn two_char_token(kind: TokenKind, i: int) -> Token {
    Token { kind, start: i as usize, end: (i + 1) as usize }
}

/// Prepend a token to the result of lexing the rest of the input.
pub open spec fn lex_prepend(tok: Token, rest: Result<Seq<Token>, LexError>) -> Result<
    Seq<Token>,
    LexError,
> {
    match rest {
        Ok(toks) => Ok(seq![tok] + toks),
        Err(e) => Err(e),
    }
}

/// The base-10 value of a stack of `(offset, digit)` pairs, most
/// significant digit first.
pub open spec fn stack_val(st: Seq<(usize, u8)>) -> nat
    decreases st.len(),
{
    if st.len() == 0 {
        0
    } else {
        stack_val(st.drop_last()) * 10 + st.last().1 as nat
    }
}

impl LexedExpression {
    /// Collapse the scratch buffer of digits accumulated during lexing
    /// into one `Number` token spanning the run, and clear the buffer.
    /// The numeric value saturates at `u64::MAX` when the run is too
    /// large for the machine. Returns `None` when no digits are pending.
    pub fn consume_digitstack(digitstack: &mut Vec<(usize, u8)>) -> (r: Option<Token>)
        ensures
            final(digitstack)@.len() == 0,
            old(digitstack)@.len() == 0 ==> r is None,
            old(digitstack)@.len() > 0 ==> r == Some(
                Token {
                    kind: TokenKind::Number(clamp_u64(stack_val(old(digitstack)@))),
                    start: old(digitstack)@[0].0,
                    end: old(digitstack)@.last().0,
                },
            ),
    {
        if digitstack.len() == 0 {
            return None;
        }
        let mut num_literal: u64 = 0;
        let mut k: usize = 0;
        let n = digitstack.len();
        while k < n
            invariant
                0 <= k <= n,
                n == digitstack@.len(),
                digitstack@ == old(digitstack)@,
                num_literal == clamp_u64(stack_val(digitstack@.subrange(0, k as int))),
            decreases n - k,
        {
            let digit = digitstack[k].1;
            let wide: u128 = (num_literal as u128) * 10 + (digit as u128);
            let next: u64 = if wide > u64::MAX as u128 {
                u64::MAX
            } else {
                wide as u64
            };
            proof {
                let pre = digitstack@.subrange(0, k as int);
                let post = digitstack@.subrange(0, k + 1 as int);
                assert(post.drop_last() =~= pre);
                assert(stack_val(post) == stack_val(pre) * 10 + digit);
                if stack_val(pre) > u64::MAX {
                    assert(stack_val(pre) * 10 >= stack_val(pre)) by (nonlinear_arith)
                        requires stack_val(pre) >= 0;
                }
            }
            num_literal = next;
            k = k + 1;
        }
        proof {
            assert(digitstack@.subrange(0, n as int) =~= digitstack@);
        }
        let start = digitstack[0].0;
        let end = digitstack[n - 1].0;
        digitstack.clear();
        Some(Token { kind: TokenKind::Number(num_literal), start, end })
    }
}

/// The token sequence of a successful tokenization, or its error.
pub open spec fn lex_result_view(r: Result<LexedExpression, LexError>) -> Result<
    Seq<Token>,
    LexError,
> {
    match r {
        Ok(le) => Ok(le@),
        Err(e) => Err(e),
    }
}

/// Tokens already emitted, followed by whatever the rest of the scan yields.
pub open spec fn lex_append(pre: Seq<Token>, rest: Result<Seq<Token>, LexError>) -> Result<
    Seq<Token>,
    LexError,
> {
    match rest {
        Ok(toks) => Ok(pre + toks),
        Err(e) => Err(e),
    }
}

proof fn lemma_lex_append_step(pre: Seq<Token>, tok: Token, rest: Result<Seq<Token>, LexError>)
    ensures
        lex_append(pre, lex_prepend(tok, rest)) == lex_append(pre.push(tok), rest),
{
    match rest {
        Ok(ts) => {
            assert(pre + (seq![tok] + ts) =~= pre.push(tok) + ts);
        },
        Err(_) => {},
    }
}

/// Scan a source string into its token sequence, or fail with the first
/// lexical error. The result is exactly `lex_from(s@, 0)`: tokens come in
/// source order with accurate character offsets, and any unrecognized
/// character (whitespace included) aborts the whole tokenization.
pub fn tokenize(s: &str) -> (r: Result<LexedExpression, LexError>)
    ensures
        lex_result_view(r) == lex_from(s@, 0),
        r matches Ok(le) ==> tokens_ordered(le@),
{
    let n = s.unicode_len();
    let mut tokens: Vec<Token> = Vec::new();
    let mut digitstack: Vec<(usize, u8)> = Vec::new();
    let mut i: usize = 0;
    while i < n
        invariant
            n == s@.len(),
            i <= n,
            digitstack@.len() == 0,
            lex_from(s@, 0) == lex_append(tokens@, lex_from(s@, i as int)),
        decreases n - i,
    {
        let c = s.get_char(i);
        let cu = c as u32;
        let has_next = i + 1 < n;
        let c2 = if has_next {
            s.get_char(i + 1)
        } else {
            c
        };
        let tok: Token;
        let next_i: usize;
        if 48 <= cu && cu <= 57 {
            let mut j: usize = i;
            while j < n
                invariant_except_break
                    n == s@.len(),
                    i <= j <= n,
                    digitstack@.len() == j - i,
                    forall|k: int| i <= k < j ==> is_digit_char(s@[k]),
                    forall|idx: int|
                        0 <= idx < digitstack@.len() ==> digitstack@[idx].0 == i + idx,
                    digitstack@.len() > 0 ==> digitstack@.last().0 == j - 1,
                    stack_val(digitstack@) == digits_val(s@, i as int, j as int),
                ensures
                    n == s@.len(),
                    i <= j <= n,
                    digitstack@.len() == j - i,
                    forall|k: int| i <= k < j ==> is_digit_char(s@[k]),
                    forall|idx: int|
                        0 <= idx < digitstack@.len() ==> digitstack@[idx].0 == i + idx,
                    digitstack@.len() > 0 ==> digitstack@.last().0 == j - 1,
                    stack_val(digitstack@) == digits_val(s@, i as int, j as int),
                    j == n || !is_digit_char(s@[j as int]),
                decreases n - j,
            {
                let cj = s.get_char(j);
                let cju = cj as u32;
                if !(48 <= cju && cju <= 57) {
                    break;
                }
                proof {
                    let pre = digitstack@;
                    let post = digitstack@.push((j, (cju - 48) as u8));
                    assert(post.drop_last() =~= pre);
                }
                digitstack.push((j, (cju - 48) as u8));
                j = j + 1;
            }
            proof {
                lemma_digit_run_end_is(s@, i as int, j as int);
            }
            let tok_opt = LexedExpression::consume_digitstack(&mut digitstack);
            match tok_opt {
                Some(t) => {
                    tok = t;
                },
                None => {
                    proof {
                        assert(false);
                    }
                    tok = Token { kind: TokenKind::Dice, start: 0, end: 0 };
                },
            }
            next_i = j;
        } else if c == '!' {
            if has_next && c2 == '=' {
                tok = Token {
                    kind: TokenKind::Compare(ComparisonOperator::NotEquals),
                    start: i,
                    end: i + 1,
                };
                next_i = i + 2;
            } else {
                return Err(LexError::InvalidCharacter { character: c, position: i });
            }
        } else if c == '>' {
            if has_next && c2 == '=' {
                tok = Token {
                    kind: TokenKind::Compare(ComparisonOperator::GreaterEquals),
                    start: i,
                    end: i + 1,
                };
                next_i = i + 2;
            } else {
                tok = Token { kind: TokenKind::Compare(ComparisonOperator::Greater), start: i, end: i };
                next_i = i + 1;
            }
        } else if c == '<' {
            if has_next && c2 == '=' {
                tok = Token {
                    kind: TokenKind::Compare(ComparisonOperator::LessEquals),
                    start: i,
                    end: i + 1,
                };
                next_i = i + 2;
            } else {
                tok = Token { kind: TokenKind::Compare(ComparisonOperator::Less), start: i, end: i };
                next_i = i + 1;
            }
        } else if c == 'k' {
            if has_next && c2 == 'h' {
                tok = Token {
                    kind: TokenKind::Filter(DiceFilterKind::KeepHighest),
                    start: i,
                    end: i + 1,
                };
                next_i = i + 2;
            } else if has_next && c2 == 'l' {
                tok = Token {
                    kind: TokenKind::Filter(DiceFilterKind::KeepLowest),
                    start: i,
                    end: i + 1,
                };
                next_i = i + 2;
            } else {
                return Err(LexError::InvalidCharacter { character: c, position: i });
            }
        } else if c == 'd' {
            if has_next && c2 == 'h' {
                tok = Token {
                    kind: TokenKind::Filter(DiceFilterKind::DropHighest),
                    start: i,
                    end: i + 1,
                };
                next_i = i + 2;
            } else if has_next && c2 == 'l' {
                tok = Token {
                    kind: TokenKind::Filter(DiceFilterKind::DropLowest),
                    start: i,
                    end: i + 1,
                };
                next_i = i + 2;
            } else {
                tok = Token { kind: TokenKind::Dice, start: i, end: i };
                next_i = i + 1;
            }
        } else if c == '=' {
            tok = Token { kind: TokenKind::Compare(ComparisonOperator::Equals), start: i, end: i };
            next_i = i + 1;
        } else if c == '+' {
            tok = Token { kind: TokenKind::Math(MathOperator::Plus), start: i, end: i };
            next_i = i + 1;
        } else if c == '-' {
            tok = Token { kind: TokenKind::Math(MathOperator::Minus), start: i, end: i };
            next_i = i + 1;
        } else if c == '*' {
            tok = Token { kind: TokenKind::Math(MathOperator::Times), start: i, end: i };
            next_i = i + 1;
        } else if c == '/' {
            tok = Token { kind: TokenKind::Math(MathOperator::Divide), start: i, end: i };
            next_i = i + 1;
        } else if c == '(' {
            tok = Token { kind: TokenKind::LeftParen, start: i, end: i };
            next_i = i + 1;
        } else if c == ')' {
            tok = Token { kind: TokenKind::RightParen, start: i, end: i };
            next_i = i + 1;
        } else {
            return Err(LexError::InvalidCharacter { character: c, position: i });
        }
        proof {
            assert(lex_from(s@, i as int) == lex_prepend(tok, lex_from(s@, next_i as int)));
            lemma_lex_append_step(tokens@, tok, lex_from(s@, next_i as int));
        }
        tokens.push(tok);
        i = next_i;
    }
    proof {
        assert(tokens@ + Seq::<Token>::empty() =~= tokens@);
        lemma_tokens_ordered(s@, 0, tokens@);
    }
    Ok(LexedExpression { tokens })
}

/// Tokens stand in left-to-right source order: each token's span is
/// well-formed and ends strictly before the next token's span begins, so
/// no two different tokens overlap.
pub open spec fn tokens_ordered(toks: Seq<Token>) -> bool {
    &&& forall|k: int| 0 <= k < toks.len() ==> (#[trigger] toks[k]).start <= toks[k].end
    &&& forall|k1: int, k2: int|
        0 <= k1 < k2 < toks.len() ==> (#[trigger] toks[k1]).end < (#[trigger] toks[k2]).start
}

/// Successful tokenization produces tokens in source order with
/// monotonically increasing, non-overlapping spans, all within the input
/// scanned from position `i`.
pub proof fn lemma_tokens_ordered(s: Seq<char>, i: int, toks: Seq<Token>)
    requires
        0 <= i <= s.len() <= usize::MAX,
        lex_from(s, i) == Ok::<Seq<Token>, LexError>(toks),
    ensures
        tokens_ordered(toks),
        forall|k: int| 0 <= k < toks.len() ==> i <= (#[trigger] toks[k]).start && toks[k].end
            < s.len(),
    decreases s.len() - i, 0int,
{
    if i >= s.len() {
        // no tokens at all
    } else {
        let c = s[i];
        if is_digit_char(c) {
            lemma_digit_run_end(s, i);
            let e = digit_run_end(s, i);
            let tok = Token {
                kind: TokenKind::Number(clamp_u64(digits_val(s, i, e))),
                start: i as usize,
                end: (e - 1) as usize,
            };
            lemma_tokens_step(s, i, toks, tok, e);
        } else if c == '!' {
            if i + 1 < s.len() && s[i + 1] == '=' {
                lemma_tokens_step(
                    s,
                    i,
                    toks,
                    two_char_token(TokenKind::Compare(ComparisonOperator::NotEquals), i),
                    i + 2,
                );
            }
        } else if c == '>' {
            if i + 1 < s.len() && s[i + 1] == '=' {
                lemma_tokens_step(
                    s,
                    i,
                    toks,
                    two_char_token(TokenKind::Compare(ComparisonOperator::GreaterEquals), i),
                    i + 2,
                );
            } else {
                lemma_tokens_step(
                    s,
                    i,
                    toks,
                    one_char_token(TokenKind::Compare(ComparisonOperator::Greater), i),
                    i + 1,
                );
            }
        } else if c == '<' {
            if i + 1 < s.len() && s[i + 1] == '=' {
                lemma_tokens_step(
                    s,
                    i,
                    toks,
                    two_char_token(TokenKind::Compare(ComparisonOperator::LessEquals), i),
                    i + 2,
                );
            } else {
                lemma_tokens_step(
                    s,
                    i,
                    toks,
                    one_char_token(TokenKind::Compare(ComparisonOperator::Less), i),
                    i + 1,
                );
            }
        } else if c == 'k' {
            if i + 1 < s.len() && s[i + 1] == 'h' {
                lemma_tokens_step(
                    s,
                    i,
                    toks,
                    two_char_token(TokenKind::Filter(DiceFilterKind::KeepHighest), i),
                    i + 2,
                );
            } else if i + 1 < s.len() && s[i + 1] == 'l' {
                lemma_tokens_step(
                    s,
                    i,
                    toks,
                    two_char_token(TokenKind::Filter(DiceFilterKind::KeepLowest), i),
                    i + 2,
                );
            }
        } else if c == 'd' {
            if i + 1 < s.len() && s[i + 1] == 'h' {
                lemma_tokens_step(
                    s,
                    i,
                    toks,
                    two_char_token(TokenKind::Filter(DiceFilterKind::DropHighest), i),
                    i + 2,
                );
            } else if i + 1 < s.len() && s[i + 1] == 'l' {
                lemma_tokens_step(
                    s,
                    i,
                    toks,
                    two_char_token(TokenKind::Filter(DiceFilterKind::DropLowest), i),
                    i + 2,
                );
            } else {
                lemma_tokens_step(s, i, toks, one_char_token(TokenKind::Dice, i), i + 1);
            }
        } else if c == '=' {
            lemma_tokens_step(
                s,
                i,
                toks,
                one_char_token(TokenKind::Compare(ComparisonOperator::Equals), i),
                i + 1,
            );
        } else if c == '+' {
            lemma_tokens_step(
                s,
                i,
                toks,
                one_char_token(TokenKind::Math(MathOperator::Plus), i),
                i + 1,
            );
        } else if c == '-' {
            lemma_tokens_step(
                s,
                i,
                toks,
                one_char_token(TokenKind::Math(MathOperator::Minus), i),
                i + 1,
            );
        } else if c == '*' {
            lemma_tokens_step(
                s,
                i,
                toks,
                one_char_token(TokenKind::Math(MathOperator::Times), i),
                i + 1,
            );
        } else if c == '/' {
            lemma_tokens_step(
                s,
                i,
                toks,
                one_char_token(TokenKind::Math(MathOperator::Divide), i),
                i + 1,
            );
        } else if c == '(' {
            lemma_tokens_step(s, i, toks, one_char_token(TokenKind::LeftParen, i), i + 1);
        } else if c == ')' {
            lemma_tokens_step(s, i, toks, one_char_token(TokenKind::RightParen, i), i + 1);
        }
    }
}

/// Ordering is preserved when one token whose span ends before `next`
/// is put in front of an ordered tail whose spans all start at or after
/// `next`.
proof fn lemma_ordered_cons(tok: Token, rest: Seq<Token>, i: int, next: int, slen: int)
    requires
        tokens_ordered(rest),
        forall|k: int| 0 <= k < rest.len() ==> next <= (#[trigger] rest[k]).start && rest[k].end
            < slen,
        i <= tok.start <= tok.end < next <= slen,
    ensures
        tokens_ordered(seq![tok] + rest),
        forall|k: int| 0 <= k < (seq![tok] + rest).len() ==> i <= (#[trigger] (seq![tok]
            + rest)[k]).start && (seq![tok] + rest)[k].end < slen,
{
    let toks = seq![tok] + rest;
    assert forall|k: int| 0 <= k < toks.len() implies i <= (#[trigger] toks[k]).start
        && toks[k].start <= toks[k].end && toks[k].end < slen by {
        if k > 0 {
            assert(toks[k] == rest[k - 1]);
        }
    }
    assert forall|k1: int, k2: int| 0 <= k1 < k2 < toks.len() implies (#[trigger] toks[k1]).end
        < (#[trigger] toks[k2]).start by {
        assert(toks[k2] == rest[k2 - 1]);
        if k1 > 0 {
            assert(toks[k1] == rest[k1 - 1]);
        }
    }
}

/// Helper for `lemma_tokens_ordered`: one scanning step that emits `tok`
/// and resumes at `next` keeps the whole result ordered.
proof fn lemma_tokens_step(s: Seq<char>, i: int, toks: Seq<Token>, tok: Token, next: int)
    requires
        0 <= i < next <= s.len() <= usize::MAX,
        lex_prepend(tok, lex_from(s, next)) == Ok::<Seq<Token>, LexError>(toks),
        i <= tok.start <= tok.end < next,
    ensures
        tokens_ordered(toks),
        forall|k: int| 0 <= k < toks.len() ==> i <= (#[trigger] toks[k]).start && toks[k].end
            < s.len(),
    decreases s.len() - next, 1int,
{
    match lex_from(s, next) {
        Ok(rest) => {
            lemma_tokens_ordered(s, next, rest);
            lemma_ordered_cons(tok, rest, i, next, s.len() as int);
            assert(toks == seq![tok] + rest);
        },
        Err(_) => {
            assert(false);
        },
    }
}

/// The dice notation alphabet: every character that can begin or continue
/// a token. `k`, `h`, `l` and `!` are in the alphabet but are only valid
/// as part of a two-character operator.
pub open spec fn is_notation_char(c: char) -> bool {
    is_digit_char(c) || c == 'd' || c == 'k' || c == 'h' || c == 'l' || c == '+' || c == '-'
        || c == '*' || c == '/' || c == '(' || c == ')' || c == '=' || c == '!' || c == '>'
        || c == '<'
}

/// A character that always lexes and never consumes the character after
/// it as a second operator half: a digit or one of `d + - * / ( ) = > <`.
pub open spec fn is_safe_prefix_char(c: char) -> bool {
    is_digit_char(c) || c == 'd' || c == '+' || c == '-' || c == '*' || c == '/' || c == '('
        || c == ')' || c == '=' || c == '>' || c == '<'
}

/// A nonempty all-digit input lexes to exactly one `Number` token whose
/// value is the run read in base 10 and whose span covers every digit.
/// (A run whose value exceeds `u64::MAX` saturates instead and is left
/// out here.)
pub proof fn lemma_digit_run_lexes(s: Seq<char>)
    requires
        0 < s.len() <= usize::MAX,
        forall|k: int| 0 <= k < s.len() ==> is_digit_char(s[k]),
        digits_val(s, 0, s.len() as int) <= u64::MAX,
    ensures
        lex_from(s, 0) == Ok::<Seq<Token>, LexError>(
            seq![
                Token {
                    kind: TokenKind::Number(digits_val(s, 0, s.len() as int) as u64),
                    start: 0,
                    end: (s.len() - 1) as usize,
                },
            ],
        ),
{
    lemma_digit_run_end_is(s, 0, s.len() as int);
    let tok = Token {
        kind: TokenKind::Number(digits_val(s, 0, s.len() as int) as u64),
        start: 0,
        end: (s.len() - 1) as usize,
    };
    assert(lex_from(s, s.len() as int) == Ok::<Seq<Token>, LexError>(Seq::empty()));
    assert(seq![tok] + Seq::<Token>::empty() =~= seq![tok]);
}

/// Any input containing a character outside the notation alphabet fails
/// to tokenize: scanning from any position at or before that character
/// ends in an `InvalidCharacter` error.
pub proof fn lemma_invalid_char_fails(s: Seq<char>, i: int, p: int)
    requires
        0 <= i <= p < s.len(),
        !is_notation_char(s[p]),
    ensures
        lex_from(s, i) is Err,
    decreases p - i,
{
    let c = s[i];
    if i == p {
        // every token rule requires a notation character here
    } else if is_digit_char(c) {
        lemma_digit_run_end(s, i);
        let e = digit_run_end(s, i);
        assert(e <= p) by {
            if e > p {
                assert(is_digit_char(s[p]));
            }
        }
        lemma_invalid_char_fails(s, e, p);
    } else if (c == '!' || c == '>' || c == '<') && i + 1 < s.len() && s[i + 1] == '=' {
        assert(i + 1 != p);
        lemma_invalid_char_fails(s, i + 2, p);
    } else if (c == 'k' || c == 'd') && i + 1 < s.len() && (s[i + 1] == 'h' || s[i + 1] == 'l') {
        assert(i + 1 != p);
        lemma_invalid_char_fails(s, i + 2, p);
    } else if c == '>' || c == '<' || c == 'd' || c == '=' || c == '+' || c == '-' || c == '*'
        || c == '/' || c == '(' || c == ')' {
        lemma_invalid_char_fails(s, i + 1, p);
    } else {
        // `!` or `k` without a matching second character, or a character
        // outside the alphabet: an immediate error
    }
}

/// When every character before the first out-of-alphabet character
/// always lexes on its own (no `k`, `h`, `l` or `!` prefix), tokenization
/// fails with `InvalidCharacter` at exactly that character's offset.
pub proof fn lemma_invalid_char_position(s: Seq<char>, i: int, p: int)
    requires
        0 <= i <= p < s.len() <= usize::MAX,
        !is_notation_char(s[p]),
        forall|k: int| i <= k < p ==> is_safe_prefix_char(s[k]),
    ensures
        lex_from(s, i) == Err::<Seq<Token>, LexError>(
            LexError::InvalidCharacter { character: s[p], position: p as usize },
        ),
    decreases p - i,
{
    let c = s[i];
    if i == p {
        // the scan is at the offending character itself
    } else if is_digit_char(c) {
        lemma_digit_run_end(s, i);
        let e = digit_run_end(s, i);
        assert(e <= p) by {
            if e > p {
                assert(is_digit_char(s[p]));
            }
        }
        lemma_invalid_char_position(s, e, p);
    } else if (c == '>' || c == '<') && i + 1 < s.len() && s[i + 1] == '=' {
        assert(i + 1 != p);
        lemma_invalid_char_position(s, i + 2, p);
    } else {
        // every remaining safe character lexes as a single token: `d`
        // cannot start a filter here because `h` and `l` are not safe
        // prefix characters and are in the alphabet
        assert(i + 1 <= p);
        if i + 1 < s.len() && (s[i + 1] == 'h' || s[i + 1] == 'l') {
            assert(i + 1 != p);
            assert(is_safe_prefix_char(s[i + 1]));
            assert(false);
        }
        lemma_invalid_char_position(s, i + 1, p);
    }
}

} // verus!
