use dice_notation::ast::{
    DiceExpression, DiceFilter, ParseError, ParsedExpression, ValueExpr,
};
use dice_notation::eval::{
    evaluate, CongruentialSource, EvalError, EvalResult, FixedSource, MaximumSource, RandomSource,
};
use dice_notation::lexer::{tokenize, LexError, LexedExpression};
use dice_notation::parser::parse;
use dice_notation::token::{
    ComparisonOperator, DiceFilterKind, MathOperator, Token, TokenKind,
};

fn lex(s: &str) -> LexedExpression {
    tokenize(s).unwrap()
}

fn parsed(s: &str) -> ParsedExpression {
    parse(lex(s)).unwrap()
}

fn eval_with(s: &str, rng: &mut impl RandomSource) -> Result<EvalResult, EvalError> {
    evaluate(&parsed(s), rng)
}

fn eval_max(s: &str) -> Result<EvalResult, EvalError> {
    let mut rng = MaximumSource {};
    eval_with(s, &mut rng)
}

fn eval_fixed(s: &str, values: Vec<u64>) -> Result<EvalResult, EvalError> {
    let mut rng = FixedSource { values, next: 0 };
    eval_with(s, &mut rng)
}

#[test]
fn digit_run_single_number_token() {
    let lexed = lex("123");
    assert_eq!(
        lexed.tokens,
        vec![Token { kind: TokenKind::Number(123), start: 0, end: 2 }]
    );
}

#[test]
fn digit_run_keeps_leading_zeros_value() {
    let lexed = lex("0123");
    assert_eq!(
        lexed.tokens,
        vec![Token { kind: TokenKind::Number(123), start: 0, end: 3 }]
    );
}

#[test]
fn digit_run_saturates_at_u64_max() {
    let lexed = lex("9999999999999999999999999");
    assert_eq!(
        lexed.tokens,
        vec![Token { kind: TokenKind::Number(u64::MAX), start: 0, end: 24 }]
    );
}

#[test]
fn invalid_character_reports_exact_offset() {
    assert_eq!(
        tokenize("2a6"),
        Err(LexError::InvalidCharacter { character: 'a', position: 1 })
    );
}

#[test]
fn whitespace_is_not_ignorable() {
    assert_eq!(
        tokenize("1 2"),
        Err(LexError::InvalidCharacter { character: ' ', position: 1 })
    );
}

#[test]
fn bare_bang_is_invalid() {
    assert_eq!(
        tokenize("1!2"),
        Err(LexError::InvalidCharacter { character: '!', position: 1 })
    );
}

#[test]
fn bare_k_is_invalid() {
    assert_eq!(
        tokenize("k9"),
        Err(LexError::InvalidCharacter { character: 'k', position: 0 })
    );
}

#[test]
fn bare_h_is_invalid() {
    assert_eq!(
        tokenize("5h"),
        Err(LexError::InvalidCharacter { character: 'h', position: 1 })
    );
}

#[test]
fn two_character_operators_span_both_characters() {
    let lexed = lex("1!=2");
    assert_eq!(
        lexed.tokens,
        vec![
            Token { kind: TokenKind::Number(1), start: 0, end: 0 },
            Token { kind: TokenKind::Compare(ComparisonOperator::NotEquals), start: 1, end: 2 },
            Token { kind: TokenKind::Number(2), start: 3, end: 3 },
        ]
    );
    let ge = lex(">=");
    assert_eq!(
        ge.tokens,
        vec![Token { kind: TokenKind::Compare(ComparisonOperator::GreaterEquals), start: 0, end: 1 }]
    );
    let le = lex("<=");
    assert_eq!(
        le.tokens,
        vec![Token { kind: TokenKind::Compare(ComparisonOperator::LessEquals), start: 0, end: 1 }]
    );
}

#[test]
fn filter_operators_lex_as_one_token() {
    let lexed = lex("khkldhdl");
    assert_eq!(
        lexed.tokens,
        vec![
            Token { kind: TokenKind::Filter(DiceFilterKind::KeepHighest), start: 0, end: 1 },
            Token { kind: TokenKind::Filter(DiceFilterKind::KeepLowest), start: 2, end: 3 },
            Token { kind: TokenKind::Filter(DiceFilterKind::DropHighest), start: 4, end: 5 },
            Token { kind: TokenKind::Filter(DiceFilterKind::DropLowest), start: 6, end: 7 },
        ]
    );
}

#[test]
fn single_character_operators_lex() {
    let lexed = lex("+-*/()=><");
    let kinds: Vec<TokenKind> = lexed.tokens.iter().map(|t| t.kind).collect();
    assert_eq!(
        kinds,
        vec![
            TokenKind::Math(MathOperator::Plus),
            TokenKind::Math(MathOperator::Minus),
            TokenKind::Math(MathOperator::Times),
            TokenKind::Math(MathOperator::Divide),
            TokenKind::LeftParen,
            TokenKind::RightParen,
            TokenKind::Compare(ComparisonOperator::Equals),
            TokenKind::Compare(ComparisonOperator::Greater),
            TokenKind::Compare(ComparisonOperator::Less),
        ]
    );
}

#[test]
fn is_comparison_operator_distinguishes_kinds() {
    let cmp = Token { kind: TokenKind::Compare(ComparisonOperator::Less), start: 0, end: 0 };
    let num = Token { kind: TokenKind::Number(4), start: 0, end: 0 };
    assert!(cmp.is_comparison_operator());
    assert!(!num.is_comparison_operator());
}

#[test]
fn consume_digitstack_empty_returns_none() {
    let mut stack: Vec<(usize, u8)> = Vec::new();
    assert_eq!(LexedExpression::consume_digitstack(&mut stack), None);
}

#[test]
fn consume_digitstack_builds_number_and_clears() {
    let mut stack: Vec<(usize, u8)> = vec![(3, 4), (4, 2)];
    let tok = LexedExpression::consume_digitstack(&mut stack);
    assert_eq!(tok, Some(Token { kind: TokenKind::Number(42), start: 3, end: 4 }));
    assert_eq!(stack.len(), 0);
}

#[test]
fn two_d_six_tokenizes() {
    let lexed = lex("2d6");
    assert_eq!(
        lexed.tokens,
        vec![
            Token { kind: TokenKind::Number(2), start: 0, end: 0 },
            Token { kind: TokenKind::Dice, start: 1, end: 1 },
            Token { kind: TokenKind::Number(6), start: 2, end: 2 },
        ]
    );
}

#[test]
fn two_d_six_parses_bare_dice() {
    assert_eq!(
        parsed("2d6"),
        ParsedExpression::Value(ValueExpr::Dice(DiceExpression {
            count: 2,
            sides: 6,
            filter: None,
        }))
    );
}

#[test]
fn two_d_six_maximum_source_rolls_twelve() {
    assert_eq!(eval_max("2d6"), Ok(EvalResult::Total(12)));
}

#[test]
fn omitted_count_defaults_to_one_die() {
    assert_eq!(
        parsed("d8"),
        ParsedExpression::Value(ValueExpr::Dice(DiceExpression {
            count: 1,
            sides: 8,
            filter: None,
        }))
    );
    assert_eq!(eval_max("d8"), Ok(EvalResult::Total(8)));
}

#[test]
fn keep_highest_of_single_die_is_noop() {
    assert_eq!(
        parsed("1d20kh1"),
        ParsedExpression::Value(ValueExpr::Dice(DiceExpression {
            count: 1,
            sides: 20,
            filter: Some(DiceFilter { kind: DiceFilterKind::KeepHighest, count: 1 }),
        }))
    );
    assert_eq!(eval_fixed("1d20kh1", vec![13]), Ok(EvalResult::Total(13)));
}

#[test]
fn comparison_parses_as_outermost_node() {
    let p = parsed("3d6+2>10");
    match p {
        ParsedExpression::Comparison(c) => {
            assert_eq!(c.operator, ComparisonOperator::Greater);
            match c.lhs {
                ValueExpr::Math(m) => {
                    assert_eq!(m.operator, MathOperator::Plus);
                    assert_eq!(
                        m.lhs,
                        ValueExpr::Dice(DiceExpression { count: 3, sides: 6, filter: None })
                    );
                    assert_eq!(m.rhs, ValueExpr::Literal(2));
                }
                other => panic!("expected a math node, got {:?}", other),
            }
            assert_eq!(c.rhs, ValueExpr::Literal(10));
        }
        other => panic!("expected a comparison, got {:?}", other),
    }
}

#[test]
fn comparison_with_all_sixes_passes() {
    assert_eq!(eval_max("3d6+2>10"), Ok(EvalResult::Truth(true)));
}

#[test]
fn two_filters_rejected_at_parse_time() {
    assert_eq!(
        parse(lex("5d6kh2kl1")),
        Err(ParseError::UnexpectedToken { position: 6 })
    );
}

#[test]
fn star_after_plus_is_positional_error() {
    assert_eq!(
        parse(lex("2+*3")),
        Err(ParseError::UnexpectedToken { position: 2 })
    );
}

#[test]
fn unmatched_paren_reported_at_the_open_paren() {
    assert_eq!(
        parse(lex("(2+3")),
        Err(ParseError::UnmatchedParenthesis { position: 0 })
    );
}

#[test]
fn parsing_twice_yields_identical_trees() {
    let first = parse(lex("20d6kl2+5>=10")).unwrap();
    let second = parse(lex("20d6kl2+5>=10")).unwrap();
    assert_eq!(first, second);
}

#[test]
fn second_comparison_operator_rejected() {
    assert_eq!(
        parse(lex("1>2>3")),
        Err(ParseError::ExtraComparisonOperator { position: 3 })
    );
}

#[test]
fn consecutive_additive_operators_rejected() {
    assert_eq!(
        parse(lex("2+-3")),
        Err(ParseError::ConsecutiveAddOperators { position: 2 })
    );
}

#[test]
fn leading_minus_rejected() {
    assert_eq!(
        parse(lex("-3")),
        Err(ParseError::ConsecutiveAddOperators { position: 0 })
    );
}

#[test]
fn empty_input_fails_to_parse() {
    let lexed = lex("");
    assert_eq!(lexed.tokens.len(), 0);
    assert_eq!(parse(lexed), Err(ParseError::UnexpectedToken { position: 0 }));
}

#[test]
fn filter_missing_count_fails_at_end_of_input() {
    assert_eq!(
        parse(lex("5d6kh")),
        Err(ParseError::UnexpectedToken { position: 4 })
    );
}

#[test]
fn trailing_tokens_rejected() {
    assert_eq!(
        parse(lex("2)3")),
        Err(ParseError::UnexpectedToken { position: 1 })
    );
}

#[test]
fn multiplication_binds_tighter_than_addition() {
    assert_eq!(eval_max("2+3*4"), Ok(EvalResult::Total(14)));
    assert_eq!(eval_max("(2+3)*4"), Ok(EvalResult::Total(20)));
}

#[test]
fn division_truncates_toward_zero() {
    assert_eq!(eval_max("7/2"), Ok(EvalResult::Total(3)));
    assert_eq!(eval_max("(2-9)/2"), Ok(EvalResult::Total(-3)));
}

#[test]
fn division_by_zero_is_an_evaluation_error() {
    assert_eq!(eval_max("5/0"), Err(EvalError::DivisionByZero));
}

#[test]
fn subtraction_can_go_negative() {
    assert_eq!(eval_max("2-5"), Ok(EvalResult::Total(-3)));
}

#[test]
fn zero_sided_die_is_an_evaluation_error() {
    assert_eq!(eval_max("1d0"), Err(EvalError::InvalidDieSize { sides: 0 }));
}

#[test]
fn zero_count_dice_sum_to_zero() {
    assert_eq!(eval_max("0d6"), Ok(EvalResult::Total(0)));
}

#[test]
fn keep_highest_prefers_earlier_of_tied_dice() {
    // rolls 3, 5, 3, 5: the two fives are kept
    assert_eq!(eval_fixed("4d6kh2", vec![3, 5, 3, 5]), Ok(EvalResult::Total(10)));
    // rolls 3, 5, 3, 5, keep three: both fives and the earlier three
    assert_eq!(eval_fixed("4d6kh3", vec![3, 5, 3, 5]), Ok(EvalResult::Total(13)));
}

#[test]
fn keep_lowest_prefers_earlier_of_tied_dice() {
    assert_eq!(eval_fixed("4d6kl2", vec![3, 5, 3, 5]), Ok(EvalResult::Total(6)));
}

#[test]
fn drop_highest_drops_earlier_of_tied_dice() {
    // rolls 3, 5, 3, 5: the first five is dropped
    assert_eq!(eval_fixed("4d6dh1", vec![3, 5, 3, 5]), Ok(EvalResult::Total(11)));
}

#[test]
fn drop_lowest_drops_earlier_of_tied_dice() {
    assert_eq!(eval_fixed("4d6dl1", vec![3, 5, 3, 5]), Ok(EvalResult::Total(13)));
}

#[test]
fn filter_count_beyond_dice_clamps_to_whole_set() {
    assert_eq!(eval_fixed("2d6kh5", vec![2, 3]), Ok(EvalResult::Total(5)));
    assert_eq!(eval_fixed("2d6dh5", vec![2, 3]), Ok(EvalResult::Total(0)));
}

#[test]
fn comparison_operators_evaluate() {
    assert_eq!(eval_max("5=5"), Ok(EvalResult::Truth(true)));
    assert_eq!(eval_max("5!=5"), Ok(EvalResult::Truth(false)));
    assert_eq!(eval_max("4<=3"), Ok(EvalResult::Truth(false)));
    assert_eq!(eval_max("4>=4"), Ok(EvalResult::Truth(true)));
    assert_eq!(eval_max("2<3"), Ok(EvalResult::Truth(true)));
}

#[test]
fn literal_beyond_i64_overflows_at_evaluation() {
    assert_eq!(eval_max("9300000000000000000"), Err(EvalError::Overflow));
}

#[test]
fn multiplication_overflow_detected() {
    assert_eq!(
        eval_max("4000000000*4000000000"),
        Err(EvalError::Overflow)
    );
}

#[test]
fn congruential_source_stays_in_range() {
    let mut rng = CongruentialSource { state: 12345 };
    for _ in 0..100 {
        let r = rng.roll(6);
        assert!(1 <= r && r <= 6);
    }
}

#[test]
fn congruential_source_is_reproducible() {
    let mut a = CongruentialSource { state: 7 };
    let mut b = CongruentialSource { state: 7 };
    for _ in 0..20 {
        assert_eq!(a.roll(20), b.roll(20));
    }
}

#[test]
fn fixed_source_cycles_and_clamps() {
    let mut rng = FixedSource { values: vec![0, 9, 4], next: 0 };
    assert_eq!(rng.roll(6), 1); // 0 clamps up to 1
    assert_eq!(rng.roll(6), 6); // 9 clamps down to 6
    assert_eq!(rng.roll(6), 4);
    assert_eq!(rng.roll(6), 1); // cycle restarts
}

#[test]
fn full_notation_expression_parses() {
    let p = parsed("20d6kl2+50=20");
    match p {
        ParsedExpression::Comparison(c) => {
            assert_eq!(c.operator, ComparisonOperator::Equals);
            assert_eq!(c.rhs, ValueExpr::Literal(20));
        }
        other => panic!("expected a comparison, got {:?}", other),
    }
}

#[test]
fn parenthesized_group_evaluates_to_inner_value() {
    assert_eq!(eval_max("(7)"), Ok(EvalResult::Total(7)));
    assert_eq!(eval_max("((2d6))"), Ok(EvalResult::Total(12)));
}

#[test]
fn dice_without_sides_rejected() {
    assert_eq!(parse(lex("2d")), Err(ParseError::UnexpectedToken { position: 1 }));
    assert_eq!(parse(lex("2d+1")), Err(ParseError::UnexpectedToken { position: 2 }));
}
