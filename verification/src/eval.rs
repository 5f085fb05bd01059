//! Evaluator: walks the syntax tree, rolls dice against an injected
//! random source, applies keep/drop filters, reduces arithmetic with
//! 64-bit signed integer semantics, and applies the optional comparison.
//!
//! The mathematical model is `spec_eval` over an explicit sequence of
//! roll outcomes; `evaluate` is proved to return the model's result for
//! the rolls its source actually produced, so everything but the rolls
//! themselves is pinned down exactly.
//!
//! Keep/drop tie-break policy: dice are ranked by value with the earlier
//! roll ordered first among equals, so when only part of a tied group
//! fits, a keep filter keeps the earlier dice and a drop filter drops
//! the earlier dice.

use vstd::prelude::*;

use crate::ast::{DiceExpression, DiceFilter, ParsedExpression, ValueExpr};
use crate::token::{ComparisonOperator, DiceFilterKind, MathOperator};

verus! {

/// An evaluation error.
#[derive(Debug, Clone, Copy, PartialEq, Eq, Structural)]
pub enum EvalError {
    /// The right operand of `/` evaluated to zero.
    DivisionByZero,
    /// A dice term with zero-sided dice.
    InvalidDieSize { sides: u64 },
    /// An intermediate value fell outside the signed 64-bit range the
    /// evaluator computes in (a machine bound, not a grammar rule).
    Overflow,
}

/// The result of evaluating a parsed expression: a plain integer total
/// for bare arithmetic, or a pass/fail verdict when a comparison was
/// present.
#[derive(Debug, Clone, Copy, PartialEq, Eq, Structural)]
pub enum EvalResult {
    Total(i64),
    Truth(bool),
}

/// A source of dice rolls, injected into every evaluation. Each call
/// draws one uniform value in `[1, sides]`; nothing more is assumed, so
/// everything proved about evaluation holds for every possible outcome.
pub trait RandomSource {
    fn roll(&mut self, sides: u64) -> (r: u64)
        requires
            sides >= 1,
        ensures
            1 <= r <= sides,
    ;
}

/// A deterministic source that always rolls the maximum face.
pub struct MaximumSource {}

impl RandomSource for MaximumSource {
    fn roll(&mut self, sides: u64) -> (r: u64)
        ensures
            1 <= r <= sides,
            r == sides,
    {
        sides
    }
}

/// A fixed value forced into the range `[1, sides]`.
pub open spec fn clamped_roll(v: u64, sides: u64) -> u64 {
    if v < 1 {
        1
    } else if v > sides {
        sides
    } else {
        v
    }
}

/// A deterministic source replaying a fixed cycle of values, each
/// clamped into the requested range; an empty cycle always rolls 1.
pub struct FixedSource {
    pub values: Vec<u64>,
    pub next: usize,
}

impl RandomSource for FixedSource {
    fn roll(&mut self, sides: u64) -> (r: u64)
        ensures
            1 <= r <= sides,
            final(self).values == old(self).values,
            old(self).values@.len() == 0 ==> r == 1 && final(self).next == old(self).next,
            old(self).values@.len() > 0 ==> r == clamped_roll(
                old(self).values@[old(self).next as int % old(self).values@.len() as int],
                sides,
            ),
            old(self).values@.len() > 0 ==> final(self).next as int == (if old(self).next == usize::MAX {
                0int
            } else {
                old(self).next + 1
            }),
    {
        if self.values.len() == 0 {
            return 1;
        }
        let v = self.values[self.next % self.values.len()];
        self.next = if self.next == usize::MAX {
            0
        } else {
            self.next + 1
        };
        if v < 1 {
            1
        } else if v > sides {
            sides
        } else {
            v
        }
    }
}

/// A small seedable linear congruential generator, for callers that want
/// reproducible pseudorandom rolls without an outside dependency.
pub struct CongruentialSource {
    pub state: u64,
}

impl RandomSource for CongruentialSource {
    fn roll(&mut self, sides: u64) -> (r: u64)
        ensures
            1 <= r <= sides,
    {
        self.state = self.state.wrapping_mul(6364136223846793005).wrapping_add(
            1442695040888963407,
        );
        1 + self.state % sides
    }
}

/// How many dice a subtree rolls: the number of draws evaluation takes
/// from the random source (left subtree first).
pub open spec fn dice_count(e: ValueExpr) -> nat
    decreases e,
{
    match e {
        ValueExpr::Literal(_) => 0,
        ValueExpr::Dice(d) => d.count as nat,
        ValueExpr::Math(m) => dice_count(m.lhs) + dice_count(m.rhs),
        ValueExpr::Parenthesized(inner) => dice_count(*inner),
    }
}

/// The rolls of one dice term: one value per die, each in `[1, sides]`
/// (for the degenerate zero-sided term, which never rolls, the dummy
/// value 1).
pub open spec fn valid_dice_rolls(d: DiceExpression, rolls: Seq<u64>) -> bool {
    &&& rolls.len() == d.count
    &&& forall|k: int|
        0 <= k < rolls.len() ==> (if d.sides >= 1 {
            1 <= rolls[k] <= d.sides
        } else {
            rolls[k] == 1
        })
}

/// `rolls` assigns every dice term of `e` its draws, in evaluation
/// order, each within that term's faces.
pub open spec fn valid_rolls(e: ValueExpr, rolls: Seq<u64>) -> bool
    decreases e,
{
    match e {
        ValueExpr::Literal(_) => rolls.len() == 0,
        ValueExpr::Dice(d) => valid_dice_rolls(d, rolls),
        ValueExpr::Math(m) => {
            &&& rolls.len() == dice_count(m.lhs) + dice_count(m.rhs)
            &&& valid_rolls(m.lhs, rolls.subrange(0, dice_count(m.lhs) as int))
            &&& valid_rolls(m.rhs, rolls.subrange(dice_count(m.lhs) as int, rolls.len() as int))
        },
        ValueExpr::Parenthesized(inner) => valid_rolls(*inner, rolls),
    }
}

/// Roll `j` is ordered strictly above roll `i` when ranking from the
/// high end: higher value first, earlier roll first among equals.
pub open spec fn outranks_high(rolls: Seq<u64>, j: int, i: int) -> bool {
    rolls[j] > rolls[i] || (rolls[j] == rolls[i] && j < i)
}

/// Roll `j` is ordered strictly below roll `i` when ranking from the
/// low end: lower value first, earlier roll first among equals.
pub open spec fn outranks_low(rolls: Seq<u64>, j: int, i: int) -> bool {
    rolls[j] < rolls[i] || (rolls[j] == rolls[i] && j < i)
}

/// How many of the first `upto` rolls rank above roll `i` from the high
/// end. Rank 0 is the highest die.
pub open spec fn rank_high(rolls: Seq<u64>, i: int, upto: int) -> nat
    decreases upto,
{
    if upto <= 0 {
        0
    } else {
        rank_high(rolls, i, upto - 1) + (if outranks_high(rolls, upto - 1, i) {
            1nat
        } else {
            0nat
        })
    }
}

/// How many of the first `upto` rolls rank below roll `i` from the low
/// end. Rank 0 is the lowest die.
pub open spec fn rank_low(rolls: Seq<u64>, i: int, upto: int) -> nat
    decreases upto,
{
    if upto <= 0 {
        0
    } else {
        rank_low(rolls, i, upto - 1) + (if outranks_low(rolls, upto - 1, i) {
            1nat
        } else {
            0nat
        })
    }
}

/// Whether roll `i` survives the filter: keep filters retain the
/// best-ranked `count` dice from their end, drop filters remove them; a
/// count larger than the number of dice keeps or drops the whole set.
pub open spec fn kept(filter: Option<DiceFilter>, rolls: Seq<u64>, i: int) -> bool {
    match filter {
        None => true,
        Some(f) => match f.kind {
            DiceFilterKind::KeepHighest => rank_high(rolls, i, rolls.len() as int) < f.count,
            DiceFilterKind::KeepLowest => rank_low(rolls, i, rolls.len() as int) < f.count,
            DiceFilterKind::DropHighest => rank_high(rolls, i, rolls.len() as int) >= f.count,
            DiceFilterKind::DropLowest => rank_low(rolls, i, rolls.len() as int) >= f.count,
        },
    }
}

/// The sum of the surviving rolls among the first `upto`.
pub open spec fn sum_kept(filter: Option<DiceFilter>, rolls: Seq<u64>, upto: int) -> int
    decreases upto,
{
    if upto <= 0 {
        0
    } else {
        sum_kept(filter, rolls, upto - 1) + (if kept(filter, rolls, upto - 1) {
            rolls[upto - 1] as int
        } else {
            0
        })
    }
}

/// The total a dice term contributes: its surviving rolls summed.
pub open spec fn dice_total(d: DiceExpression, rolls: Seq<u64>) -> int {
    sum_kept(d.filter, rolls, rolls.len() as int)
}

/// A value the evaluator's 64-bit signed arithmetic can represent.
pub open spec fn in_i64(v: int) -> bool {
    i64::MIN <= v <= i64::MAX
}

/// Truncating (round-toward-zero) integer division, as Rust's signed
/// `/` computes it.
pub open spec fn trunc_div(x: int, d: int) -> int {
    if x == 0 {
        0
    } else if x > 0 && d > 0 {
        x / d
    } else if x < 0 && d < 0 {
        (x * -1) / (d * -1)
    } else if x < 0 {
        ((x * -1) / d) * -1
    } else {
        (x / (d * -1)) * -1
    }
}

/// Apply one arithmetic operator with 64-bit signed semantics: division
/// by zero and results outside the representable range are errors.
pub open spec fn apply_math(op: MathOperator, l: int, r: int) -> Result<int, EvalError> {
    match op {
        MathOperator::Plus => if in_i64(l + r) {
            Ok(l + r)
        } else {
            Err(EvalError::Overflow)
        },
        MathOperator::Minus => if in_i64(l - r) {
            Ok(l - r)
        } else {
            Err(EvalError::Overflow)
        },
        MathOperator::Times => if in_i64(l * r) {
            Ok(l * r)
        } else {
            Err(EvalError::Overflow)
        },
        MathOperator::Divide => if r == 0 {
            Err(EvalError::DivisionByZero)
        } else if in_i64(trunc_div(l, r)) {
            Ok(trunc_div(l, r))
        } else {
            Err(EvalError::Overflow)
        },
    }
}

/// Apply one relational operator.
pub open spec fn apply_cmp(op: ComparisonOperator, l: int, r: int) -> bool {
    match op {
        ComparisonOperator::Equals => l == r,
        ComparisonOperator::NotEquals => l != r,
        ComparisonOperator::Greater => l > r,
        ComparisonOperator::GreaterEquals => l >= r,
        ComparisonOperator::Less => l < r,
        ComparisonOperator::LessEquals => l <= r,
    }
}

/// The value of `e` under the given roll outcomes, or the first error:
/// a zero-sided dice term fails, a zero-count term sums to 0, each
/// subtree consumes its own segment of `rolls` (left before right), and
/// every intermediate value must fit the signed 64-bit range.
pub open spec fn spec_eval(e: ValueExpr, rolls: Seq<u64>) -> Result<int, EvalError>
    decreases e,
{
    match e {
        ValueExpr::Literal(v) => if v <= i64::MAX {
            Ok(v as int)
        } else {
            Err(EvalError::Overflow)
        },
        ValueExpr::Dice(d) => {
            if d.sides == 0 {
                Err(EvalError::InvalidDieSize { sides: d.sides })
            } else {
                let total = dice_total(d, rolls);
                if total <= i64::MAX {
                    Ok(total)
                } else {
                    Err(EvalError::Overflow)
                }
            }
        },
        ValueExpr::Math(m) => {
            let ln = dice_count(m.lhs) as int;
            match spec_eval(m.lhs, rolls.subrange(0, ln)) {
                Err(e1) => Err(e1),
                Ok(l) => match spec_eval(m.rhs, rolls.subrange(ln, rolls.len() as int)) {
                    Err(e2) => Err(e2),
                    Ok(r) => apply_math(m.operator, l, r),
                },
            }
        },
        ValueExpr::Parenthesized(inner) => spec_eval(*inner, rolls),
    }
}

/// Dice drawn by a whole parse result.
pub open spec fn parsed_dice_count(p: ParsedExpression) -> nat {
    match p {
        ParsedExpression::Value(v) => dice_count(v),
        ParsedExpression::Comparison(c) => dice_count(c.lhs) + dice_count(c.rhs),
    }
}

/// `rolls` assigns every dice term of the parse result its draws.
pub open spec fn parsed_valid_rolls(p: ParsedExpression, rolls: Seq<u64>) -> bool {
    match p {
        ParsedExpression::Value(v) => valid_rolls(v, rolls),
        ParsedExpression::Comparison(c) => {
            &&& rolls.len() == dice_count(c.lhs) + dice_count(c.rhs)
            &&& valid_rolls(c.lhs, rolls.subrange(0, dice_count(c.lhs) as int))
            &&& valid_rolls(c.rhs, rolls.subrange(dice_count(c.lhs) as int, rolls.len() as int))
        },
    }
}

/// The result of a whole parse result under the given rolls: an integer
/// total, or a truth value when a comparison is present (its left side
/// evaluated first).
pub open spec fn spec_eval_parsed(p: ParsedExpression, rolls: Seq<u64>) -> Result<
    EvalResult,
    EvalError,
> {
    match p {
        ParsedExpression::Value(v) => match spec_eval(v, rolls) {
            Ok(t) => Ok(EvalResult::Total(t as i64)),
            Err(e) => Err(e),
        },
        ParsedExpression::Comparison(c) => {
            let ln = dice_count(c.lhs) as int;
            match spec_eval(c.lhs, rolls.subrange(0, ln)) {
                Err(e) => Err(e),
                Ok(l) => match spec_eval(c.rhs, rolls.subrange(ln, rolls.len() as int)) {
                    Err(e) => Err(e),
                    Ok(r) => Ok(EvalResult::Truth(apply_cmp(c.operator, l, r))),
                },
            }
        },
    }
}

/// An all-ones roll assignment: valid for any subtree, used to complete
/// a witness when evaluation stops early on an error.
pub open spec fn unit_rolls(n: nat) -> Seq<u64> {
    Seq::new(n, |i: int| 1u64)
}

proof fn lemma_unit_rolls_valid(e: ValueExpr)
    ensures
        valid_rolls(e, unit_rolls(dice_count(e))),
    decreases e,
{
    match e {
        ValueExpr::Literal(_) => {},
        ValueExpr::Dice(_) => {},
        ValueExpr::Math(m) => {
            lemma_unit_rolls_valid(m.lhs);
            lemma_unit_rolls_valid(m.rhs);
            let whole = unit_rolls(dice_count(e));
            assert(whole.subrange(0, dice_count(m.lhs) as int) =~= unit_rolls(dice_count(m.lhs)));
            assert(whole.subrange(dice_count(m.lhs) as int, whole.len() as int) =~= unit_rolls(
                dice_count(m.rhs),
            ));
        },
        ValueExpr::Parenthesized(inner) => {
            lemma_unit_rolls_valid(*inner);
        },
    }
}

proof fn lemma_sum_kept_mono(filter: Option<DiceFilter>, rolls: Seq<u64>, a: int, b: int)
    requires
        a <= b,
    ensures
        sum_kept(filter, rolls, a) <= sum_kept(filter, rolls, b),
    decreases b - a,
{
    if a < b {
        lemma_sum_kept_mono(filter, rolls, a, b - 1);
    }
}

fn exec_rank_high(rolls: &Vec<u64>, i: usize) -> (r: usize)
    requires
        i < rolls@.len(),
    ensures
        r == rank_high(rolls@, i as int, rolls@.len() as int),
{
    let n = rolls.len();
    let mut cnt: usize = 0;
    let mut j: usize = 0;
    while j < n
        invariant
            n == rolls@.len(),
            i < n,
            j <= n,
            cnt <= j,
            cnt == rank_high(rolls@, i as int, j as int),
        decreases n - j,
    {
        if rolls[j] > rolls[i] || (rolls[j] == rolls[i] && j < i) {
            cnt = cnt + 1;
        }
        j = j + 1;
    }
    cnt
}

fn exec_rank_low(rolls: &Vec<u64>, i: usize) -> (r: usize)
    requires
        i < rolls@.len(),
    ensures
        r == rank_low(rolls@, i as int, rolls@.len() as int),
{
    let n = rolls.len();
    let mut cnt: usize = 0;
    let mut j: usize = 0;
    while j < n
        invariant
            n == rolls@.len(),
            i < n,
            j <= n,
            cnt <= j,
            cnt == rank_low(rolls@, i as int, j as int),
        decreases n - j,
    {
        if rolls[j] < rolls[i] || (rolls[j] == rolls[i] && j < i) {
            cnt = cnt + 1;
        }
        j = j + 1;
    }
    cnt
}

fn exec_kept(rolls: &Vec<u64>, i: usize, filter: &Option<DiceFilter>) -> (b: bool)
    requires
        i < rolls@.len(),
    ensures
        b == kept(*filter, rolls@, i as int),
{
    match filter {
        None => true,
        Some(f) => {
            match f.kind {
                DiceFilterKind::KeepHighest => (exec_rank_high(rolls, i) as u64) < f.count,
                DiceFilterKind::KeepLowest => (exec_rank_low(rolls, i) as u64) < f.count,
                DiceFilterKind::DropHighest => (exec_rank_high(rolls, i) as u64) >= f.count,
                DiceFilterKind::DropLowest => (exec_rank_low(rolls, i) as u64) >= f.count,
            }
        },
    }
}

fn eval_dice<R: RandomSource>(d: &DiceExpression, rng: &mut R) -> (res: (
    Result<i64, EvalError>,
    Ghost<Seq<u64>>,
))
    ensures
        valid_dice_rolls(*d, res.1@),
        match res.0 {
            Ok(v) => spec_eval(ValueExpr::Dice(*d), res.1@) == Ok::<int, EvalError>(v as int),
            Err(er) => spec_eval(ValueExpr::Dice(*d), res.1@) == Err::<int, EvalError>(er),
        },
{
    if d.sides == 0 {
        return (Err(EvalError::InvalidDieSize { sides: d.sides }), Ghost(
            unit_rolls(d.count as nat),
        ));
    }
    let mut rolls: Vec<u64> = Vec::new();
    let mut k: u64 = 0;
    while k < d.count
        invariant
            d.sides >= 1,
            k <= d.count,
            rolls@.len() == k,
            forall|idx: int| 0 <= idx < rolls@.len() ==> 1 <= #[trigger] rolls@[idx] <= d.sides,
        decreases d.count - k,
    {
        let v = rng.roll(d.sides);
        rolls.push(v);
        k = k + 1;
    }
    let ghost seg = rolls@;
    let n = rolls.len();
    let mut total: u64 = 0;
    let mut j: usize = 0;
    while j < n
        invariant
            d.sides >= 1,
            n == rolls@.len(),
            rolls@ == seg,
            seg.len() == d.count,
            forall|idx: int| 0 <= idx < seg.len() ==> 1 <= #[trigger] seg[idx] <= d.sides,
            j <= n,
            total == sum_kept(d.filter, seg, j as int),
            total <= i64::MAX as u64,
        decreases n - j,
    {
        let keep = exec_kept(&rolls, j, &d.filter);
        if keep {
            let v = rolls[j];
            if v > i64::MAX as u64 || total > (i64::MAX as u64) - v {
                proof {
                    lemma_sum_kept_mono(d.filter, seg, j as int + 1, n as int);
                }
                return (Err(EvalError::Overflow), Ghost(seg));
            }
            total = total + v;
        }
        j = j + 1;
    }
    (Ok(total as i64), Ghost(seg))
}

fn exec_apply_math(op: MathOperator, l: i64, r: i64) -> (res: Result<i64, EvalError>)
    ensures
        match res {
            Ok(v) => apply_math(op, l as int, r as int) == Ok::<int, EvalError>(v as int),
            Err(er) => apply_math(op, l as int, r as int) == Err::<int, EvalError>(er),
        },
{
    match op {
        MathOperator::Plus => match l.checked_add(r) {
            Some(v) => Ok(v),
            None => Err(EvalError::Overflow),
        },
        MathOperator::Minus => match l.checked_sub(r) {
            Some(v) => Ok(v),
            None => Err(EvalError::Overflow),
        },
        MathOperator::Times => match l.checked_mul(r) {
            Some(v) => Ok(v),
            None => Err(EvalError::Overflow),
        },
        MathOperator::Divide => {
            if r == 0 {
                Err(EvalError::DivisionByZero)
            } else {
                match l.checked_div(r) {
                    Some(v) => Ok(v),
                    None => Err(EvalError::Overflow),
                }
            }
        },
    }
}

fn exec_apply_cmp(op: ComparisonOperator, l: i64, r: i64) -> (b: bool)
    ensures
        b == apply_cmp(op, l as int, r as int),
{
    match op {
        ComparisonOperator::Equals => l == r,
        ComparisonOperator::NotEquals => l != r,
        ComparisonOperator::Greater => l > r,
        ComparisonOperator::GreaterEquals => l >= r,
        ComparisonOperator::Less => l < r,
        ComparisonOperator::LessEquals => l <= r,
    }
}

fn eval_value<R: RandomSource>(e: &ValueExpr, rng: &mut R) -> (res: (
    Result<i64, EvalError>,
    Ghost<Seq<u64>>,
))
    ensures
        valid_rolls(*e, res.1@),
        res.1@.len() == dice_count(*e),
        match res.0 {
            Ok(v) => spec_eval(*e, res.1@) == Ok::<int, EvalError>(v as int),
            Err(er) => spec_eval(*e, res.1@) == Err::<int, EvalError>(er),
        },
    decreases *e,
{
    match e {
        ValueExpr::Literal(v) => {
            if *v > i64::MAX as u64 {
                (Err(EvalError::Overflow), Ghost(Seq::empty()))
            } else {
                (Ok(*v as i64), Ghost(Seq::empty()))
            }
        },
        ValueExpr::Dice(d) => eval_dice(d, rng),
        ValueExpr::Math(m) => {
            let (lr, gl) = eval_value(&m.lhs, rng);
            match lr {
                Err(er) => {
                    let ghost g = gl@ + unit_rolls(dice_count(m.rhs));
                    proof {
                        lemma_unit_rolls_valid(m.rhs);
                        assert(g.subrange(0, dice_count(m.lhs) as int) =~= gl@);
                        assert(g.subrange(dice_count(m.lhs) as int, g.len() as int) =~= unit_rolls(
                            dice_count(m.rhs),
                        ));
                    }
                    (Err(er), Ghost(g))
                },
                Ok(l) => {
                    let (rr, gr) = eval_value(&m.rhs, rng);
                    let ghost g = gl@ + gr@;
                    proof {
                        assert(g.subrange(0, dice_count(m.lhs) as int) =~= gl@);
                        assert(g.subrange(dice_count(m.lhs) as int, g.len() as int) =~= gr@);
                    }
                    match rr {
                        Err(er) => (Err(er), Ghost(g)),
                        Ok(r) => (exec_apply_math(m.operator, l, r), Ghost(g)),
                    }
                },
            }
        },
        ValueExpr::Parenthesized(inner) => eval_value(inner, rng),
    }
}

/// Evaluate a parsed expression against a random source: draw each dice
/// term's rolls (left to right), filter and sum them, reduce the
/// arithmetic, and apply the comparison if one is present. The result is
/// exactly the model's value for some valid assignment of rolls — so
/// for an expression without dice, for exactly one.
pub fn evaluate<R: RandomSource>(expr: &ParsedExpression, rng: &mut R) -> (res: Result<
    EvalResult,
    EvalError,
>)
    ensures
        exists|rolls: Seq<u64>|
            parsed_valid_rolls(*expr, rolls) && spec_eval_parsed(*expr, rolls) == res,
        parsed_dice_count(*expr) == 0 ==> spec_eval_parsed(*expr, Seq::empty()) == res,
{
    match expr {
        ParsedExpression::Value(v) => {
            let (r, g) = eval_value(v, rng);
            let out = match r {
                Ok(t) => Ok(EvalResult::Total(t)),
                Err(e) => Err(e),
            };
            proof {
                assert(parsed_valid_rolls(*expr, g@) && spec_eval_parsed(*expr, g@) == out);
                if parsed_dice_count(*expr) == 0 {
                    assert(g@ =~= Seq::<u64>::empty());
                }
            }
            out
        },
        ParsedExpression::Comparison(c) => {
            let (lr, gl) = eval_value(&c.lhs, rng);
            match lr {
                Err(e) => {
                    let ghost g = gl@ + unit_rolls(dice_count(c.rhs));
                    proof {
                        lemma_unit_rolls_valid(c.rhs);
                        assert(g.subrange(0, dice_count(c.lhs) as int) =~= gl@);
                        assert(g.subrange(dice_count(c.lhs) as int, g.len() as int) =~= unit_rolls(
                            dice_count(c.rhs),
                        ));
                        assert(parsed_valid_rolls(*expr, g) && spec_eval_parsed(*expr, g)
                            == Err::<EvalResult, EvalError>(e));
                        if parsed_dice_count(*expr) == 0 {
                            assert(g =~= Seq::<u64>::empty());
                        }
                    }
                    Err(e)
                },
                Ok(l) => {
                    let (rr, gr) = eval_value(&c.rhs, rng);
                    let ghost g = gl@ + gr@;
                    proof {
                        assert(g.subrange(0, dice_count(c.lhs) as int) =~= gl@);
                        assert(g.subrange(dice_count(c.lhs) as int, g.len() as int) =~= gr@);
                        if parsed_dice_count(*expr) == 0 {
                            assert(g =~= Seq::<u64>::empty());
                        }
                    }
                    match rr {
                        Err(e) => {
                            proof {
                                assert(parsed_valid_rolls(*expr, g) && spec_eval_parsed(*expr, g)
                                    == Err::<EvalResult, EvalError>(e));
                            }
                            Err(e)
                        },
                        Ok(r) => {
                            let b = exec_apply_cmp(c.operator, l, r);
                            proof {
                                assert(parsed_valid_rolls(*expr, g) && spec_eval_parsed(*expr, g)
                                    == Ok::<EvalResult, EvalError>(EvalResult::Truth(b)));
                            }
                            Ok(EvalResult::Truth(b))
                        },
                    }
                },
            }
        },
    }
}

/// A tree made only of literals and `+`/`*` nodes: no dice, no
/// parentheses, no subtraction or division.
pub open spec fn plus_times_only(e: ValueExpr) -> bool
    decreases e,
{
    match e {
        ValueExpr::Literal(_) => true,
        ValueExpr::Math(m) => (m.operator is Plus || m.operator is Times) && plus_times_only(m.lhs)
            && plus_times_only(m.rhs),
        _ => false,
    }
}

/// The plain left-to-right arithmetic value of such a tree, worked out
/// by hand: each node is just its operands' sum or product.
pub open spec fn hand_value(e: ValueExpr) -> int
    decreases e,
{
    match e {
        ValueExpr::Literal(v) => v as int,
        ValueExpr::Math(m) => if m.operator is Plus {
            hand_value(m.lhs) + hand_value(m.rhs)
        } else {
            hand_value(m.lhs) * hand_value(m.rhs)
        },
        _ => 0,
    }
}

/// Every node's hand-computed value fits the evaluator's signed 64-bit
/// range.
pub open spec fn hand_in_range(e: ValueExpr) -> bool
    decreases e,
{
    match e {
        ValueExpr::Literal(v) => v <= i64::MAX,
        ValueExpr::Math(m) => hand_in_range(m.lhs) && hand_in_range(m.rhs) && in_i64(
            hand_value(ValueExpr::Math(m)),
        ),
        _ => false,
    }
}

/// Round-trip with plain arithmetic: a tree built directly from literals
/// and `+`/`*` nodes rolls no dice and evaluates, under any roll
/// assignment, to exactly the integer that evaluating the arithmetic by
/// hand gives. (Trees whose hand value leaves the signed 64-bit range
/// overflow instead and are left out here.)
pub proof fn lemma_pure_tree_evaluates(e: ValueExpr, rolls: Seq<u64>)
    requires
        plus_times_only(e),
        hand_in_range(e),
        rolls.len() == 0,
    ensures
        dice_count(e) == 0,
        spec_eval(e, rolls) == Ok::<int, EvalError>(hand_value(e)),
    decreases e,
{
    match e {
        ValueExpr::Literal(_) => {},
        ValueExpr::Math(m) => {
            assert(rolls.subrange(0, 0) =~= rolls);
            lemma_pure_tree_evaluates(m.lhs, rolls.subrange(0, 0));
            lemma_pure_tree_evaluates(m.rhs, rolls.subrange(0, 0));
        },
        _ => {},
    }
}

} // verus!
