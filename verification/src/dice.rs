//! The dice model: roll values, dice variants, the generator that draws
//! values from a dice, roll requests and roll results.

use crate::actions::Action;
use crate::actions::{
    fudge_apply_fails, fudge_rolls_chain, fudge_rolls_chain_fails,
    lemma_fudge_rolls_chain_fails_compose, lemma_fudge_rolls_chain_snoc,
    lemma_num_rolls_chain_fails_compose, lemma_num_rolls_chain_snoc, num_apply_fails,
    num_rolls_chain, num_rolls_chain_fails,
};
use crate::rng;
use vstd::prelude::*;

verus! {

pub type DiceID = String;

pub type DiceNumber = u8;

/// Type of roll result for numbered dice (like D20)
pub type NumericRoll = u32;

/// Type of roll result for fudge dice (fate)
#[derive(Debug, Hash, PartialEq, Eq, Structural, Clone, Copy)]
pub enum FudgeRoll {
    Plus,
    Minus,
    Blank,
}

/// The values a roll can be made of.
pub trait RollBounds: Sized + Copy {

}

impl RollBounds for NumericRoll {

}

impl RollBounds for FudgeRoll {

}

#[derive(Debug, PartialEq, Eq, Hash, Clone)]
pub enum NumericDice {
    ConstDice(NumericRoll),
    NumberedDice(NumericRoll),
    RepeatingDice(Vec<NumericRoll>),
    AggregationResult,
}

#[derive(Debug, PartialEq, Eq, Hash, Clone)]
pub enum FudgeDice {
    FudgeDice,
    ConstDice(FudgeRoll),
    RepeatingDice(Vec<FudgeRoll>),
}

/// The dice a roll can be drawn from.
pub trait DiceBounds: Sized {
    /// Whether values can actually be drawn from this dice: a numbered dice
    /// needs at least one side, a repeating dice at least one value, and an
    /// aggregation result cannot be rolled again.
    spec fn rollable(&self) -> bool;
}

impl DiceBounds for NumericDice {
    open spec fn rollable(&self) -> bool {
        match self {
            NumericDice::ConstDice(_) => true,
            NumericDice::NumberedDice(sides) => sides >= 1,
            NumericDice::RepeatingDice(values) => values@.len() >= 1,
            NumericDice::AggregationResult => false,
        }
    }
}

impl DiceBounds for FudgeDice {
    open spec fn rollable(&self) -> bool {
        match self {
            FudgeDice::FudgeDice => true,
            FudgeDice::ConstDice(_) => true,
            FudgeDice::RepeatingDice(values) => values@.len() >= 1,
        }
    }
}

impl FudgeDice {
    /// Whether values can be drawn from this dice.
    pub fn is_rollable(&self) -> (b: bool)
        ensures
            b == self.rollable(),
    {
        match self {
            FudgeDice::FudgeDice => true,
            FudgeDice::ConstDice(_) => true,
            FudgeDice::RepeatingDice(values) => values.len() >= 1,
        }
    }
}

/// The largest value among a sequence of rolls (`0` for an empty sequence).
pub open spec fn max_of(s: Seq<NumericRoll>) -> int
    decreases s.len(),
{
    if s.len() == 0 {
        0
    } else {
        let m = max_of(s.drop_last());
        if s.last() as int >= m {
            s.last() as int
        } else {
            m
        }
    }
}

/// The largest value a numeric dice can produce.
pub open spec fn num_dice_max(d: NumericDice) -> int {
    match d {
        NumericDice::ConstDice(const_value) => const_value as int,
        NumericDice::NumberedDice(sides) => sides as int,
        NumericDice::RepeatingDice(values) => max_of(values@),
        NumericDice::AggregationResult => 0,
    }
}

impl NumericDice {
    /// The largest value this dice can produce: the constant, the side count,
    /// or the maximum of the repeating values.
    pub fn get_max_value(&self) -> (r: NumericRoll)
        requires
            !(self is AggregationResult),
        ensures
            r as int == num_dice_max(*self),
    {
        match self {
            NumericDice::ConstDice(const_value) => *const_value,
            NumericDice::NumberedDice(sides) => *sides,
            NumericDice::RepeatingDice(repeating_values) => {
                let mut m: NumericRoll = 0;
                let mut i: usize = 0;
                while i < repeating_values.len()
                    invariant
                        i <= repeating_values.len(),
                        m as int == max_of(repeating_values@.take(i as int)),
                    decreases repeating_values.len() - i,
                {
                    proof {
                        assert(repeating_values@.take(i + 1).drop_last() =~= repeating_values@.take(
                            i as int,
                        ));
                        assert(repeating_values@.take(i + 1).last() == repeating_values@[i as int]);
                    }
                    if repeating_values[i] > m {
                        m = repeating_values[i];
                    }
                    i = i + 1;
                }
                proof {
                    assert(repeating_values@.take(repeating_values@.len() as int)
                        =~= repeating_values@);
                }
                m
            },
            NumericDice::AggregationResult => 0,
        }
    }

    /// Whether values can be drawn from this dice.
    pub fn is_rollable(&self) -> (b: bool)
        ensures
            b == self.rollable(),
    {
        match self {
            NumericDice::ConstDice(_) => true,
            NumericDice::NumberedDice(sides) => *sides >= 1,
            NumericDice::RepeatingDice(values) => values.len() >= 1,
            NumericDice::AggregationResult => false,
        }
    }

    /// Whether this dice marks an aggregation result, which cannot be rolled
    /// or measured again.
    pub fn is_aggregation(&self) -> (b: bool)
        ensures
            b == (self is AggregationResult),
    {
        match self {
            NumericDice::AggregationResult => true,
            _ => false,
        }
    }

    /// A repeating dice, rejecting an empty value list with a `BadDice` error.
    pub fn repeating(values: Vec<NumericRoll>) -> (r: Result<
        NumericDice,
        crate::errors::Error,
    >)
        ensures
            values@.len() >= 1 <==> r is Ok,
            r matches Ok(d) ==> d == NumericDice::RepeatingDice(values),
            r matches Err(e) ==> e.kind matches crate::errors::ErrorKind::BadDice(_),
    {
        if values.len() == 0 {
            Err(
                crate::errors::Error::new(
                    crate::errors::ErrorKind::BadDice(
                        String::from_str("A repeating dice needs at least one value"),
                    ),
                ),
            )
        } else {
            Ok(NumericDice::RepeatingDice(values))
        }
    }
}

/// What one value drawn from a numeric dice satisfies: the constant itself, a
/// value within the sides, or the head of the repeating values.
pub open spec fn num_draw_ok(dice: NumericDice, v: NumericRoll) -> bool {
    match dice {
        NumericDice::ConstDice(const_value) => v == const_value,
        NumericDice::NumberedDice(sides) => 1 <= v <= sides,
        NumericDice::RepeatingDice(values) => values@.len() >= 1 && v == values@[0],
        NumericDice::AggregationResult => false,
    }
}

/// What a batch of values drawn from a numeric dice satisfies: copies of the
/// constant, values within the sides, or the repeating values cycled.
pub open spec fn num_batch_ok(dice: NumericDice, out: Seq<NumericRoll>) -> bool {
    match dice {
        NumericDice::ConstDice(const_value) => forall|i: int|
            0 <= i < out.len() ==> out[i] == const_value,
        NumericDice::NumberedDice(sides) => forall|i: int|
            0 <= i < out.len() ==> 1 <= #[trigger] out[i] <= sides,
        NumericDice::RepeatingDice(values) => values@.len() >= 1 && forall|i: int|
            0 <= i < out.len() ==> out[i] == values@[i % values@.len() as int],
        NumericDice::AggregationResult => false,
    }
}

/// What one value drawn from a fudge dice satisfies.
pub open spec fn fudge_draw_ok(dice: FudgeDice, v: FudgeRoll) -> bool {
    match dice {
        FudgeDice::FudgeDice => true,
        FudgeDice::ConstDice(const_value) => v == const_value,
        FudgeDice::RepeatingDice(values) => values@.len() >= 1 && v == values@[0],
    }
}

/// What a batch of values drawn from a fudge dice satisfies.
pub open spec fn fudge_batch_ok(dice: FudgeDice, out: Seq<FudgeRoll>) -> bool {
    match dice {
        FudgeDice::FudgeDice => true,
        FudgeDice::ConstDice(const_value) => forall|i: int|
            0 <= i < out.len() ==> out[i] == const_value,
        FudgeDice::RepeatingDice(values) => values@.len() >= 1 && forall|i: int|
            0 <= i < out.len() ==> out[i] == values@[i % values@.len() as int],
    }
}

/// Two numeric dice describing the same dice: same variant, same values.
/// Dice holding value lists cannot be compared with `==` after a copy, so the
/// contracts use this predicate instead.
pub open spec fn num_dice_eqv(a: NumericDice, b: NumericDice) -> bool {
    match (a, b) {
        (NumericDice::ConstDice(x), NumericDice::ConstDice(y)) => x == y,
        (NumericDice::NumberedDice(x), NumericDice::NumberedDice(y)) => x == y,
        (NumericDice::RepeatingDice(u), NumericDice::RepeatingDice(v)) => u@ == v@,
        (NumericDice::AggregationResult, NumericDice::AggregationResult) => true,
        _ => false,
    }
}

/// Two fudge dice describing the same dice.
pub open spec fn fudge_dice_eqv(a: FudgeDice, b: FudgeDice) -> bool {
    match (a, b) {
        (FudgeDice::FudgeDice, FudgeDice::FudgeDice) => true,
        (FudgeDice::ConstDice(x), FudgeDice::ConstDice(y)) => x == y,
        (FudgeDice::RepeatingDice(u), FudgeDice::RepeatingDice(v)) => u@ == v@,
        _ => false,
    }
}

/// Equivalent numeric dice agree on everything the contracts say about dice.
pub proof fn lemma_num_dice_eqv(a: NumericDice, b: NumericDice)
    requires
        num_dice_eqv(a, b),
    ensures
        a.rollable() == b.rollable(),
        num_dice_max(a) == num_dice_max(b),
        a is AggregationResult <==> b is AggregationResult,
        forall|out: Seq<NumericRoll>| num_batch_ok(a, out) == num_batch_ok(b, out),
        forall|v: NumericRoll| num_draw_ok(a, v) == num_draw_ok(b, v),
{
}

/// Equivalent fudge dice agree on everything the contracts say about dice.
pub proof fn lemma_fudge_dice_eqv(a: FudgeDice, b: FudgeDice)
    requires
        fudge_dice_eqv(a, b),
    ensures
        a.rollable() == b.rollable(),
        forall|out: Seq<FudgeRoll>| fudge_batch_ok(a, out) == fudge_batch_ok(b, out),
        forall|v: FudgeRoll| fudge_draw_ok(a, v) == fudge_draw_ok(b, v),
{
}

/// An element-wise copy of a roll-value vector.
pub fn copy_rolls<T: RollBounds>(v: &Vec<T>) -> (r: Vec<T>)
    ensures
        r@ == v@,
{
    let mut r: Vec<T> = Vec::new();
    let mut i: usize = 0;
    while i < v.len()
        invariant
            i <= v.len(),
            r@ == v@.take(i as int),
        decreases v.len() - i,
    {
        r.push(v[i]);
        proof {
            assert(r@ =~= v@.take(i + 1));
        }
        i = i + 1;
    }
    proof {
        assert(v@.take(v@.len() as int) =~= v@);
    }
    r
}

/// A copy of a numeric dice, equivalent to the original.
pub fn copy_num_dice(d: &NumericDice) -> (r: NumericDice)
    ensures
        num_dice_eqv(r, *d),
{
    match d {
        NumericDice::ConstDice(const_value) => NumericDice::ConstDice(*const_value),
        NumericDice::NumberedDice(sides) => NumericDice::NumberedDice(*sides),
        NumericDice::RepeatingDice(values) => NumericDice::RepeatingDice(copy_rolls(values)),
        NumericDice::AggregationResult => NumericDice::AggregationResult,
    }
}

/// A copy of a fudge dice, equivalent to the original.
pub fn copy_fudge_dice(d: &FudgeDice) -> (r: FudgeDice)
    ensures
        fudge_dice_eqv(r, *d),
{
    match d {
        FudgeDice::FudgeDice => FudgeDice::FudgeDice,
        FudgeDice::ConstDice(const_value) => FudgeDice::ConstDice(*const_value),
        FudgeDice::RepeatingDice(values) => FudgeDice::RepeatingDice(copy_rolls(values)),
    }
}

/// Draws roll values; owns the underlying random generator.
#[derive(Debug)]
pub struct DiceGenerator {
    rng: rand::rngs::ThreadRng,
}

/// Rolling a dice a number of times.
pub trait Roll<T: RollBounds, V: DiceBounds> {
    /// What any batch of rolls from `dice` satisfies.
    spec fn batch_ok(dice: &V, out: Seq<T>) -> bool;

    fn roll(&mut self, n: DiceNumber, dice: &V) -> (r: Vec<T>)
        requires
            dice.rollable(),
        ensures
            r@.len() == n as int,
            Self::batch_ok(dice, r@),
    ;
}

impl Roll<NumericRoll, NumericDice> for DiceGenerator {
    open spec fn batch_ok(dice: &NumericDice, out: Seq<NumericRoll>) -> bool {
        num_batch_ok(*dice, out)
    }

    fn roll(&mut self, n: DiceNumber, dice: &NumericDice) -> (r: Vec<NumericRoll>) {
        self.roll_numeric_vec(n as usize, dice)
    }
}

impl Roll<FudgeRoll, FudgeDice> for DiceGenerator {
    open spec fn batch_ok(dice: &FudgeDice, out: Seq<FudgeRoll>) -> bool {
        fudge_batch_ok(*dice, out)
    }

    fn roll(&mut self, n: DiceNumber, dice: &FudgeDice) -> (r: Vec<FudgeRoll>) {
        self.roll_fudge_vec(n as usize, dice)
    }
}

impl DiceGenerator {
    pub fn new() -> DiceGenerator {
        DiceGenerator { rng: rng::fresh_rng() }
    }

    /// The repeating values cycled up to `n` values.
    pub fn roll_repeating<T: RollBounds>(&self, n: DiceNumber, repeating_values: &Vec<T>) -> (r:
        Vec<T>)
        requires
            repeating_values@.len() >= 1,
        ensures
            r@.len() == n as int,
            forall|i: int|
                0 <= i < r@.len() ==> r@[i] == repeating_values@[i % repeating_values@.len() as int],
    {
        self.roll_repeating_n(n as usize, repeating_values)
    }

    /// `n` copies of the constant value.
    pub fn roll_const_dice<T: RollBounds>(&self, n: DiceNumber, const_value: &T) -> (r: Vec<T>)
        ensures
            r@.len() == n as int,
            forall|i: int| 0 <= i < r@.len() ==> r@[i] == *const_value,
    {
        self.roll_const_n(n as usize, const_value)
    }

    /// `n` independent draws from `1..=sides`.
    pub fn roll_numbered_dice(&mut self, n: DiceNumber, sides: &NumericRoll) -> (r: Vec<
        NumericRoll,
    >)
        requires
            *sides >= 1,
        ensures
            r@.len() == n as int,
            forall|i: int| 0 <= i < r@.len() ==> 1 <= #[trigger] r@[i] <= *sides,
    {
        self.roll_numbered_n(n as usize, *sides)
    }

    /// `n` independent draws from the three fudge values.
    pub fn roll_fudge_dice(&mut self, n: DiceNumber) -> (r: Vec<FudgeRoll>)
        ensures
            r@.len() == n as int,
    {
        self.roll_fudge_n(n as usize)
    }

    pub(crate) fn roll_repeating_n<T: RollBounds>(
        &self,
        n: usize,
        repeating_values: &Vec<T>,
    ) -> (r: Vec<T>)
        requires
            repeating_values@.len() >= 1,
        ensures
            r@.len() == n as int,
            forall|i: int|
                0 <= i < r@.len() ==> r@[i] == repeating_values@[i % repeating_values@.len() as int],
    {
        let mut r: Vec<T> = Vec::new();
        let mut i: usize = 0;
        while i < n
            invariant
                i <= n,
                repeating_values@.len() >= 1,
                r@.len() == i as int,
                forall|j: int|
                    0 <= j < r@.len() ==> r@[j] == repeating_values@[j % repeating_values@.len() as int],
            decreases n - i,
        {
            r.push(repeating_values[i % repeating_values.len()]);
            i = i + 1;
        }
        r
    }

    pub(crate) fn roll_const_n<T: RollBounds>(&self, n: usize, const_value: &T) -> (r: Vec<T>)
        ensures
            r@.len() == n as int,
            forall|i: int| 0 <= i < r@.len() ==> r@[i] == *const_value,
    {
        let mut r: Vec<T> = Vec::new();
        let mut i: usize = 0;
        while i < n
            invariant
                i <= n,
                r@.len() == i as int,
                forall|j: int| 0 <= j < r@.len() ==> r@[j] == *const_value,
            decreases n - i,
        {
            r.push(*const_value);
            i = i + 1;
        }
        r
    }

    pub(crate) fn roll_numbered_n(&mut self, n: usize, sides: NumericRoll) -> (r: Vec<NumericRoll>)
        requires
            sides >= 1,
        ensures
            r@.len() == n as int,
            forall|i: int| 0 <= i < r@.len() ==> 1 <= #[trigger] r@[i] <= sides,
    {
        let mut r: Vec<NumericRoll> = Vec::new();
        let mut i: usize = 0;
        while i < n
            invariant
                i <= n,
                sides >= 1,
                r@.len() == i as int,
                forall|j: int| 0 <= j < r@.len() ==> 1 <= #[trigger] r@[j] <= sides,
            decreases n - i,
        {
            let v = rng::draw_in_range(&mut self.rng, sides);
            r.push(v);
            i = i + 1;
        }
        r
    }

    pub(crate) fn roll_fudge_n(&mut self, n: usize) -> (r: Vec<FudgeRoll>)
        ensures
            r@.len() == n as int,
    {
        let mut r: Vec<FudgeRoll> = Vec::new();
        let mut i: usize = 0;
        while i < n
            invariant
                i <= n,
                r@.len() == i as int,
            decreases n - i,
        {
            let v = rng::draw_in_range(&mut self.rng, 3);
            let roll = if v == 1 {
                FudgeRoll::Blank
            } else if v == 2 {
                FudgeRoll::Plus
            } else {
                FudgeRoll::Minus
            };
            r.push(roll);
            i = i + 1;
        }
        r
    }

    /// A batch of `n` values from a numeric dice.
    pub(crate) fn roll_numeric_vec(&mut self, n: usize, dice: &NumericDice) -> (r: Vec<NumericRoll>)
        requires
            dice.rollable(),
        ensures
            r@.len() == n as int,
            num_batch_ok(*dice, r@),
    {
        match dice {
            NumericDice::ConstDice(const_value) => self.roll_const_n(n, const_value),
            NumericDice::NumberedDice(sides) => self.roll_numbered_n(n, *sides),
            NumericDice::RepeatingDice(repeating_values) => self.roll_repeating_n(
                n,
                repeating_values,
            ),
            NumericDice::AggregationResult => {
                proof {
                    assert(false);
                }
                Vec::new()
            },
        }
    }

    /// A batch of `n` values from a fudge dice.
    pub(crate) fn roll_fudge_vec(&mut self, n: usize, dice: &FudgeDice) -> (r: Vec<FudgeRoll>)
        requires
            dice.rollable(),
        ensures
            r@.len() == n as int,
            fudge_batch_ok(*dice, r@),
    {
        match dice {
            FudgeDice::ConstDice(const_value) => self.roll_const_n(n, const_value),
            FudgeDice::FudgeDice => self.roll_fudge_n(n),
            FudgeDice::RepeatingDice(repeating_values) => self.roll_repeating_n(
                n,
                repeating_values,
            ),
        }
    }
}

/// A dice, how many times to roll it, an optional identifier, and the actions
/// to apply to that single request.
#[derive(Debug, Clone, PartialEq, Eq)]
pub struct RollRequest<T: DiceBounds> {
    pub number: DiceNumber,
    pub id: Option<DiceID>,
    pub dice: T,
    pub actions: Vec<Action>,
}

pub type NumericRollRequest = RollRequest<NumericDice>;

pub type FudgeRollRequest = RollRequest<FudgeDice>;

impl<T: DiceBounds> RollRequest<T> {
    pub fn new(number: DiceNumber, dice: T) -> (r: RollRequest<T>)
        ensures
            r.number == number,
            r.id is None,
            r.dice == dice,
            r.actions@.len() == 0,
    {
        RollRequest { number, id: None, dice, actions: Vec::new() }
    }

    pub fn add_id(self, id: Option<DiceID>) -> (r: RollRequest<T>)
        ensures
            r.number == self.number,
            r.id == id,
            r.dice == self.dice,
            r.actions == self.actions,
    {
        let mut s = self;
        s.id = id;
        s
    }

    pub fn add_action(self, action: Action) -> (r: RollRequest<T>)
        ensures
            r.number == self.number,
            r.id == self.id,
            r.dice == self.dice,
            r.actions@ == self.actions@.push(action),
    {
        let mut s = self;
        s.actions.push(action);
        s
    }

    pub fn add_actions(self, actions: Vec<Action>) -> (r: RollRequest<T>)
        ensures
            r.number == self.number,
            r.id == self.id,
            r.dice == self.dice,
            r.actions@ == self.actions@ + actions@,
    {
        let mut s = self;
        let mut rest = actions;
        proof {
            assert(s.actions@ + rest@ == self.actions@ + actions@);
        }
        while rest.len() > 0
            invariant
                s.number == self.number,
                s.id == self.id,
                s.dice == self.dice,
                s.actions@ + rest@ == self.actions@ + actions@,
            decreases rest.len(),
        {
            let a = rest.remove(0);
            s = s.add_action(a);
            proof {
                assert(s.actions@ + rest@ =~= self.actions@ + actions@);
            }
        }
        proof {
            assert(s.actions@ =~= s.actions@ + rest@);
        }
        s
    }
}

/// The rolls produced for one request: the originating dice, a running
/// human-readable description, and the roll values.
#[derive(Debug, PartialEq, Eq)]
pub struct Rolls<T: RollBounds, V: DiceBounds> {
    pub dice: V,
    pub description: String,
    pub rolls: Vec<T>,
}

pub type NumericRolls = Rolls<NumericRoll, NumericDice>;

pub type FudgeRolls = Rolls<FudgeRoll, FudgeDice>;

impl Rolls<NumericRoll, NumericDice> {
    /// Rolls the request's dice once; the description starts as the request's
    /// own rendering.
    pub fn new(dice_request: &RollRequest<NumericDice>, gen: &mut DiceGenerator) -> (r:
        NumericRolls)
        requires
            dice_request.dice.rollable(),
        ensures
            num_dice_eqv(r.dice, dice_request.dice),
            r.description@ == crate::io::write::num_request_desc(*dice_request),
            r.rolls@.len() == dice_request.number as int,
            num_batch_ok(dice_request.dice, r.rolls@),
    {
        let description = dice_request.to_string();
        let rolls = gen.roll_numeric_vec(dice_request.number as usize, &dice_request.dice);
        Rolls { description, rolls, dice: copy_num_dice(&dice_request.dice) }
    }
}

impl Rolls<FudgeRoll, FudgeDice> {
    /// Rolls the request's dice once; the description starts as the request's
    /// own rendering.
    pub fn new(dice_request: &RollRequest<FudgeDice>, gen: &mut DiceGenerator) -> (r: FudgeRolls)
        requires
            dice_request.dice.rollable(),
        ensures
            fudge_dice_eqv(r.dice, dice_request.dice),
            r.description@ == crate::io::write::fudge_request_desc(*dice_request),
            r.rolls@.len() == dice_request.number as int,
            fudge_batch_ok(dice_request.dice, r.rolls@),
    {
        let description = dice_request.to_string();
        let rolls = gen.roll_fudge_vec(dice_request.number as usize, &dice_request.dice);
        Rolls { description, rolls, dice: copy_fudge_dice(&dice_request.dice) }
    }
}

/// Dice equivalence carries over a chain of copies.
pub proof fn lemma_num_dice_eqv_trans(a: NumericDice, b: NumericDice, c: NumericDice)
    requires
        num_dice_eqv(a, b),
        num_dice_eqv(b, c),
    ensures
        num_dice_eqv(a, c),
{
}

/// Fudge dice equivalence carries over a chain of copies.
pub proof fn lemma_fudge_dice_eqv_trans(a: FudgeDice, b: FudgeDice, c: FudgeDice)
    requires
        fudge_dice_eqv(a, b),
        fudge_dice_eqv(b, c),
    ensures
        fudge_dice_eqv(a, c),
{
}

/// What the initial draw for a numeric request looks like, before any of
/// the request's own actions run.
pub open spec fn num_initial_roll(rq: RollRequest<NumericDice>, r: NumericRolls) -> bool {
    &&& num_dice_eqv(r.dice, rq.dice)
    &&& r.description@ == crate::io::write::num_request_desc(rq)
    &&& r.rolls@.len() == rq.number as int
    &&& num_batch_ok(rq.dice, r.rolls@)
}

/// What the initial draw for a fudge request looks like.
pub open spec fn fudge_initial_roll(rq: RollRequest<FudgeDice>, r: FudgeRolls) -> bool {
    &&& fudge_dice_eqv(r.dice, rq.dice)
    &&& r.description@ == crate::io::write::fudge_request_desc(rq)
    &&& r.rolls@.len() == rq.number as int
    &&& fudge_batch_ok(rq.dice, r.rolls@)
}

/// What a successful request roll produced: some initial draw of the
/// request's dice, then the request's own actions applied once each, in
/// list order.
pub open spec fn num_request_roll_post(rq: RollRequest<NumericDice>, r: NumericRolls) -> bool {
    exists|initial: NumericRolls|
        #![auto]
        num_initial_roll(rq, initial) && num_rolls_chain(initial, rq.actions@, r)
}

/// Why a request roll failed: the dice cannot be rolled, or some initial
/// draw reaches a state where one of the request's actions fails.
pub open spec fn num_request_roll_fails(rq: RollRequest<NumericDice>) -> bool {
    !rq.dice.rollable() || exists|initial: NumericRolls|
        #![auto]
        num_initial_roll(rq, initial) && num_rolls_chain_fails(initial, rq.actions@)
}

/// What a successful fudge request roll produced.
pub open spec fn fudge_request_roll_post(rq: RollRequest<FudgeDice>, r: FudgeRolls) -> bool {
    exists|initial: FudgeRolls|
        #![auto]
        fudge_initial_roll(rq, initial) && fudge_rolls_chain(initial, rq.actions@, r)
}

/// Why a fudge request roll failed.
pub open spec fn fudge_request_roll_fails(rq: RollRequest<FudgeDice>) -> bool {
    !rq.dice.rollable() || exists|initial: FudgeRolls|
        #![auto]
        fudge_initial_roll(rq, initial) && fudge_rolls_chain_fails(initial, rq.actions@)
}

impl RollRequest<NumericDice> {
    /// Rolls the request's dice, then applies the request's own actions in
    /// order. The first failing action aborts with its error.
    pub fn roll(&self, gen: &mut DiceGenerator) -> (res: Result<NumericRolls, crate::errors::Error>)
        ensures
            !self.dice.rollable() ==> (res matches Err(e) && e.kind
                matches crate::errors::ErrorKind::BadDice(_)),
            self.dice.rollable() && self.actions@.len() == 0 ==> (res matches Ok(r)
                && num_initial_roll(*self, r)),
            res matches Ok(r) ==> num_request_roll_post(*self, r),
            res is Err ==> num_request_roll_fails(*self),
            res matches Ok(r) ==> num_dice_eqv(r.dice, self.dice),
            res matches Err(e) ==> (e.kind matches crate::errors::ErrorKind::BadDice(_) || e.kind
                matches crate::errors::ErrorKind::IncompatibleAction(_) || e.kind
                matches crate::errors::ErrorKind::BadActionParameter(_)),
    {
        if !self.dice.is_rollable() {
            return Err(crate::actions::bad_dice_error());
        }
        let mut rolls = Rolls::<NumericRoll, NumericDice>::new(self, gen);
        let ghost initial = rolls;
        proof {
            lemma_num_dice_eqv(rolls.dice, self.dice);
            assert(num_initial_roll(*self, initial));
            assert(self.actions@.take(0) =~= Seq::<Action>::empty());
        }
        let mut i: usize = 0;
        while i < self.actions.len()
            invariant
                i <= self.actions.len(),
                num_dice_eqv(rolls.dice, self.dice),
                self.dice.rollable(),
                num_initial_roll(*self, initial),
                num_rolls_chain(initial, self.actions@.take(i as int), rolls),
                self.actions@.len() == 0 ==> rolls == initial,
            decreases self.actions.len() - i,
        {
            let action = &self.actions[i];
            match crate::actions::Apply::apply(&rolls, action, gen) {
                Ok(next) => {
                    proof {
                        crate::actions::lemma_num_apply_post_eqv(rolls, *action, next);
                        lemma_num_dice_eqv_trans(next.dice, rolls.dice, self.dice);
                        lemma_num_rolls_chain_snoc(
                            initial,
                            self.actions@.take(i as int),
                            rolls,
                            self.actions@[i as int],
                            next,
                        );
                        assert(self.actions@.take(i + 1) =~= self.actions@.take(i as int).push(
                            self.actions@[i as int],
                        ));
                    }
                    rolls = next;
                },
                Err(e) => {
                    proof {
                        assert(num_apply_fails(rolls, self.actions@[i as int])) by {
                            assert(self.actions@[i as int] == *action);
                        }
                        assert(num_rolls_chain_fails(rolls, self.actions@.skip(i as int))) by {
                            assert(self.actions@.skip(i as int)[0] == self.actions@[i as int]);
                        }
                        lemma_num_rolls_chain_fails_compose(
                            initial,
                            self.actions@.take(i as int),
                            rolls,
                            self.actions@.skip(i as int),
                        );
                        assert(self.actions@.take(i as int) + self.actions@.skip(i as int)
                            =~= self.actions@);
                    }
                    return Err(e);
                },
            }
            i = i + 1;
        }
        proof {
            assert(self.actions@.take(self.actions@.len() as int) =~= self.actions@);
        }
        Ok(rolls)
    }
}

impl RollRequest<FudgeDice> {
    /// Rolls the request's dice, then applies the request's own actions in
    /// order. The first failing action aborts with its error.
    pub fn roll(&self, gen: &mut DiceGenerator) -> (res: Result<FudgeRolls, crate::errors::Error>)
        ensures
            !self.dice.rollable() ==> (res matches Err(e) && e.kind
                matches crate::errors::ErrorKind::BadDice(_)),
            self.dice.rollable() && self.actions@.len() == 0 ==> (res matches Ok(r)
                && fudge_initial_roll(*self, r)),
            res matches Ok(r) ==> fudge_request_roll_post(*self, r),
            res is Err ==> fudge_request_roll_fails(*self),
            res matches Ok(r) ==> fudge_dice_eqv(r.dice, self.dice),
            res matches Err(e) ==> (e.kind matches crate::errors::ErrorKind::BadDice(_) || e.kind
                matches crate::errors::ErrorKind::IncompatibleAction(_) || e.kind
                matches crate::errors::ErrorKind::BadActionParameter(_)),
    {
        if !self.dice.is_rollable() {
            return Err(crate::actions::bad_dice_error());
        }
        let mut rolls = Rolls::<FudgeRoll, FudgeDice>::new(self, gen);
        let ghost initial = rolls;
        proof {
            lemma_fudge_dice_eqv(rolls.dice, self.dice);
            assert(fudge_initial_roll(*self, initial));
            assert(self.actions@.take(0) =~= Seq::<Action>::empty());
        }
        let mut i: usize = 0;
        while i < self.actions.len()
            invariant
                i <= self.actions.len(),
                fudge_dice_eqv(rolls.dice, self.dice),
                self.dice.rollable(),
                fudge_initial_roll(*self, initial),
                fudge_rolls_chain(initial, self.actions@.take(i as int), rolls),
                self.actions@.len() == 0 ==> rolls == initial,
            decreases self.actions.len() - i,
        {
            let action = &self.actions[i];
            match crate::actions::Apply::apply(&rolls, action, gen) {
                Ok(next) => {
                    proof {
                        crate::actions::lemma_fudge_apply_post_eqv(rolls, *action, next);
                        lemma_fudge_dice_eqv_trans(next.dice, rolls.dice, self.dice);
                        lemma_fudge_rolls_chain_snoc(
                            initial,
                            self.actions@.take(i as int),
                            rolls,
                            self.actions@[i as int],
                            next,
                        );
                        assert(self.actions@.take(i + 1) =~= self.actions@.take(i as int).push(
                            self.actions@[i as int],
                        ));
                    }
                    rolls = next;
                },
                Err(e) => {
                    proof {
                        assert(fudge_apply_fails(rolls, self.actions@[i as int])) by {
                            assert(self.actions@[i as int] == *action);
                        }
                        assert(fudge_rolls_chain_fails(rolls, self.actions@.skip(i as int))) by {
                            assert(self.actions@.skip(i as int)[0] == self.actions@[i as int]);
                        }
                        lemma_fudge_rolls_chain_fails_compose(
                            initial,
                            self.actions@.take(i as int),
                            rolls,
                            self.actions@.skip(i as int),
                        );
                        assert(self.actions@.take(i as int) + self.actions@.skip(i as int)
                            =~= self.actions@);
                    }
                    return Err(e);
                },
            }
            i = i + 1;
        }
        proof {
            assert(self.actions@.take(self.actions@.len() as int) =~= self.actions@);
        }
        Ok(rolls)
    }
}

} // verus!
