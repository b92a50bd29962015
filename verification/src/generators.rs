//! Simple one-roll-at-a-time generators: a mock with a fixed value and a
//! numbered dice backed by the random source.

use crate::rng;
use vstd::prelude::*;

verus! {

/// One draw: the dice it came from and the rolled value.
#[derive(Debug, Clone)]
pub struct RollResult {
    pub dice: u16,
    pub result: u16,
}

impl RollResult {
    pub fn new(dice: u16, result: u16) -> (r: RollResult)
        ensures
            r.dice == dice,
            r.result == result,
    {
        RollResult { dice, result }
    }
}

/// The kinds of simple generators.
#[derive(Debug)]
pub enum DiceKind {
    Mock(u16),
    NumberedDice(u16),
}

/// A generator that produces one roll at a time.
pub trait Roll {
    /// What any roll drawn from this generator satisfies.
    spec fn roll_post(&self, r: RollResult) -> bool;

    fn roll(&mut self) -> (r: RollResult)
        ensures
            old(self).roll_post(r),
    ;
}

/// A generator that always rolls its fixed value.
pub struct Mock {
    pub mock_value: u16,
}

impl Mock {
    pub fn new(mock_value: u16) -> (m: Mock)
        ensures
            m.mock_value == mock_value,
    {
        Mock { mock_value }
    }
}

impl Roll for Mock {
    open spec fn roll_post(&self, r: RollResult) -> bool {
        r.dice == self.mock_value && r.result == self.mock_value
    }

    fn roll(&mut self) -> (r: RollResult)
        ensures
            final(self).mock_value == old(self).mock_value,
    {
        RollResult { dice: self.mock_value, result: self.mock_value }
    }
}

/// A generator that draws uniformly from a numbered dice.
pub struct NumberedDice {
    pub dice: u16,
    pub rng: rand::rngs::ThreadRng,
}

impl NumberedDice {
    pub fn new(dice: u16) -> (n: NumberedDice)
        ensures
            n.dice == dice,
    {
        NumberedDice { dice, rng: rng::fresh_rng() }
    }
}

impl Roll for NumberedDice {
    open spec fn roll_post(&self, r: RollResult) -> bool {
        r.dice == self.dice && (self.dice >= 1 ==> 1 <= r.result <= self.dice)
    }

    fn roll(&mut self) -> (r: RollResult)
        ensures
            final(self).dice == old(self).dice,
    {
        let result: u16 = if self.dice >= 1 {
            let v = rng::draw_in_range(&mut self.rng, self.dice as u32);
            v as u16
        } else {
            0
        };
        RollResult { dice: self.dice, result }
    }
}

} // verus!
