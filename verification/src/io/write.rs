//! Rendering dice, requests and rolls as text. Each `to_string` method is
//! specified exactly by a spec function over character sequences.

use crate::dice::{
    FudgeDice, FudgeRoll, FudgeRolls, NumericDice, NumericRoll, NumericRolls, RollRequest,
};
use crate::text::{dec_str, join_seq, join_step, push_dec};
use vstd::prelude::*;

verus! {

/// The character a fudge roll renders as.
pub open spec fn fudge_roll_char(r: FudgeRoll) -> char {
    match r {
        FudgeRoll::Blank => '0',
        FudgeRoll::Plus => '+',
        FudgeRoll::Minus => '-',
    }
}

impl FudgeRoll {
    /// Renders as `0`, `+` or `-`.
    pub fn to_string(&self) -> (s: String)
        ensures
            s@ == seq![fudge_roll_char(*self)],
    {
        let mut s = String::new();
        let c = match self {
            FudgeRoll::Blank => '0',
            FudgeRoll::Plus => '+',
            FudgeRoll::Minus => '-',
        };
        s.push(c);
        proof {
            assert(s@ =~= seq![fudge_roll_char(*self)]);
        }
        s
    }
}

/// The rendering of repeating numeric values: each value followed by a comma.
pub open spec fn rep_items_num(vs: Seq<NumericRoll>) -> Seq<char>
    decreases vs.len(),
{
    if vs.len() == 0 {
        Seq::empty()
    } else {
        rep_items_num(vs.drop_last()) + dec_str(vs.last() as int) + seq![',']
    }
}

/// The rendering of repeating fudge values: each value followed by a comma.
pub open spec fn rep_items_fudge(vs: Seq<FudgeRoll>) -> Seq<char>
    decreases vs.len(),
{
    if vs.len() == 0 {
        Seq::empty()
    } else {
        rep_items_fudge(vs.drop_last()) + seq![fudge_roll_char(vs.last()), ',']
    }
}

/// The rendering of a numeric dice: `+5`, `D20`, `[1,2,3,...]` or
/// `AggregatedValue`.
pub open spec fn num_dice_desc(d: NumericDice) -> Seq<char> {
    match d {
        NumericDice::ConstDice(const_value) => seq!['+'] + dec_str(const_value as int),
        NumericDice::NumberedDice(sides) => seq!['D'] + dec_str(sides as int),
        NumericDice::RepeatingDice(values) => seq!['['] + rep_items_num(values@) + "...]"@,
        NumericDice::AggregationResult => "AggregatedValue"@,
    }
}

/// The rendering of a fudge dice: `F`, the constant's symbol, or the
/// repeating values.
pub open spec fn fudge_dice_desc(d: FudgeDice) -> Seq<char> {
    match d {
        FudgeDice::FudgeDice => seq!['F'],
        FudgeDice::ConstDice(const_value) => seq![fudge_roll_char(const_value)],
        FudgeDice::RepeatingDice(values) => seq!['['] + rep_items_fudge(values@) + "...]"@,
    }
}

impl NumericDice {
    /// Renders as `+5`, `D20`, `[1,2,3,...]` or `AggregatedValue`.
    pub fn to_string(&self) -> (s: String)
        ensures
            s@ == num_dice_desc(*self),
    {
        match self {
            NumericDice::ConstDice(const_value) => {
                let mut s = String::new();
                s.push('+');
                push_dec(&mut s, *const_value);
                proof {
                    assert(s@ =~= num_dice_desc(*self));
                }
                s
            },
            NumericDice::NumberedDice(sides) => {
                let mut s = String::new();
                s.push('D');
                push_dec(&mut s, *sides);
                proof {
                    assert(s@ =~= num_dice_desc(*self));
                }
                s
            },
            NumericDice::RepeatingDice(values) => {
                let mut s = String::new();
                s.push('[');
                proof {
                    assert(s@ =~= seq!['['] + rep_items_num(values@.take(0)));
                }
                let mut i: usize = 0;
                while i < values.len()
                    invariant
                        i <= values.len(),
                        s@ == seq!['['] + rep_items_num(values@.take(i as int)),
                    decreases values.len() - i,
                {
                    push_dec(&mut s, values[i]);
                    s.push(',');
                    proof {
                        assert(values@.take(i + 1).drop_last() =~= values@.take(i as int));
                        assert(values@.take(i + 1).last() == values@[i as int]);
                        assert(s@ =~= seq!['['] + rep_items_num(values@.take(i + 1)));
                    }
                    i = i + 1;
                }
                s.append("...]");
                proof {
                    assert(values@.take(values@.len() as int) =~= values@);
                    assert(s@ =~= num_dice_desc(*self));
                }
                s
            },
            NumericDice::AggregationResult => String::from_str("AggregatedValue"),
        }
    }
}

impl FudgeDice {
    /// Renders as `F`, the constant's symbol, or the repeating values.
    pub fn to_string(&self) -> (s: String)
        ensures
            s@ == fudge_dice_desc(*self),
    {
        match self {
            FudgeDice::FudgeDice => {
                let mut s = String::new();
                s.push('F');
                proof {
                    assert(s@ =~= fudge_dice_desc(*self));
                }
                s
            },
            FudgeDice::ConstDice(const_value) => const_value.to_string(),
            FudgeDice::RepeatingDice(values) => {
                let mut s = String::new();
                s.push('[');
                proof {
                    assert(s@ =~= seq!['['] + rep_items_fudge(values@.take(0)));
                }
                let mut i: usize = 0;
                while i < values.len()
                    invariant
                        i <= values.len(),
                        s@ == seq!['['] + rep_items_fudge(values@.take(i as int)),
                    decreases values.len() - i,
                {
                    let c = match values[i] {
                        FudgeRoll::Blank => '0',
                        FudgeRoll::Plus => '+',
                        FudgeRoll::Minus => '-',
                    };
                    s.push(c);
                    s.push(',');
                    proof {
                        assert(values@.take(i + 1).drop_last() =~= values@.take(i as int));
                        assert(values@.take(i + 1).last() == values@[i as int]);
                        assert(s@ =~= seq!['['] + rep_items_fudge(values@.take(i + 1)));
                    }
                    i = i + 1;
                }
                s.append("...]");
                proof {
                    assert(values@.take(values@.len() as int) =~= values@);
                    assert(s@ =~= fudge_dice_desc(*self));
                }
                s
            },
        }
    }
}

/// An identifier prefix `ID: `, or nothing.
pub open spec fn opt_id_prefix(id: Option<String>) -> Seq<char> {
    match id {
        Some(name) => name@ + ": "@,
        None => Seq::empty(),
    }
}

/// The rendering of a numeric roll request: optional identifier prefix, roll
/// count, then the dice.
pub open spec fn num_request_desc(rq: RollRequest<NumericDice>) -> Seq<char> {
    opt_id_prefix(rq.id) + dec_str(rq.number as int) + num_dice_desc(rq.dice)
}

/// The rendering of a fudge roll request.
pub open spec fn fudge_request_desc(rq: RollRequest<FudgeDice>) -> Seq<char> {
    opt_id_prefix(rq.id) + dec_str(rq.number as int) + fudge_dice_desc(rq.dice)
}

impl RollRequest<NumericDice> {
    /// Renders as `FIRE: 10D12`, `5D8`, `1+5`, and so on.
    pub fn to_string(&self) -> (s: String)
        ensures
            s@ == num_request_desc(*self),
    {
        let mut s = String::new();
        match &self.id {
            Some(name) => {
                s.append(name.as_str());
                s.append(": ");
            },
            None => {},
        }
        push_dec(&mut s, self.number as u32);
        let dice_str = self.dice.to_string();
        s.append(dice_str.as_str());
        proof {
            assert(s@ =~= num_request_desc(*self));
        }
        s
    }
}

impl RollRequest<FudgeDice> {
    /// Renders as `5F`, `ICE: 2F`, and so on.
    pub fn to_string(&self) -> (s: String)
        ensures
            s@ == fudge_request_desc(*self),
    {
        let mut s = String::new();
        match &self.id {
            Some(name) => {
                s.append(name.as_str());
                s.append(": ");
            },
            None => {},
        }
        push_dec(&mut s, self.number as u32);
        let dice_str = self.dice.to_string();
        s.append(dice_str.as_str());
        proof {
            assert(s@ =~= fudge_request_desc(*self));
        }
        s
    }
}

/// The renderings of a sequence of numeric roll values.
pub open spec fn num_vals_strs(vals: Seq<NumericRoll>) -> Seq<Seq<char>> {
    vals.map_values(|v: NumericRoll| dec_str(v as int))
}

/// The renderings of a sequence of fudge roll values.
pub open spec fn fudge_vals_strs(vals: Seq<FudgeRoll>) -> Seq<Seq<char>> {
    vals.map_values(|v: FudgeRoll| seq![fudge_roll_char(v)])
}

/// A comma-separated list of numeric values, as used inside action
/// descriptions like `Reroll(1,2)`.
pub fn num_vals_list(vals: &Vec<NumericRoll>) -> (s: String)
    ensures
        s@ == join_seq(num_vals_strs(vals@), ","@),
{
    let mut s = String::new();
    proof {
        assert(s@ =~= join_seq(num_vals_strs(vals@).take(0), ","@));
    }
    let mut i: usize = 0;
    while i < vals.len()
        invariant
            i <= vals.len(),
            s@ == join_seq(num_vals_strs(vals@).take(i as int), ","@),
        decreases vals.len() - i,
    {
        let piece = crate::text::u32_to_string(vals[i]);
        join_step(&mut s, ",", piece.as_str(), i == 0);
        proof {
            let ghost strs = num_vals_strs(vals@);
            assert(strs.take(i + 1) =~= strs.take(i as int).push(strs[i as int]));
            crate::text::lemma_join_push(strs.take(i as int), ","@, strs[i as int]);
            assert(s@ =~= join_seq(strs.take(i + 1), ","@));
        }
        i = i + 1;
    }
    proof {
        let ghost strs = num_vals_strs(vals@);
        assert(strs.take(strs.len() as int) =~= strs);
    }
    s
}

/// A comma-separated list of fudge values, as used inside action
/// descriptions like `Reroll(+,0)`.
pub fn fudge_vals_list(vals: &Vec<FudgeRoll>) -> (s: String)
    ensures
        s@ == join_seq(fudge_vals_strs(vals@), ","@),
{
    let mut s = String::new();
    proof {
        assert(s@ =~= join_seq(fudge_vals_strs(vals@).take(0), ","@));
    }
    let mut i: usize = 0;
    while i < vals.len()
        invariant
            i <= vals.len(),
            s@ == join_seq(fudge_vals_strs(vals@).take(i as int), ","@),
        decreases vals.len() - i,
    {
        let piece = vals[i].to_string();
        join_step(&mut s, ",", piece.as_str(), i == 0);
        proof {
            let ghost strs = fudge_vals_strs(vals@);
            assert(strs.take(i + 1) =~= strs.take(i as int).push(strs[i as int]));
            crate::text::lemma_join_push(strs.take(i as int), ","@, strs[i as int]);
            assert(s@ =~= join_seq(strs.take(i + 1), ","@));
        }
        i = i + 1;
    }
    proof {
        let ghost strs = fudge_vals_strs(vals@);
        assert(strs.take(strs.len() as int) =~= strs);
    }
    s
}

/// The rendering of a numeric roll result: `description: value value ...`.
pub open spec fn num_rolls_desc(r: NumericRolls) -> Seq<char> {
    r.description@ + ": "@ + join_seq(num_vals_strs(r.rolls@), " "@)
}

/// The rendering of a fudge roll result: `description: value value ...`.
pub open spec fn fudge_rolls_desc(r: FudgeRolls) -> Seq<char> {
    r.description@ + ": "@ + join_seq(fudge_vals_strs(r.rolls@), " "@)
}

impl NumericRolls {
    /// Renders as `description: value value ...`.
    pub fn to_string(&self) -> (s: String)
        ensures
            s@ == num_rolls_desc(*self),
    {
        let mut s = self.description.clone();
        s.append(": ");
        let ghost prefix = self.description@ + ": "@;
        proof {
            assert(num_vals_strs(self.rolls@.take(0)) =~= num_vals_strs(self.rolls@).take(0));
            assert(s@ =~= prefix + join_seq(num_vals_strs(self.rolls@).take(0), " "@));
        }
        let mut i: usize = 0;
        while i < self.rolls.len()
            invariant
                i <= self.rolls.len(),
                prefix == self.description@ + ": "@,
                s@ == prefix + join_seq(num_vals_strs(self.rolls@).take(i as int), " "@),
            decreases self.rolls.len() - i,
        {
            let piece = crate::text::u32_to_string(self.rolls[i]);
            join_step(&mut s, " ", piece.as_str(), i == 0);
            proof {
                let ghost strs = num_vals_strs(self.rolls@);
                assert(strs.take(i + 1) =~= strs.take(i as int).push(strs[i as int]));
                crate::text::lemma_join_push(strs.take(i as int), " "@, strs[i as int]);
                assert(s@ =~= prefix + join_seq(strs.take(i + 1), " "@));
            }
            i = i + 1;
        }
        proof {
            let ghost strs = num_vals_strs(self.rolls@);
            assert(strs.take(strs.len() as int) =~= strs);
            assert(s@ =~= num_rolls_desc(*self));
        }
        s
    }
}

impl FudgeRolls {
    /// Renders as `description: value value ...`.
    pub fn to_string(&self) -> (s: String)
        ensures
            s@ == fudge_rolls_desc(*self),
    {
        let mut s = self.description.clone();
        s.append(": ");
        let ghost prefix = self.description@ + ": "@;
        proof {
            assert(fudge_vals_strs(self.rolls@.take(0)) =~= fudge_vals_strs(self.rolls@).take(0));
            assert(s@ =~= prefix + join_seq(fudge_vals_strs(self.rolls@).take(0), " "@));
        }
        let mut i: usize = 0;
        while i < self.rolls.len()
            invariant
                i <= self.rolls.len(),
                prefix == self.description@ + ": "@,
                s@ == prefix + join_seq(fudge_vals_strs(self.rolls@).take(i as int), " "@),
            decreases self.rolls.len() - i,
        {
            let piece = self.rolls[i].to_string();
            join_step(&mut s, " ", piece.as_str(), i == 0);
            proof {
                let ghost strs = fudge_vals_strs(self.rolls@);
                assert(strs.take(i + 1) =~= strs.take(i as int).push(strs[i as int]));
                crate::text::lemma_join_push(strs.take(i as int), " "@, strs[i as int]);
                assert(s@ =~= prefix + join_seq(strs.take(i + 1), " "@));
            }
            i = i + 1;
        }
        proof {
            let ghost strs = fudge_vals_strs(self.rolls@);
            assert(strs.take(strs.len() as int) =~= strs);
            assert(s@ =~= fudge_rolls_desc(*self));
        }
        s
    }
}

/// The rendering of a whole list of roll results, one per line.
pub open spec fn num_session_desc(rolls: Seq<NumericRolls>) -> Seq<char> {
    join_seq(rolls.map_values(|r: NumericRolls| num_rolls_desc(r)), "\n"@)
}

/// The rendering of a whole list of fudge roll results, one per line.
pub open spec fn fudge_session_desc(rolls: Seq<FudgeRolls>) -> Seq<char> {
    join_seq(rolls.map_values(|r: FudgeRolls| fudge_rolls_desc(r)), "\n"@)
}

impl crate::NumericSession {
    /// Renders each roll result on its own line.
    pub fn to_string(&self) -> (s: String)
        ensures
            s@ == num_session_desc(self.rolls@),
    {
        let mut s = String::new();
        let ghost parts = self.rolls@.map_values(|r: NumericRolls| num_rolls_desc(r));
        proof {
            assert(s@ =~= join_seq(parts.take(0), "\n"@));
        }
        let mut i: usize = 0;
        while i < self.rolls.len()
            invariant
                i <= self.rolls.len(),
                parts == self.rolls@.map_values(|r: NumericRolls| num_rolls_desc(r)),
                s@ == join_seq(parts.take(i as int), "\n"@),
            decreases self.rolls.len() - i,
        {
            let piece = self.rolls[i].to_string();
            join_step(&mut s, "\n", piece.as_str(), i == 0);
            proof {
                assert(parts.take(i + 1) =~= parts.take(i as int).push(parts[i as int]));
                crate::text::lemma_join_push(parts.take(i as int), "\n"@, parts[i as int]);
                assert(s@ =~= join_seq(parts.take(i + 1), "\n"@));
            }
            i = i + 1;
        }
        proof {
            assert(parts.take(parts.len() as int) =~= parts);
        }
        s
    }
}

impl crate::FudgeSession {
    /// Renders each roll result on its own line.
    pub fn to_string(&self) -> (s: String)
        ensures
            s@ == fudge_session_desc(self.rolls@),
    {
        let mut s = String::new();
        let ghost parts = self.rolls@.map_values(|r: FudgeRolls| fudge_rolls_desc(r));
        proof {
            assert(s@ =~= join_seq(parts.take(0), "\n"@));
        }
        let mut i: usize = 0;
        while i < self.rolls.len()
            invariant
                i <= self.rolls.len(),
                parts == self.rolls@.map_values(|r: FudgeRolls| fudge_rolls_desc(r)),
                s@ == join_seq(parts.take(i as int), "\n"@),
            decreases self.rolls.len() - i,
        {
            let piece = self.rolls[i].to_string();
            join_step(&mut s, "\n", piece.as_str(), i == 0);
            proof {
                assert(parts.take(i + 1) =~= parts.take(i as int).push(parts[i as int]));
                crate::text::lemma_join_push(parts.take(i as int), "\n"@, parts[i as int]);
                assert(s@ =~= join_seq(parts.take(i + 1), "\n"@));
            }
            i = i + 1;
        }
        proof {
            assert(parts.take(parts.len() as int) =~= parts);
        }
        s
    }
}

/// The rendering of a multi-type session: the numeric session first, then
/// the fudge session, joined by a line break when both are present.
pub open spec fn multi_session_desc(m: &crate::MultiTypeSession) -> Seq<char> {
    match (m.numeric_session, m.fudge_session) {
        (Some(n), Some(f)) => num_session_desc(n.rolls@) + "\n"@ + fudge_session_desc(f.rolls@),
        (Some(n), None) => num_session_desc(n.rolls@),
        (None, Some(f)) => fudge_session_desc(f.rolls@),
        (None, None) => Seq::empty(),
    }
}

impl crate::MultiTypeSession {
    /// Renders the numeric session before the fudge session, one roll result
    /// per line.
    pub fn to_string(&self) -> (s: String)
        ensures
            s@ == multi_session_desc(self),
    {
        let mut s = String::new();
        let mut first = true;
        match &self.numeric_session {
            Some(session) => {
                let part = session.to_string();
                s.append(part.as_str());
                first = false;
            },
            None => {},
        }
        match &self.fudge_session {
            Some(session) => {
                let part = session.to_string();
                if !first {
                    s.append("\n");
                }
                s.append(part.as_str());
            },
            None => {},
        }
        proof {
            assert(s@ =~= multi_session_desc(self));
        }
        s
    }
}

} // verus!
