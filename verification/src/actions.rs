//! `actions` is a collection of transformations that can be applied
//! to dice rolls: rerolling values, multiplying, computing the sum, etc.
//!
//! Some actions are only defined for a kind of roll (for example, you can
//! sum numeric rolls but not fudge rolls).

use crate::dice::{
    copy_fudge_dice, copy_num_dice, copy_rolls, fudge_batch_ok, fudge_dice_eqv, num_batch_ok,
    num_dice_eqv, num_dice_max, num_draw_ok, fudge_draw_ok, DiceBounds, DiceGenerator, DiceNumber,
    FudgeDice, FudgeRoll, FudgeRolls, NumericDice, NumericRoll, NumericRolls, RollBounds, Rolls,
};
use crate::errors::{Error, ErrorKind};
use crate::TypedRollSession;
use crate::io::write::{fudge_vals_list, fudge_vals_strs, num_vals_list, num_vals_strs};
use crate::text::{dec_str, join_seq, join_step, push_dec, push_dec64};
use vstd::arithmetic::div_mod::lemma_div_denominator;
use vstd::prelude::*;
use vstd::multiset::Multiset;
use vstd::seq_lib::lemma_multiset_commutative;

verus! {

/// Enumeration of all possible actions
#[derive(Debug, PartialEq, Eq, Clone)]
pub enum Action {
    /// Rerolls the dice for the values equal to the action parameters (numeric rolls only).
    RerollNumeric(Vec<NumericRoll>),
    /// Rerolls the dice for the values equal to the action parameters (fudge rolls only).
    RerollFudge(Vec<FudgeRoll>),
    /// Sum the rolls for each dice (numeric rolls only).
    Sum,
    /// Sum all the dice of the session at once (numeric rolls only).
    Total,
    /// Multiply the rolls by the action parameter (numeric rolls only).
    MultiplyBy(NumericRoll),
    /// Invert the digits of the rolls (numeric rolls only).
    FlipFlop,
    /// Add new rolls for rolls equal to the action parameters (numeric rolls only).
    Explode(Vec<NumericRoll>),
    /// Add new rolls for rolls equal to the action parameters (fudge rolls only).
    ExplodeFudge(Vec<FudgeRoll>),
    /// Keep only the N best rolls (numeric rolls only).
    KeepBest(DiceNumber),
    /// Keep only the N worst rolls (numeric rolls only).
    KeepWorst(DiceNumber),
    /// Reroll the N best rolls (numeric rolls only).
    RerollBest(DiceNumber),
    /// Reroll the N worst rolls (numeric rolls only).
    RerollWorst(DiceNumber),
}

/// The name an action is reported under in error messages.
pub open spec fn action_name(a: Action) -> Seq<char> {
    match a {
        Action::RerollNumeric(_) => "RerollNumeric"@,
        Action::RerollFudge(_) => "RerollFudge"@,
        Action::Sum => "Sum"@,
        Action::Total => "Total"@,
        Action::MultiplyBy(_) => "MultiplyBy"@,
        Action::FlipFlop => "FlipFlop"@,
        Action::Explode(_) => "Explode"@,
        Action::ExplodeFudge(_) => "ExplodeFudge"@,
        Action::KeepBest(_) => "KeepBest"@,
        Action::KeepWorst(_) => "KeepWorst"@,
        Action::RerollBest(_) => "RerollBest"@,
        Action::RerollWorst(_) => "RerollWorst"@,
    }
}

impl Action {
    /// The action's name, for error messages.
    pub fn name(&self) -> (s: String)
        ensures
            s@ == action_name(*self),
    {
        match self {
            Action::RerollNumeric(_) => String::from_str("RerollNumeric"),
            Action::RerollFudge(_) => String::from_str("RerollFudge"),
            Action::Sum => String::from_str("Sum"),
            Action::Total => String::from_str("Total"),
            Action::MultiplyBy(_) => String::from_str("MultiplyBy"),
            Action::FlipFlop => String::from_str("FlipFlop"),
            Action::Explode(_) => String::from_str("Explode"),
            Action::ExplodeFudge(_) => String::from_str("ExplodeFudge"),
            Action::KeepBest(_) => String::from_str("KeepBest"),
            Action::KeepWorst(_) => String::from_str("KeepWorst"),
            Action::RerollBest(_) => String::from_str("RerollBest"),
            Action::RerollWorst(_) => String::from_str("RerollWorst"),
        }
    }
}

/// Enumeration of all possible aggregations.
///
/// An aggregation is a final action: you can't apply any other action afterward.
#[derive(Debug, PartialEq, Eq, Clone, Copy)]
pub enum Aggregation {
    /// Count occurrences of the different result values.
    CountValues,
}

/// The arithmetic sum of a sequence of roll values.
pub open spec fn sum_of(s: Seq<NumericRoll>) -> int
    decreases s.len(),
{
    if s.len() == 0 {
        0
    } else {
        sum_of(s.drop_last()) + s.last()
    }
}

/// The sum never shrinks when the sequence grows: a prefix sums to no more
/// than the whole.
pub proof fn lemma_sum_prefix(s: Seq<NumericRoll>, k: int)
    requires
        0 <= k <= s.len(),
    ensures
        sum_of(s.take(k)) <= sum_of(s),
    decreases s.len(),
{
    if s.len() == 0 || k == s.len() {
        assert(s.take(k) =~= s);
    } else {
        assert(s.drop_last().take(k) =~= s.take(k));
        lemma_sum_prefix(s.drop_last(), k);
    }
}

/// A sum of roll values is never negative.
pub proof fn lemma_sum_nonneg(s: Seq<NumericRoll>)
    ensures
        sum_of(s) >= 0,
    decreases s.len(),
{
    if s.len() > 0 {
        lemma_sum_nonneg(s.drop_last());
    }
}

/// The sum of the values, or `None` when it exceeds the roll range.
pub fn checked_sum(v: &Vec<NumericRoll>) -> (r: Option<u32>)
    ensures
        r matches Some(s) ==> s as int == sum_of(v@) && sum_of(v@) <= u32::MAX,
        r is None ==> sum_of(v@) > u32::MAX,
{
    let mut acc: u64 = 0;
    let mut i: usize = 0;
    while i < v.len()
        invariant
            i <= v.len(),
            acc <= u32::MAX,
            acc as int == sum_of(v@.take(i as int)),
        decreases v.len() - i,
    {
        acc = acc + v[i] as u64;
        proof {
            assert(v@.take(i + 1).drop_last() =~= v@.take(i as int));
            assert(v@.take(i + 1).last() == v@[i as int]);
        }
        if acc > 0xffff_ffffu64 {
            proof {
                lemma_sum_prefix(v@, i + 1);
            }
            return None;
        }
        i = i + 1;
    }
    proof {
        assert(v@.take(v@.len() as int) =~= v@);
    }
    Some(acc as u32)
}

/// Whether a sequence of roll values is in ascending order.
pub open spec fn is_sorted(s: Seq<NumericRoll>) -> bool {
    forall|i: int, j: int| 0 <= i <= j < s.len() ==> s[i] <= s[j]
}

/// Inserting a value into an ascending sequence, keeping the order.
pub open spec fn insert_sorted(s: Seq<NumericRoll>, x: NumericRoll) -> Seq<NumericRoll>
    decreases s.len(),
{
    if s.len() == 0 {
        seq![x]
    } else if x >= s.last() {
        s.push(x)
    } else {
        insert_sorted(s.drop_last(), x).push(s.last())
    }
}

/// The values of a sequence rearranged in ascending order.
pub open spec fn sorted_of(s: Seq<NumericRoll>) -> Seq<NumericRoll>
    decreases s.len(),
{
    if s.len() == 0 {
        Seq::empty()
    } else {
        insert_sorted(sorted_of(s.drop_last()), s.last())
    }
}

/// Inserting into an ascending sequence adds the value to the multiset and
/// keeps everything else.
pub proof fn lemma_insert_sorted_ensures(s: Seq<NumericRoll>, x: NumericRoll)
    ensures
        insert_sorted(s, x).len() == s.len() + 1,
        insert_sorted(s, x).to_multiset() == s.to_multiset().insert(x),
    decreases s.len(),
{
    broadcast use vstd::seq_lib::group_to_multiset_ensures;

    if s.len() == 0 {
        assert(seq![x] =~= Seq::<NumericRoll>::empty().push(x));
        assert(Seq::<NumericRoll>::empty().push(x).to_multiset() =~= Seq::<
            NumericRoll,
        >::empty().to_multiset().insert(x));
        assert(Seq::<NumericRoll>::empty().to_multiset() =~= Multiset::<NumericRoll>::empty());
    } else if x >= s.last() {
    } else {
        lemma_insert_sorted_ensures(s.drop_last(), x);
        assert(s.drop_last().push(s.last()) =~= s);
        assert(insert_sorted(s, x).to_multiset() =~= s.drop_last().to_multiset().insert(x).insert(
            s.last(),
        ));
        assert(s.drop_last().to_multiset().insert(x).insert(s.last()) =~= s.drop_last().to_multiset().insert(
            s.last(),
        ).insert(x));
    }
}

/// Where the new value lands: inserting at the position that keeps the order.
pub proof fn lemma_insert_sorted_at(s: Seq<NumericRoll>, x: NumericRoll, idx: int)
    requires
        is_sorted(s),
        0 <= idx <= s.len(),
        forall|j: int| 0 <= j < idx ==> s[j] <= x,
        forall|j: int| idx <= j < s.len() ==> s[j] > x,
    ensures
        insert_sorted(s, x) == s.take(idx) + seq![x] + s.skip(idx),
    decreases s.len(),
{
    if s.len() == 0 {
        assert(insert_sorted(s, x) =~= s.take(idx) + seq![x] + s.skip(idx));
    } else if x >= s.last() {
        assert(idx == s.len());
        assert(s.take(idx) =~= s);
        assert(insert_sorted(s, x) =~= s.take(idx) + seq![x] + s.skip(idx));
    } else {
        assert(idx < s.len());
        let dl = s.drop_last();
        lemma_insert_sorted_at(dl, x, idx);
        assert(dl.take(idx) =~= s.take(idx));
        assert((dl.take(idx) + seq![x] + dl.skip(idx)).push(s.last()) =~= s.take(idx) + seq![x]
            + s.skip(idx));
    }
}

/// Sorting keeps the length and the multiset of values.
pub proof fn lemma_sorted_of_ensures(s: Seq<NumericRoll>)
    ensures
        sorted_of(s).len() == s.len(),
        sorted_of(s).to_multiset() == s.to_multiset(),
    decreases s.len(),
{
    broadcast use vstd::seq_lib::group_to_multiset_ensures;

    if s.len() == 0 {
        assert(sorted_of(s).to_multiset() =~= s.to_multiset());
    } else {
        lemma_sorted_of_ensures(s.drop_last());
        lemma_insert_sorted_ensures(sorted_of(s.drop_last()), s.last());
        assert(s.drop_last().push(s.last()) =~= s);
    }
}

/// The ascending rearrangement of values, computed by insertion.
pub fn sort_vec(v: &Vec<NumericRoll>) -> (r: Vec<NumericRoll>)
    ensures
        r@ == sorted_of(v@),
        is_sorted(r@),
        r@.len() == v@.len(),
{
    let mut r: Vec<NumericRoll> = Vec::new();
    let mut i: usize = 0;
    proof {
        assert(r@ =~= sorted_of(v@.take(0)));
    }
    while i < v.len()
        invariant
            i <= v.len(),
            r@ == sorted_of(v@.take(i as int)),
            is_sorted(r@),
            r@.len() == i as int,
        decreases v.len() - i,
    {
        let x = v[i];
        let mut idx: usize = 0;
        while idx < r.len() && r[idx] <= x
            invariant
                idx <= r.len(),
                forall|j: int| 0 <= j < idx ==> r@[j] <= x,
            decreases r.len() - idx,
        {
            idx = idx + 1;
        }
        proof {
            assert(forall|j: int| idx <= j < r@.len() ==> r@[j] > x) by {
                if idx < r@.len() {
                    assert(r@[idx as int] > x);
                    assert(forall|j: int| idx <= j < r@.len() ==> r@[idx as int] <= r@[j]);
                }
            }
            lemma_insert_sorted_at(r@, x, idx as int);
        }
        let ghost old_r = r@;
        r.insert(idx, x);
        proof {
            assert(r@ =~= old_r.take(idx as int) + seq![x] + old_r.skip(idx as int));
            assert(r@ == insert_sorted(old_r, x));
            assert(v@.take(i + 1).drop_last() =~= v@.take(i as int));
            assert(v@.take(i + 1).last() == v@[i as int]);
            assert(r@ == sorted_of(v@.take(i + 1)));
            lemma_insert_sorted_ensures(old_r, x);
            assert(is_sorted(r@)) by {
                assert(forall|a: int, b: int|
                    0 <= a <= b < r@.len() ==> r@[a] <= r@[b]) by {
                    assert forall|a: int, b: int| 0 <= a <= b < r@.len() implies r@[a] <= r@[b] by {
                        if b < idx {
                        } else if a > idx {
                            assert(r@[a] == old_r[a - 1] && r@[b] == old_r[b - 1]);
                        } else if a == idx && b == idx {
                        } else if a < idx && b == idx {
                            assert(r@[a] == old_r[a] && old_r[a] <= x);
                        } else if a == idx {
                            assert(r@[b] == old_r[b - 1] && old_r[b - 1] > x);
                        } else {
                            assert(r@[a] == old_r[a] && old_r[a] <= x);
                            assert(r@[b] == old_r[b - 1] && old_r[b - 1] > x);
                        }
                    }
                }
            }
        }
        i = i + 1;
    }
    proof {
        assert(v@.take(v@.len() as int) =~= v@);
        lemma_sorted_of_ensures(v@);
    }
    r
}

/// The `n` largest values, in ascending order: the tail of the sorted values.
pub open spec fn keep_best_spec(s: Seq<NumericRoll>, n: int) -> Seq<NumericRoll> {
    sorted_of(s).skip(s.len() - n)
}

/// The `n` smallest values, in ascending order: the head of the sorted values.
pub open spec fn keep_worst_spec(s: Seq<NumericRoll>, n: int) -> Seq<NumericRoll> {
    sorted_of(s).take(n)
}

/// Keeping the `n` best and keeping the `len - n` worst of the same rolls are
/// complementary: together, their value multisets partition the original
/// values exactly.
pub proof fn lemma_keep_partition(vals: Seq<NumericRoll>, n: int)
    requires
        0 <= n <= vals.len(),
    ensures
        keep_best_spec(vals, n).to_multiset().add(
            keep_worst_spec(vals, vals.len() - n).to_multiset(),
        ) == vals.to_multiset(),
{
    lemma_sorted_of_ensures(vals);
    let sorted = sorted_of(vals);
    let cut = vals.len() - n;
    assert(sorted =~= sorted.take(cut) + sorted.skip(cut));
    lemma_multiset_commutative(sorted.take(cut), sorted.skip(cut));
    assert(sorted.skip(cut).to_multiset().add(sorted.take(cut).to_multiset())
        =~= sorted.take(cut).to_multiset().add(sorted.skip(cut).to_multiset()));
}

/// Ten to the given power (one for non-positive exponents).
pub open spec fn pow10(k: int) -> int
    decreases k,
{
    if k <= 0 {
        1
    } else {
        10 * pow10(k - 1)
    }
}

/// How many decimal digits a non-negative number prints as (one for zero).
pub open spec fn digits_len(n: int) -> int
    decreases n,
{
    if n < 10 {
        1
    } else {
        1 + digits_len(n / 10)
    }
}

/// The number read off the last `w` decimal digits of `v` in reverse order
/// (the zero-padded digit string of width `w`, reversed and re-parsed).
pub open spec fn rev_digits(v: int, w: int) -> int
    decreases w,
{
    if w <= 0 {
        0
    } else {
        rev_digits(v, w - 1) * 10 + (v / pow10(w - 1)) % 10
    }
}

/// The digit width a value is padded to before flipping: the width of the
/// dice's maximum value, or the value's own width if it is wider.
pub open spec fn flip_width(v: int, wmax: int) -> int {
    if digits_len(v) >= wmax {
        digits_len(v)
    } else {
        wmax
    }
}

/// A value with its decimal digits flipped, relative to a dice whose maximum
/// prints with `wmax` digits.
pub open spec fn flip_val(v: int, wmax: int) -> int {
    rev_digits(v, flip_width(v, wmax))
}

/// Flipping leaves a roll set unchanged when every value's flipped form is
/// the value itself: on such rolls the flip is idempotent.
pub proof fn lemma_flip_fixed_rolls(vals: Seq<NumericRoll>, wmax: int)
    requires
        forall|i: int| 0 <= i < vals.len() ==> flip_val(vals[i] as int, wmax) == vals[i] as int,
    ensures
        vals.map_values(|v: NumericRoll| flip_val(v as int, wmax)) =~= vals.map_values(
            |v: NumericRoll| v as int,
        ),
{
}

/// On a dice whose maximum prints with one digit, every roll of the dice is
/// its own flipped form: reversing a one-digit string changes nothing.
pub proof fn lemma_flip_single_digit(v: int)
    requires
        0 <= v < 10,
    ensures
        flip_val(v, 1) == v,
{
    assert(pow10(0) == 1);
    assert(digits_len(v) == 1);
    assert(rev_digits(v, 1) == rev_digits(v, 0) * 10 + (v / 1) % 10);
}

/// How many decimal digits `n` prints as.
pub fn digit_count(n: u32) -> (c: usize)
    ensures
        c as int == digits_len(n as int),
        1 <= c <= 10,
        (n as int) < pow10(c as int),
        n as int >= pow10(c as int - 1) || n == 0,
    decreases n,
{
    if n < 10 {
        proof {
            assert(pow10(0) == 1);
            assert(pow10(1) == 10);
        }
        1
    } else {
        let rest = digit_count(n / 10);
        proof {
            assert((n as int / 10) < pow10(rest as int));
            assert(pow10(rest as int + 1) == 10 * pow10(rest as int));
            assert((n as int) < 10 * pow10(rest as int)) by {
                assert(n as int == 10 * (n as int / 10) + (n as int % 10));
                assert(10 * (n as int / 10) <= 10 * (pow10(rest as int) - 1)) by (nonlinear_arith)
                    requires n as int / 10 <= pow10(rest as int) - 1;
            }
            assert(n as int / 10 >= 1);
            assert(n as int / 10 >= pow10(rest as int - 1));
            assert(n as int >= 10 * pow10(rest as int - 1)) by {
                assert(n as int >= 10 * (n as int / 10));
                assert(10 * (n as int / 10) >= 10 * pow10(rest as int - 1)) by (nonlinear_arith)
                    requires n as int / 10 >= pow10(rest as int - 1);
            }
            assert(pow10(rest as int) == 10 * pow10(rest as int - 1));
            if rest >= 10 {
                lemma_pow10_mono(9, rest as int - 1);
                reveal_with_fuel(pow10, 12);
                assert(pow10(9) == 1000000000int);
                assert(n as int / 10 < 429496730int);
                assert(false);
            }
        }
        1 + rest
    }
}

/// Ten-to-the-power grows with the exponent.
pub proof fn lemma_pow10_mono(a: int, b: int)
    requires
        0 <= a <= b,
    ensures
        pow10(a) <= pow10(b),
        pow10(a) >= 1,
    decreases b,
{
    if a < b {
        lemma_pow10_mono(a, b - 1);
    } else if a > 0 {
        lemma_pow10_mono(a - 1, a - 1);
    }
}

/// The flipped digits of a value, at the width of a dice maximum printing
/// with `wmax` digits. The result can exceed the roll range, so it is
/// returned wide.
pub fn flip_one(v: u32, wmax: usize) -> (r: u64)
    requires
        1 <= wmax <= 10,
    ensures
        r as int == flip_val(v as int, wmax as int),
{
    let wv = digit_count(v);
    let w = if wv >= wmax {
        wv
    } else {
        wmax
    };
    proof {
        assert(w as int == flip_width(v as int, wmax as int));
        lemma_rev_digits_bound(v as int, w as int);
    }
    let mut r: u64 = 0;
    let mut m: u32 = v;
    let mut j: usize = 0;
    proof {
        assert(pow10(0) == 1);
    }
    while j < w
        invariant
            j <= w,
            w <= 10,
            m as int == v as int / pow10(j as int),
            r as int == rev_digits(v as int, j as int),
            (r as int) < pow10(j as int),
        decreases w - j,
    {
        let d: u32 = m % 10;
        proof {
            lemma_rev_digits_bound(v as int, j as int + 1);
            assert(pow10(j as int) <= pow10(10)) by {
                lemma_pow10_mono(j as int, 10);
            }
            reveal_with_fuel(pow10, 12);
            assert(pow10(10) == 10000000000int);
            lemma_div_denominator(v as int, pow10(j as int), 10);
            assert(pow10(j as int) * 10 == pow10(j as int + 1));
        }
        r = r * 10 + d as u64;
        m = m / 10;
        j = j + 1;
    }
    r
}

/// The reversed digit string of width `w` re-parses below ten to the `w`.
pub proof fn lemma_rev_digits_bound(v: int, w: int)
    requires
        v >= 0,
    ensures
        0 <= rev_digits(v, w),
        rev_digits(v, w) < pow10(if w <= 0 {
            0
        } else {
            w
        }),
    decreases w,
{
    if w > 0 {
        lemma_rev_digits_bound(v, w - 1);
        lemma_pow10_mono(0, w - 1);
        assert(rev_digits(v, w) == rev_digits(v, w - 1) * 10 + (v / pow10(w - 1)) % 10);
        assert(rev_digits(v, w - 1) * 10 <= (pow10(w - 1) - 1) * 10) by (nonlinear_arith)
            requires rev_digits(v, w - 1) <= pow10(w - 1) - 1;
        assert(pow10(w) == 10 * pow10(w - 1));
    }
}

/// Whether a roll value appears in a value list.
pub fn contains_roll(v: &Vec<NumericRoll>, x: NumericRoll) -> (r: bool)
    ensures
        r == v@.contains(x),
{
    let mut i: usize = 0;
    while i < v.len()
        invariant
            i <= v.len(),
            forall|j: int| 0 <= j < i ==> v@[j] != x,
        decreases v.len() - i,
    {
        if v[i] == x {
            return true;
        }
        i = i + 1;
    }
    proof {
        assert(!v@.contains(x));
    }
    false
}

/// Whether a fudge roll value appears in a value list.
pub fn contains_fudge(v: &Vec<FudgeRoll>, x: FudgeRoll) -> (r: bool)
    ensures
        r == v@.contains(x),
{
    let mut i: usize = 0;
    while i < v.len()
        invariant
            i <= v.len(),
            forall|j: int| 0 <= j < i ==> v@[j] != x,
        decreases v.len() - i,
    {
        if v[i] == x {
            return true;
        }
        i = i + 1;
    }
    proof {
        assert(!v@.contains(x));
    }
    false
}

/// A batch of one value is a single draw.
pub proof fn lemma_single_num_draw(dice: NumericDice, out: Seq<NumericRoll>)
    requires
        num_batch_ok(dice, out),
        out.len() == 1,
    ensures
        num_draw_ok(dice, out[0]),
{
}

/// A batch of one fudge value is a single draw.
pub proof fn lemma_single_fudge_draw(dice: FudgeDice, out: Seq<FudgeRoll>)
    requires
        fudge_batch_ok(dice, out),
        out.len() == 1,
    ensures
        fudge_draw_ok(dice, out[0]),
{
}

/// What any single value of a numeric batch satisfies: a value the dice can
/// produce at some position.
pub open spec fn num_value_ok(dice: NumericDice, v: NumericRoll) -> bool {
    match dice {
        NumericDice::ConstDice(const_value) => v == const_value,
        NumericDice::NumberedDice(sides) => 1 <= v <= sides,
        NumericDice::RepeatingDice(values) => values@.contains(v),
        NumericDice::AggregationResult => false,
    }
}

/// What any single value of a fudge batch satisfies.
pub open spec fn fudge_value_ok(dice: FudgeDice, v: FudgeRoll) -> bool {
    match dice {
        FudgeDice::FudgeDice => true,
        FudgeDice::ConstDice(const_value) => v == const_value,
        FudgeDice::RepeatingDice(values) => values@.contains(v),
    }
}

/// Every value of a numeric batch is a value the dice can produce.
pub proof fn lemma_num_batch_values(dice: NumericDice, out: Seq<NumericRoll>)
    requires
        num_batch_ok(dice, out),
    ensures
        forall|i: int| 0 <= i < out.len() ==> num_value_ok(dice, #[trigger] out[i]),
{
    match dice {
        NumericDice::RepeatingDice(values) => {
            assert forall|i: int| 0 <= i < out.len() implies num_value_ok(
                dice,
                #[trigger] out[i],
            ) by {
                assert(out[i] == values@[i % values@.len() as int]);
                assert(values@.contains(out[i]));
            }
        },
        _ => {},
    }
}

/// Every value of a fudge batch is a value the dice can produce.
pub proof fn lemma_fudge_batch_values(dice: FudgeDice, out: Seq<FudgeRoll>)
    requires
        fudge_batch_ok(dice, out),
    ensures
        forall|i: int| 0 <= i < out.len() ==> fudge_value_ok(dice, #[trigger] out[i]),
{
    match dice {
        FudgeDice::RepeatingDice(values) => {
            assert forall|i: int| 0 <= i < out.len() implies fudge_value_ok(
                dice,
                #[trigger] out[i],
            ) by {
                assert(out[i] == values@[i % values@.len() as int]);
                assert(values@.contains(out[i]));
            }
        },
        _ => {},
    }
}

/// The message of the error raised when a keep count exceeds the rolls.
pub open spec fn keep_err_msg(keep: int, available: int) -> Seq<char> {
    "Can't keep "@ + dec_str(keep) + " rolls because there are only "@ + dec_str(available)
        + " available rolls."@
}

/// The message of the error raised when a reroll count exceeds the rolls.
pub open spec fn reroll_err_msg(reroll: int, available: int) -> Seq<char> {
    "Can't reroll "@ + dec_str(reroll) + " rolls because there are only "@ + dec_str(available)
        + " available rolls."@
}

fn keep_err_string(keep: DiceNumber, available: usize) -> (s: String)
    ensures
        s@ == keep_err_msg(keep as int, available as int),
{
    let mut s = String::from_str("Can't keep ");
    push_dec(&mut s, keep as u32);
    s.append(" rolls because there are only ");
    push_dec64(&mut s, available as u64);
    s.append(" available rolls.");
    proof {
        assert(s@ =~= keep_err_msg(keep as int, available as int));
    }
    s
}

fn reroll_err_string(reroll: DiceNumber, available: usize) -> (s: String)
    ensures
        s@ == reroll_err_msg(reroll as int, available as int),
{
    let mut s = String::from_str("Can't reroll ");
    push_dec(&mut s, reroll as u32);
    s.append(" rolls because there are only ");
    push_dec64(&mut s, available as u64);
    s.append(" available rolls.");
    proof {
        assert(s@ =~= reroll_err_msg(reroll as int, available as int));
    }
    s
}

/// The description after a multiplication: `(old) x factor`.
pub open spec fn multiply_desc(d: Seq<char>, factor: NumericRoll) -> Seq<char> {
    "("@ + d + ") x "@ + dec_str(factor as int)
}

/// The description after a reroll: `old Reroll(values)`.
pub open spec fn reroll_desc(d: Seq<char>, vals: Seq<Seq<char>>) -> Seq<char> {
    d + " Reroll("@ + join_seq(vals, ","@) + ")"@
}

/// The description after a flip: `flip(old)`.
pub open spec fn flip_desc(d: Seq<char>) -> Seq<char> {
    "flip("@ + d + ")"@
}

/// The description after a per-request sum: `sum(old)`.
pub open spec fn sum_desc(d: Seq<char>) -> Seq<char> {
    "sum("@ + d + ")"@
}

/// The description after an explosion: `old explode(values)`.
pub open spec fn explode_desc(d: Seq<char>, vals: Seq<Seq<char>>) -> Seq<char> {
    d + " explode("@ + join_seq(vals, ","@) + ")"@
}

/// The description after keeping the best rolls: `old KeepBest(n)`.
pub open spec fn keep_best_desc(d: Seq<char>, keep: int) -> Seq<char> {
    d + " KeepBest("@ + dec_str(keep) + ")"@
}

/// The description after keeping the worst rolls: `old KeepWorst(n)`.
pub open spec fn keep_worst_desc(d: Seq<char>, keep: int) -> Seq<char> {
    d + " KeepWorst("@ + dec_str(keep) + ")"@
}

/// The description after rerolling the best rolls: `old RerollBest(n)`.
pub open spec fn reroll_best_desc(d: Seq<char>, reroll: int) -> Seq<char> {
    d + " RerollBest("@ + dec_str(reroll) + ")"@
}

/// The description after rerolling the worst rolls: `old RerollWorst(n)`.
pub open spec fn reroll_worst_desc(d: Seq<char>, reroll: int) -> Seq<char> {
    d + " RerollWorst("@ + dec_str(reroll) + ")"@
}

/// Action that multiplies the rolls by a factor.
pub trait MultiplyBy<T>: Sized {
    /// Whether multiplying by `factor` keeps every value in the roll range.
    spec fn multiply_req(&self, factor: NumericRoll) -> bool;

    fn multiply(&self, factor: NumericRoll) -> T
        requires
            self.multiply_req(factor),
    ;
}

impl MultiplyBy<Vec<NumericRoll>> for Vec<NumericRoll> {
    open spec fn multiply_req(&self, factor: NumericRoll) -> bool {
        forall|i: int| 0 <= i < self@.len() ==> (#[trigger] self@[i]) * factor <= u32::MAX
    }

    fn multiply(&self, factor: NumericRoll) -> (r: Vec<NumericRoll>)
        ensures
            r@.len() == self@.len(),
            forall|i: int| 0 <= i < self@.len() ==> r@[i] == (#[trigger] self@[i]) * factor,
    {
        let mut r: Vec<NumericRoll> = Vec::new();
        let mut i: usize = 0;
        while i < self.len()
            invariant
                i <= self.len(),
                forall|j: int| 0 <= j < self@.len() ==> (#[trigger] self@[j]) * factor <= u32::MAX,
                r@.len() == i as int,
                forall|j: int| 0 <= j < i ==> r@[j] == (#[trigger] self@[j]) * factor,
            decreases self.len() - i,
        {
            let prod: u64 = self[i] as u64 * factor as u64;
            proof {
                assert(self@[i as int] * factor <= u32::MAX);
            }
            r.push(prod as u32);
            i = i + 1;
        }
        r
    }
}

impl MultiplyBy<NumericRolls> for NumericRolls {
    open spec fn multiply_req(&self, factor: NumericRoll) -> bool {
        self.rolls.multiply_req(factor)
    }

    fn multiply(&self, factor: NumericRoll) -> (r: NumericRolls)
        ensures
            r.rolls@.len() == self.rolls@.len(),
            forall|i: int|
                0 <= i < self.rolls@.len() ==> r.rolls@[i] == (#[trigger] self.rolls@[i]) * factor,
            num_dice_eqv(r.dice, self.dice),
            r.description@ == multiply_desc(self.description@, factor),
    {
        let mut d = String::from_str("(");
        d.append(self.description.as_str());
        d.append(") x ");
        push_dec(&mut d, factor);
        proof {
            assert(d@ =~= multiply_desc(self.description@, factor));
        }
        let rolls = self.rolls.multiply(factor);
        Rolls { description: d, dice: copy_num_dice(&self.dice), rolls }
    }
}

/// Action that returns the sum of the rolls of each dice.
pub trait Sum<T>: Sized {
    /// Whether the values' sum stays in the roll range.
    spec fn sum_req(&self) -> bool;

    fn sum(&self) -> T
        requires
            self.sum_req(),
    ;
}

impl Sum<Vec<NumericRoll>> for Vec<NumericRoll> {
    open spec fn sum_req(&self) -> bool {
        sum_of(self@) <= u32::MAX
    }

    fn sum(&self) -> (r: Vec<NumericRoll>)
        ensures
            r@.len() == 1,
            r@[0] as int == sum_of(self@),
    {
        let total: u32 = match checked_sum(self) {
            Some(s) => s,
            None => {
                proof {
                    assert(false);
                }
                0
            },
        };
        let mut r: Vec<NumericRoll> = Vec::new();
        r.push(total);
        r
    }
}

impl Sum<NumericRolls> for NumericRolls {
    open spec fn sum_req(&self) -> bool {
        self.rolls.sum_req()
    }

    fn sum(&self) -> (r: NumericRolls)
        ensures
            r.rolls@.len() == 1,
            r.rolls@[0] as int == sum_of(self.rolls@),
            num_dice_eqv(r.dice, self.dice),
            r.description@ == sum_desc(self.description@),
    {
        let mut d = String::from_str("sum(");
        d.append(self.description.as_str());
        d.append(")");
        proof {
            assert(d@ =~= sum_desc(self.description@));
        }
        let rolls = self.rolls.sum();
        Rolls { description: d, dice: copy_num_dice(&self.dice), rolls }
    }
}

/// Action that flips the decimal digits of each roll, at the digit width of
/// the dice's maximum value.
pub trait FlipFlop<T>: Sized {
    /// Whether the rolls can be flipped: the dice has a maximum value and
    /// every flipped value stays in the roll range.
    spec fn flip_req(&self) -> bool;

    fn flip(&self) -> T
        requires
            self.flip_req(),
    ;
}

impl FlipFlop<NumericRolls> for NumericRolls {
    open spec fn flip_req(&self) -> bool {
        &&& !(self.dice is AggregationResult)
        &&& forall|i: int|
            0 <= i < self.rolls@.len() ==> flip_val(
                (#[trigger] self.rolls@[i]) as int,
                digits_len(num_dice_max(self.dice)),
            ) <= u32::MAX
    }

    fn flip(&self) -> (r: NumericRolls)
        ensures
            r.rolls@.len() == self.rolls@.len(),
            forall|i: int|
                0 <= i < self.rolls@.len() ==> (#[trigger] r.rolls@[i]) as int == flip_val(
                    self.rolls@[i] as int,
                    digits_len(num_dice_max(self.dice)),
                ),
            num_dice_eqv(r.dice, self.dice),
            r.description@ == flip_desc(self.description@),
    {
        let mut d = String::from_str("flip(");
        d.append(self.description.as_str());
        d.append(")");
        proof {
            assert(d@ =~= flip_desc(self.description@));
        }
        let max_value = self.dice.get_max_value();
        let wmax = digit_count(max_value);
        let mut rolls: Vec<NumericRoll> = Vec::new();
        let mut i: usize = 0;
        while i < self.rolls.len()
            invariant
                i <= self.rolls.len(),
                wmax as int == digits_len(num_dice_max(self.dice)),
                1 <= wmax <= 10,
                self.flip_req(),
                rolls@.len() == i as int,
                forall|j: int|
                    0 <= j < i ==> (#[trigger] rolls@[j]) as int == flip_val(
                        self.rolls@[j] as int,
                        digits_len(num_dice_max(self.dice)),
                    ),
            decreases self.rolls.len() - i,
        {
            let f = flip_one(self.rolls[i], wmax);
            proof {
                assert(flip_val(self.rolls@[i as int] as int, digits_len(num_dice_max(self.dice)))
                    <= u32::MAX);
            }
            rolls.push(f as u32);
            i = i + 1;
        }
        Rolls { description: d, dice: copy_num_dice(&self.dice), rolls }
    }
}

/// Whether every flipped value stays in the roll range.
pub fn flip_fits(rolls: &Vec<NumericRoll>, wmax: usize) -> (b: bool)
    requires
        1 <= wmax <= 10,
    ensures
        b == forall|i: int|
            0 <= i < rolls@.len() ==> flip_val((#[trigger] rolls@[i]) as int, wmax as int)
                <= u32::MAX,
{
    let mut i: usize = 0;
    while i < rolls.len()
        invariant
            i <= rolls.len(),
            1 <= wmax <= 10,
            forall|j: int|
                0 <= j < i ==> flip_val((#[trigger] rolls@[j]) as int, wmax as int) <= u32::MAX,
        decreases rolls.len() - i,
    {
        let f = flip_one(rolls[i], wmax);
        if f > 0xffff_ffffu64 {
            return false;
        }
        i = i + 1;
    }
    true
}

/// Whether every multiplied value stays in the roll range.
pub fn multiply_fits(rolls: &Vec<NumericRoll>, factor: NumericRoll) -> (b: bool)
    ensures
        b == forall|i: int| 0 <= i < rolls@.len() ==> (#[trigger] rolls@[i]) * factor <= u32::MAX,
{
    let mut i: usize = 0;
    while i < rolls.len()
        invariant
            i <= rolls.len(),
            forall|j: int| 0 <= j < i ==> (#[trigger] rolls@[j]) * factor <= u32::MAX,
        decreases rolls.len() - i,
    {
        proof {
            assert(rolls@[i as int] as int * factor as int <= 0xffff_ffffi64 * 0xffff_ffffi64)
                by (nonlinear_arith)
                requires
                    rolls@[i as int] as int <= 0xffff_ffffi64,
                    factor as int <= 0xffff_ffffi64,
                    rolls@[i as int] as int >= 0,
                    factor as int >= 0,
            ;
        }
        let prod: u64 = rolls[i] as u64 * factor as u64;
        if prod > 0xffff_ffffu64 {
            return false;
        }
        i = i + 1;
    }
    true
}

/// Replace the rolls equal to one of the given values by a fresh roll from
/// the same dice. The fresh rolls are not themselves re-checked.
pub trait Reroll<T: RollBounds, V: DiceBounds>: Sized {
    /// Whether fresh values can be drawn for this roll set.
    spec fn reroll_req(&self) -> bool;

    fn reroll(&self, gen: &mut DiceGenerator, t: &Vec<T>) -> Self
        requires
            self.reroll_req(),
    ;
}

impl Reroll<NumericRoll, NumericDice> for NumericRolls {
    open spec fn reroll_req(&self) -> bool {
        self.dice.rollable()
    }

    fn reroll(&self, gen: &mut DiceGenerator, t: &Vec<NumericRoll>) -> (r: NumericRolls)
        ensures
            r.rolls@.len() == self.rolls@.len(),
            forall|i: int|
                0 <= i < self.rolls@.len() ==> if t@.contains(#[trigger] self.rolls@[i]) {
                    num_draw_ok(self.dice, r.rolls@[i])
                } else {
                    r.rolls@[i] == self.rolls@[i]
                },
            num_dice_eqv(r.dice, self.dice),
            r.description@ == reroll_desc(self.description@, num_vals_strs(t@)),
    {
        let mut new_rolls: Vec<NumericRoll> = Vec::new();
        let mut i: usize = 0;
        while i < self.rolls.len()
            invariant
                i <= self.rolls.len(),
                self.dice.rollable(),
                new_rolls@.len() == i as int,
                forall|j: int|
                    0 <= j < i ==> if t@.contains(#[trigger] self.rolls@[j]) {
                        num_draw_ok(self.dice, new_rolls@[j])
                    } else {
                        new_rolls@[j] == self.rolls@[j]
                    },
            decreases self.rolls.len() - i,
        {
            if contains_roll(t, self.rolls[i]) {
                let batch = gen.roll_numeric_vec(1, &self.dice);
                proof {
                    lemma_single_num_draw(self.dice, batch@);
                }
                new_rolls.push(batch[0]);
            } else {
                new_rolls.push(self.rolls[i]);
            }
            i = i + 1;
        }
        let mut d = self.description.clone();
        d.append(" Reroll(");
        let list = num_vals_list(t);
        d.append(list.as_str());
        d.append(")");
        proof {
            assert(d@ =~= reroll_desc(self.description@, num_vals_strs(t@)));
        }
        Rolls { description: d, dice: copy_num_dice(&self.dice), rolls: new_rolls }
    }
}

impl Reroll<FudgeRoll, FudgeDice> for FudgeRolls {
    open spec fn reroll_req(&self) -> bool {
        self.dice.rollable()
    }

    fn reroll(&self, gen: &mut DiceGenerator, t: &Vec<FudgeRoll>) -> (r: FudgeRolls)
        ensures
            r.rolls@.len() == self.rolls@.len(),
            forall|i: int|
                0 <= i < self.rolls@.len() ==> if t@.contains(#[trigger] self.rolls@[i]) {
                    fudge_draw_ok(self.dice, r.rolls@[i])
                } else {
                    r.rolls@[i] == self.rolls@[i]
                },
            fudge_dice_eqv(r.dice, self.dice),
            r.description@ == reroll_desc(self.description@, fudge_vals_strs(t@)),
    {
        let mut new_rolls: Vec<FudgeRoll> = Vec::new();
        let mut i: usize = 0;
        while i < self.rolls.len()
            invariant
                i <= self.rolls.len(),
                self.dice.rollable(),
                new_rolls@.len() == i as int,
                forall|j: int|
                    0 <= j < i ==> if t@.contains(#[trigger] self.rolls@[j]) {
                        fudge_draw_ok(self.dice, new_rolls@[j])
                    } else {
                        new_rolls@[j] == self.rolls@[j]
                    },
            decreases self.rolls.len() - i,
        {
            if contains_fudge(t, self.rolls[i]) {
                let batch = gen.roll_fudge_vec(1, &self.dice);
                proof {
                    lemma_single_fudge_draw(self.dice, batch@);
                }
                new_rolls.push(batch[0]);
            } else {
                new_rolls.push(self.rolls[i]);
            }
            i = i + 1;
        }
        let mut d = self.description.clone();
        d.append(" Reroll(");
        let list = fudge_vals_list(t);
        d.append(list.as_str());
        d.append(")");
        proof {
            assert(d@ =~= reroll_desc(self.description@, fudge_vals_strs(t@)));
        }
        Rolls { description: d, dice: copy_fudge_dice(&self.dice), rolls: new_rolls }
    }
}

/// Action that only keeps the N best rolls.
pub trait KeepBest<T>: Sized {
    fn keep_best(&self, keep: DiceNumber) -> Result<T, Error>;
}

/// Action that only keeps the N worst rolls.
pub trait KeepWorst<T>: Sized {
    fn keep_worst(&self, keep: DiceNumber) -> Result<T, Error>;
}

impl KeepBest<Vec<NumericRoll>> for Vec<NumericRoll> {
    fn keep_best(&self, keep: DiceNumber) -> (res: Result<Vec<NumericRoll>, Error>)
        ensures
            res is Ok <==> keep as int <= self@.len(),
            res matches Ok(v) ==> v@ == keep_best_spec(self@, keep as int),
            res matches Err(e) ==> e.kind matches ErrorKind::BadActionParameter(m) && m@
                == keep_err_msg(keep as int, self@.len() as int),
    {
        if keep as usize > self.len() {
            return Err(Error::bad_action_parameter(&keep_err_string(keep, self.len())));
        }
        let sorted = sort_vec(self);
        let start = self.len() - keep as usize;
        let mut out: Vec<NumericRoll> = Vec::new();
        let mut i: usize = start;
        while i < sorted.len()
            invariant
                start <= i <= sorted.len(),
                out@ == sorted@.subrange(start as int, i as int),
            decreases sorted.len() - i,
        {
            out.push(sorted[i]);
            proof {
                assert(out@ =~= sorted@.subrange(start as int, i + 1));
            }
            i = i + 1;
        }
        proof {
            assert(out@ =~= sorted_of(self@).skip(self@.len() - keep as int));
        }
        Ok(out)
    }
}

impl KeepWorst<Vec<NumericRoll>> for Vec<NumericRoll> {
    fn keep_worst(&self, keep: DiceNumber) -> (res: Result<Vec<NumericRoll>, Error>)
        ensures
            res is Ok <==> keep as int <= self@.len(),
            res matches Ok(v) ==> v@ == keep_worst_spec(self@, keep as int),
            res matches Err(e) ==> e.kind matches ErrorKind::BadActionParameter(m) && m@
                == keep_err_msg(keep as int, self@.len() as int),
    {
        if keep as usize > self.len() {
            return Err(Error::bad_action_parameter(&keep_err_string(keep, self.len())));
        }
        let sorted = sort_vec(self);
        let mut out: Vec<NumericRoll> = Vec::new();
        let mut i: usize = 0;
        while i < keep as usize
            invariant
                keep as usize <= sorted.len(),
                i <= keep as usize,
                sorted@ == sorted_of(self@),
                out@ == sorted@.subrange(0, i as int),
            decreases keep as usize - i,
        {
            out.push(sorted[i]);
            proof {
                assert(out@ =~= sorted@.subrange(0, i + 1));
            }
            i = i + 1;
        }
        proof {
            assert(out@ =~= sorted_of(self@).take(keep as int));
        }
        Ok(out)
    }
}

impl KeepBest<NumericRolls> for NumericRolls {
    fn keep_best(&self, keep: DiceNumber) -> (res: Result<NumericRolls, Error>)
        ensures
            res is Ok <==> keep as int <= self.rolls@.len(),
            res matches Ok(r) ==> r.rolls@ == keep_best_spec(self.rolls@, keep as int)
                && num_dice_eqv(r.dice, self.dice) && r.description@ == keep_best_desc(
                self.description@,
                keep as int,
            ),
            res matches Err(e) ==> e.kind matches ErrorKind::BadActionParameter(m) && m@
                == keep_err_msg(keep as int, self.rolls@.len() as int),
    {
        match self.rolls.keep_best(keep) {
            Ok(v) => {
                let mut d = self.description.clone();
                d.append(" KeepBest(");
                push_dec(&mut d, keep as u32);
                d.append(")");
                proof {
                    assert(d@ =~= keep_best_desc(self.description@, keep as int));
                }
                Ok(Rolls { description: d, dice: copy_num_dice(&self.dice), rolls: v })
            },
            Err(e) => Err(e),
        }
    }
}

impl KeepWorst<NumericRolls> for NumericRolls {
    fn keep_worst(&self, keep: DiceNumber) -> (res: Result<NumericRolls, Error>)
        ensures
            res is Ok <==> keep as int <= self.rolls@.len(),
            res matches Ok(r) ==> r.rolls@ == keep_worst_spec(self.rolls@, keep as int)
                && num_dice_eqv(r.dice, self.dice) && r.description@ == keep_worst_desc(
                self.description@,
                keep as int,
            ),
            res matches Err(e) ==> e.kind matches ErrorKind::BadActionParameter(m) && m@
                == keep_err_msg(keep as int, self.rolls@.len() as int),
    {
        match self.rolls.keep_worst(keep) {
            Ok(v) => {
                let mut d = self.description.clone();
                d.append(" KeepWorst(");
                push_dec(&mut d, keep as u32);
                d.append(")");
                proof {
                    assert(d@ =~= keep_worst_desc(self.description@, keep as int));
                }
                Ok(Rolls { description: d, dice: copy_num_dice(&self.dice), rolls: v })
            },
            Err(e) => Err(e),
        }
    }
}

/// Action that rerolls once the N best rolls: the worst `len - n` are kept
/// and `n` fresh values are appended.
pub trait RerollBest<T>: Sized {
    /// Whether fresh values can be drawn for this roll set.
    spec fn reroll_best_req(&self) -> bool;

    fn reroll_best(&self, gen: &mut DiceGenerator, reroll: DiceNumber) -> Result<T, Error>
        requires
            self.reroll_best_req(),
    ;
}

/// Action that rerolls once the N worst rolls: the best `len - n` are kept
/// and `n` fresh values are appended.
pub trait RerollWorst<T>: Sized {
    /// Whether fresh values can be drawn for this roll set.
    spec fn reroll_worst_req(&self) -> bool;

    fn reroll_worst(&self, gen: &mut DiceGenerator, reroll: DiceNumber) -> Result<T, Error>
        requires
            self.reroll_worst_req(),
    ;
}

impl RerollBest<NumericRolls> for NumericRolls {
    open spec fn reroll_best_req(&self) -> bool {
        self.dice.rollable()
    }

    fn reroll_best(&self, gen: &mut DiceGenerator, reroll: DiceNumber) -> (res: Result<
        NumericRolls,
        Error,
    >)
        ensures
            res is Ok <==> reroll as int <= self.rolls@.len(),
            res matches Ok(r) ==> {
                &&& r.rolls@.len() == self.rolls@.len()
                &&& r.rolls@.take(self.rolls@.len() - reroll as int) == keep_worst_spec(
                    self.rolls@,
                    self.rolls@.len() - reroll as int,
                )
                &&& num_batch_ok(self.dice, r.rolls@.skip(self.rolls@.len() - reroll as int))
                &&& num_dice_eqv(r.dice, self.dice)
                &&& r.description@ == reroll_best_desc(self.description@, reroll as int)
            },
            res matches Err(e) ==> e.kind matches ErrorKind::BadActionParameter(m) && m@
                == reroll_err_msg(reroll as int, self.rolls@.len() as int),
    {
        if reroll as usize > self.rolls.len() {
            return Err(Error::bad_action_parameter(&reroll_err_string(reroll, self.rolls.len())));
        }
        let sorted = sort_vec(&self.rolls);
        let kept = self.rolls.len() - reroll as usize;
        let mut out: Vec<NumericRoll> = Vec::new();
        let mut i: usize = 0;
        while i < kept
            invariant
                kept <= sorted.len(),
                i <= kept,
                sorted@ == sorted_of(self.rolls@),
                out@ == sorted@.subrange(0, i as int),
            decreases kept - i,
        {
            out.push(sorted[i]);
            proof {
                assert(out@ =~= sorted@.subrange(0, i + 1));
            }
            i = i + 1;
        }
        let mut fresh = gen.roll_numeric_vec(reroll as usize, &self.dice);
        let ghost fresh_view = fresh@;
        out.append(&mut fresh);
        let mut d = self.description.clone();
        d.append(" RerollBest(");
        push_dec(&mut d, reroll as u32);
        d.append(")");
        proof {
            assert(d@ =~= reroll_best_desc(self.description@, reroll as int));
            assert(out@.take(self.rolls@.len() - reroll as int) =~= keep_worst_spec(
                self.rolls@,
                self.rolls@.len() - reroll as int,
            ));
            assert(out@.skip(self.rolls@.len() - reroll as int) =~= fresh_view);
        }
        Ok(Rolls { description: d, dice: copy_num_dice(&self.dice), rolls: out })
    }
}

impl RerollWorst<NumericRolls> for NumericRolls {
    open spec fn reroll_worst_req(&self) -> bool {
        self.dice.rollable()
    }

    fn reroll_worst(&self, gen: &mut DiceGenerator, reroll: DiceNumber) -> (res: Result<
        NumericRolls,
        Error,
    >)
        ensures
            res is Ok <==> reroll as int <= self.rolls@.len(),
            res matches Ok(r) ==> {
                &&& r.rolls@.len() == self.rolls@.len()
                &&& r.rolls@.take(self.rolls@.len() - reroll as int) == keep_best_spec(
                    self.rolls@,
                    self.rolls@.len() - reroll as int,
                )
                &&& num_batch_ok(self.dice, r.rolls@.skip(self.rolls@.len() - reroll as int))
                &&& num_dice_eqv(r.dice, self.dice)
                &&& r.description@ == reroll_worst_desc(self.description@, reroll as int)
            },
            res matches Err(e) ==> e.kind matches ErrorKind::BadActionParameter(m) && m@
                == reroll_err_msg(reroll as int, self.rolls@.len() as int),
    {
        if reroll as usize > self.rolls.len() {
            return Err(Error::bad_action_parameter(&reroll_err_string(reroll, self.rolls.len())));
        }
        let sorted = sort_vec(&self.rolls);
        let kept = self.rolls.len() - reroll as usize;
        let start = self.rolls.len() - kept;
        let mut out: Vec<NumericRoll> = Vec::new();
        let mut i: usize = start;
        while i < sorted.len()
            invariant
                start <= i <= sorted.len(),
                start == sorted@.len() - (sorted@.len() - reroll as int - (sorted@.len()
                    - self.rolls@.len())),
                sorted@ == sorted_of(self.rolls@),
                sorted@.len() == self.rolls@.len(),
                start as int == reroll as int,
                out@ == sorted@.subrange(start as int, i as int),
            decreases sorted.len() - i,
        {
            out.push(sorted[i]);
            proof {
                assert(out@ =~= sorted@.subrange(start as int, i + 1));
            }
            i = i + 1;
        }
        let mut fresh = gen.roll_numeric_vec(reroll as usize, &self.dice);
        let ghost fresh_view = fresh@;
        out.append(&mut fresh);
        let mut d = self.description.clone();
        d.append(" RerollWorst(");
        push_dec(&mut d, reroll as u32);
        d.append(")");
        proof {
            assert(d@ =~= reroll_worst_desc(self.description@, reroll as int));
            assert(out@.take(self.rolls@.len() - reroll as int) =~= keep_best_spec(
                self.rolls@,
                self.rolls@.len() - reroll as int,
            ));
            assert(out@.skip(self.rolls@.len() - reroll as int) =~= fresh_view);
        }
        Ok(Rolls { description: d, dice: copy_num_dice(&self.dice), rolls: out })
    }
}

/// How many values of a batch are members of the trigger values.
pub open spec fn match_count<T>(batch: Seq<T>, triggers: Seq<T>) -> int
    decreases batch.len(),
{
    if batch.len() == 0 {
        0
    } else {
        match_count(batch.drop_last(), triggers) + if triggers.contains(batch.last()) {
            1int
        } else {
            0int
        }
    }
}

/// How many values of `batch` match one of the trigger values.
fn count_matches(batch: &Vec<NumericRoll>, values: &Vec<NumericRoll>) -> (k: usize)
    ensures
        k as int == match_count(batch@, values@),
        k <= batch@.len(),
{
    let mut k: usize = 0;
    let mut i: usize = 0;
    while i < batch.len()
        invariant
            i <= batch.len(),
            k <= i,
            k as int == match_count(batch@.take(i as int), values@),
        decreases batch.len() - i,
    {
        proof {
            assert(batch@.take(i + 1).drop_last() =~= batch@.take(i as int));
            assert(batch@.take(i + 1).last() == batch@[i as int]);
        }
        if contains_roll(values, batch[i]) {
            k = k + 1;
        }
        i = i + 1;
    }
    proof {
        assert(batch@.take(batch@.len() as int) =~= batch@);
    }
    k
}

/// How many fudge values of `batch` match one of the trigger values.
fn count_matches_fudge(batch: &Vec<FudgeRoll>, values: &Vec<FudgeRoll>) -> (k: usize)
    ensures
        k as int == match_count(batch@, values@),
        k <= batch@.len(),
{
    let mut k: usize = 0;
    let mut i: usize = 0;
    while i < batch.len()
        invariant
            i <= batch.len(),
            k <= i,
            k as int == match_count(batch@.take(i as int), values@),
        decreases batch.len() - i,
    {
        proof {
            assert(batch@.take(i + 1).drop_last() =~= batch@.take(i as int));
            assert(batch@.take(i + 1).last() == batch@[i as int]);
        }
        if contains_fudge(values, batch[i]) {
            k = k + 1;
        }
        i = i + 1;
    }
    proof {
        assert(batch@.take(batch@.len() as int) =~= batch@);
    }
    k
}

/// The number of draws the explosion loop will make at most: far beyond
/// anything a terminating explosion reaches.
pub open spec fn explode_draw_budget() -> int {
    0xffff_ffff_ffff_ffff
}

/// The batches of an explosion, drawn one after another: each batch holds as
/// many fresh values as the previous batch (starting from the original
/// rolls) matched in the trigger set, and each is a draw from the dice.
pub open spec fn num_batches_chain(
    dice: NumericDice,
    triggers: Seq<NumericRoll>,
    prev: Seq<NumericRoll>,
    batches: Seq<Seq<NumericRoll>>,
) -> bool
    decreases batches.len(),
{
    if batches.len() == 0 {
        true
    } else {
        &&& batches[0].len() == match_count(prev, triggers)
        &&& num_batch_ok(dice, batches[0])
        &&& num_batches_chain(dice, triggers, batches[0], batches.skip(1))
    }
}

/// The batches of a fudge explosion.
pub open spec fn fudge_batches_chain(
    dice: FudgeDice,
    triggers: Seq<FudgeRoll>,
    prev: Seq<FudgeRoll>,
    batches: Seq<Seq<FudgeRoll>>,
) -> bool
    decreases batches.len(),
{
    if batches.len() == 0 {
        true
    } else {
        &&& batches[0].len() == match_count(prev, triggers)
        &&& fudge_batch_ok(dice, batches[0])
        &&& fudge_batches_chain(dice, triggers, batches[0], batches.skip(1))
    }
}

/// All batches, one after another.
pub open spec fn concat_batches<T>(batches: Seq<Seq<T>>) -> Seq<T>
    decreases batches.len(),
{
    if batches.len() == 0 {
        Seq::empty()
    } else {
        concat_batches(batches.drop_last()) + batches.last()
    }
}

/// The last batch of a chain, or the starting rolls when nothing was drawn.
pub open spec fn chain_last<T>(prev: Seq<T>, batches: Seq<Seq<T>>) -> Seq<T> {
    if batches.len() == 0 {
        prev
    } else {
        batches.last()
    }
}

/// What a finished numeric explosion looks like: the original rolls followed
/// by a chain of batches that ended because the last one matched nothing
/// (or, for a configuration that keeps matching forever, because the draw
/// budget ran out).
pub open spec fn num_explode_post(
    dice: NumericDice,
    triggers: Seq<NumericRoll>,
    rolls: Seq<NumericRoll>,
    out: Seq<NumericRoll>,
) -> bool {
    exists|batches: Seq<Seq<NumericRoll>>|
        {
            &&& out == rolls + concat_batches(batches)
            &&& num_batches_chain(dice, triggers, rolls, batches)
            &&& (rolls.len() == 0 ==> batches.len() == 0)
            &&& (rolls.len() > 0 ==> batches.len() == explode_draw_budget() || match_count(
                chain_last(rolls, batches),
                triggers,
            ) == 0)
        }
}

/// What a finished fudge explosion looks like.
pub open spec fn fudge_explode_post(
    dice: FudgeDice,
    triggers: Seq<FudgeRoll>,
    rolls: Seq<FudgeRoll>,
    out: Seq<FudgeRoll>,
) -> bool {
    exists|batches: Seq<Seq<FudgeRoll>>|
        {
            &&& out == rolls + concat_batches(batches)
            &&& fudge_batches_chain(dice, triggers, rolls, batches)
            &&& (rolls.len() == 0 ==> batches.len() == 0)
            &&& (rolls.len() > 0 ==> batches.len() == explode_draw_budget() || match_count(
                chain_last(rolls, batches),
                triggers,
            ) == 0)
        }
}

/// A batch chain extends by one more drawn batch at its end.
pub proof fn lemma_num_batches_chain_snoc(
    dice: NumericDice,
    triggers: Seq<NumericRoll>,
    first: Seq<NumericRoll>,
    batches: Seq<Seq<NumericRoll>>,
    next: Seq<NumericRoll>,
)
    requires
        num_batches_chain(dice, triggers, first, batches),
        next.len() == match_count(chain_last(first, batches), triggers),
        num_batch_ok(dice, next),
    ensures
        num_batches_chain(dice, triggers, first, batches.push(next)),
        chain_last(first, batches.push(next)) == next,
    decreases batches.len(),
{
    if batches.len() == 0 {
        assert(batches.push(next)[0] == next);
        assert(batches.push(next).skip(1) =~= Seq::<Seq<NumericRoll>>::empty());
        assert(num_batches_chain(dice, triggers, next, batches.push(next).skip(1)));
        assert(next.len() == match_count(first, triggers));
    } else {
        assert(batches.push(next)[0] == batches[0]);
        assert(batches.push(next).skip(1) =~= batches.skip(1).push(next));
        assert(chain_last(batches[0], batches.skip(1)) == chain_last(first, batches));
        lemma_num_batches_chain_snoc(dice, triggers, batches[0], batches.skip(1), next);
        assert(num_batches_chain(dice, triggers, first, batches.push(next))) by {
            assert(batches.push(next)[0].len() == match_count(first, triggers));
            assert(num_batch_ok(dice, batches.push(next)[0]));
            assert(num_batches_chain(
                dice,
                triggers,
                batches.push(next)[0],
                batches.push(next).skip(1),
            ));
        }
    }
}

/// A fudge batch chain extends by one more drawn batch at its end.
pub proof fn lemma_fudge_batches_chain_snoc(
    dice: FudgeDice,
    triggers: Seq<FudgeRoll>,
    first: Seq<FudgeRoll>,
    batches: Seq<Seq<FudgeRoll>>,
    next: Seq<FudgeRoll>,
)
    requires
        fudge_batches_chain(dice, triggers, first, batches),
        next.len() == match_count(chain_last(first, batches), triggers),
        fudge_batch_ok(dice, next),
    ensures
        fudge_batches_chain(dice, triggers, first, batches.push(next)),
        chain_last(first, batches.push(next)) == next,
    decreases batches.len(),
{
    if batches.len() == 0 {
        assert(batches.push(next)[0] == next);
        assert(batches.push(next).skip(1) =~= Seq::<Seq<FudgeRoll>>::empty());
        assert(fudge_batches_chain(dice, triggers, next, batches.push(next).skip(1)));
        assert(next.len() == match_count(first, triggers));
    } else {
        assert(batches.push(next)[0] == batches[0]);
        assert(batches.push(next).skip(1) =~= batches.skip(1).push(next));
        assert(chain_last(batches[0], batches.skip(1)) == chain_last(first, batches));
        lemma_fudge_batches_chain_snoc(dice, triggers, batches[0], batches.skip(1), next);
        assert(fudge_batches_chain(dice, triggers, first, batches.push(next))) by {
            assert(batches.push(next)[0].len() == match_count(first, triggers));
            assert(fudge_batch_ok(dice, batches.push(next)[0]));
            assert(fudge_batches_chain(
                dice,
                triggers,
                batches.push(next)[0],
                batches.push(next).skip(1),
            ));
        }
    }
}

/// The rolls with the explosion appended: for every value matching a trigger
/// a new value is drawn, and new draws explode in turn until a batch matches
/// nothing. A draw budget far beyond anything reachable bounds the loop, so
/// the degenerate configuration that would never stop matching (a constant
/// dice exploding on its own value) cannot hang the process.
fn explode(
    rolls: &Vec<NumericRoll>,
    gen: &mut DiceGenerator,
    dice: &NumericDice,
    explosion_values: &Vec<NumericRoll>,
) -> (r: Vec<NumericRoll>)
    requires
        dice.rollable(),
    ensures
        r@.len() >= rolls@.len(),
        r@.take(rolls@.len() as int) == rolls@,
        forall|i: int| rolls@.len() <= i < r@.len() ==> num_value_ok(*dice, #[trigger] r@[i]),
        num_explode_post(*dice, explosion_values@, rolls@, r@),
{
    let mut result = copy_rolls(rolls);
    let ghost mut batches = Seq::<Seq<NumericRoll>>::empty();
    proof {
        assert(result@.take(rolls@.len() as int) =~= rolls@);
        assert(result@ =~= rolls@ + concat_batches(batches));
    }
    if rolls.len() == 0 {
        proof {
            assert(num_explode_post(*dice, explosion_values@, rolls@, result@));
        }
        return result;
    }
    let mut batch = copy_rolls(rolls);
    let mut budget: u64 = 0xffff_ffff_ffff_ffffu64;
    let mut done = false;
    while !done && budget > 0
        invariant
            dice.rollable(),
            result@.len() >= rolls@.len(),
            result@.take(rolls@.len() as int) == rolls@,
            forall|i: int|
                rolls@.len() <= i < result@.len() ==> num_value_ok(*dice, #[trigger] result@[i]),
            result@ == rolls@ + concat_batches(batches),
            num_batches_chain(*dice, explosion_values@, rolls@, batches),
            batch@ == chain_last(rolls@, batches),
            batches.len() == explode_draw_budget() - budget,
            done ==> match_count(batch@, explosion_values@) == 0,
        decreases budget, (if done {
            0int
        } else {
            1int
        }),
    {
        let k = count_matches(&batch, explosion_values);
        if k == 0 {
            done = true;
        } else {
            budget = budget - 1;
            let new_batch = gen.roll_numeric_vec(k, dice);
            proof {
                lemma_num_batch_values(*dice, new_batch@);
                lemma_num_batches_chain_snoc(
                    *dice,
                    explosion_values@,
                    rolls@,
                    batches,
                    new_batch@,
                );
                assert(batches.push(new_batch@).drop_last() =~= batches);
                assert(concat_batches(batches.push(new_batch@)) =~= concat_batches(batches)
                    + new_batch@);
            }
            let mut to_add = copy_rolls(&new_batch);
            result.append(&mut to_add);
            proof {
                batches = batches.push(new_batch@);
                assert(result@.take(rolls@.len() as int) =~= rolls@);
                assert(result@ =~= rolls@ + concat_batches(batches));
            }
            batch = new_batch;
        }
    }
    proof {
        assert(done || batches.len() == explode_draw_budget());
        assert(num_explode_post(*dice, explosion_values@, rolls@, result@));
    }
    result
}

/// The fudge rolls with the explosion appended.
fn explode_fudge(
    rolls: &Vec<FudgeRoll>,
    gen: &mut DiceGenerator,
    dice: &FudgeDice,
    explosion_values: &Vec<FudgeRoll>,
) -> (r: Vec<FudgeRoll>)
    requires
        dice.rollable(),
    ensures
        r@.len() >= rolls@.len(),
        r@.take(rolls@.len() as int) == rolls@,
        forall|i: int| rolls@.len() <= i < r@.len() ==> fudge_value_ok(*dice, #[trigger] r@[i]),
        fudge_explode_post(*dice, explosion_values@, rolls@, r@),
{
    let mut result = copy_rolls(rolls);
    let ghost mut batches = Seq::<Seq<FudgeRoll>>::empty();
    proof {
        assert(result@.take(rolls@.len() as int) =~= rolls@);
        assert(result@ =~= rolls@ + concat_batches(batches));
    }
    if rolls.len() == 0 {
        proof {
            assert(fudge_explode_post(*dice, explosion_values@, rolls@, result@));
        }
        return result;
    }
    let mut batch = copy_rolls(rolls);
    let mut budget: u64 = 0xffff_ffff_ffff_ffffu64;
    let mut done = false;
    while !done && budget > 0
        invariant
            dice.rollable(),
            result@.len() >= rolls@.len(),
            result@.take(rolls@.len() as int) == rolls@,
            forall|i: int|
                rolls@.len() <= i < result@.len() ==> fudge_value_ok(*dice, #[trigger] result@[i]),
            result@ == rolls@ + concat_batches(batches),
            fudge_batches_chain(*dice, explosion_values@, rolls@, batches),
            batch@ == chain_last(rolls@, batches),
            batches.len() == explode_draw_budget() - budget,
            done ==> match_count(batch@, explosion_values@) == 0,
        decreases budget, (if done {
            0int
        } else {
            1int
        }),
    {
        let k = count_matches_fudge(&batch, explosion_values);
        if k == 0 {
            done = true;
        } else {
            budget = budget - 1;
            let new_batch = gen.roll_fudge_vec(k, dice);
            proof {
                lemma_fudge_batch_values(*dice, new_batch@);
                lemma_fudge_batches_chain_snoc(
                    *dice,
                    explosion_values@,
                    rolls@,
                    batches,
                    new_batch@,
                );
                assert(batches.push(new_batch@).drop_last() =~= batches);
                assert(concat_batches(batches.push(new_batch@)) =~= concat_batches(batches)
                    + new_batch@);
            }
            let mut to_add = copy_rolls(&new_batch);
            result.append(&mut to_add);
            proof {
                batches = batches.push(new_batch@);
                assert(result@.take(rolls@.len() as int) =~= rolls@);
                assert(result@ =~= rolls@ + concat_batches(batches));
            }
            batch = new_batch;
        }
    }
    proof {
        assert(done || batches.len() == explode_draw_budget());
        assert(fudge_explode_post(*dice, explosion_values@, rolls@, result@));
    }
    result
}

/// Explode rerolls the dice whenever the roll is equal to one of the action
/// parameters. The new rolls can also trigger an explosion.
///
/// Don't use on a constant dice with its own value as the trigger: every new
/// batch matches again, and only the internal draw budget ends the explosion.
pub trait Explode<T: RollBounds, V: DiceBounds>: Sized {
    /// Whether fresh values can be drawn for this roll set.
    spec fn explode_req(&self) -> bool;

    fn explode(&self, gen: &mut DiceGenerator, explosion_values: &Vec<T>) -> Self
        requires
            self.explode_req(),
    ;
}

impl Explode<NumericRoll, NumericDice> for NumericRolls {
    open spec fn explode_req(&self) -> bool {
        self.dice.rollable()
    }

    fn explode(&self, gen: &mut DiceGenerator, explosion_values: &Vec<NumericRoll>) -> (r:
        NumericRolls)
        ensures
            r.rolls@.len() >= self.rolls@.len(),
            r.rolls@.take(self.rolls@.len() as int) == self.rolls@,
            forall|i: int|
                self.rolls@.len() <= i < r.rolls@.len() ==> num_value_ok(
                    self.dice,
                    #[trigger] r.rolls@[i],
                ),
            num_explode_post(self.dice, explosion_values@, self.rolls@, r.rolls@),
            num_dice_eqv(r.dice, self.dice),
            r.description@ == explode_desc(self.description@, num_vals_strs(explosion_values@)),
    {
        let rolls = explode(&self.rolls, gen, &self.dice, explosion_values);
        let mut d = self.description.clone();
        d.append(" explode(");
        let list = num_vals_list(explosion_values);
        d.append(list.as_str());
        d.append(")");
        proof {
            assert(d@ =~= explode_desc(self.description@, num_vals_strs(explosion_values@)));
        }
        Rolls { description: d, dice: copy_num_dice(&self.dice), rolls }
    }
}

impl Explode<FudgeRoll, FudgeDice> for FudgeRolls {
    open spec fn explode_req(&self) -> bool {
        self.dice.rollable()
    }

    fn explode(&self, gen: &mut DiceGenerator, explosion_values: &Vec<FudgeRoll>) -> (r:
        FudgeRolls)
        ensures
            r.rolls@.len() >= self.rolls@.len(),
            r.rolls@.take(self.rolls@.len() as int) == self.rolls@,
            forall|i: int|
                self.rolls@.len() <= i < r.rolls@.len() ==> fudge_value_ok(
                    self.dice,
                    #[trigger] r.rolls@[i],
                ),
            fudge_explode_post(self.dice, explosion_values@, self.rolls@, r.rolls@),
            fudge_dice_eqv(r.dice, self.dice),
            r.description@ == explode_desc(self.description@, fudge_vals_strs(explosion_values@)),
    {
        let rolls = explode_fudge(&self.rolls, gen, &self.dice, explosion_values);
        let mut d = self.description.clone();
        d.append(" explode(");
        let list = fudge_vals_list(explosion_values);
        d.append(list.as_str());
        d.append(")");
        proof {
            assert(d@ =~= explode_desc(self.description@, fudge_vals_strs(explosion_values@)));
        }
        Rolls { description: d, dice: copy_fudge_dice(&self.dice), rolls }
    }
}

/// The grand sum of every value of every roll result.
pub open spec fn total_vals_sum(rs: Seq<NumericRolls>) -> int
    decreases rs.len(),
{
    if rs.len() == 0 {
        0
    } else {
        total_vals_sum(rs.drop_last()) + sum_of(rs.last().rolls@)
    }
}

/// One contribution in the grand-total description: `(description:subtotal)`.
pub open spec fn total_part(r: NumericRolls) -> Seq<char> {
    "("@ + r.description@ + ":"@ + dec_str(sum_of(r.rolls@)) + ")"@
}

/// The description of the grand total: each contribution, then the total
/// marker.
pub open spec fn total_desc(rs: Seq<NumericRolls>) -> Seq<char> {
    "Detailed rolls\t: "@ + join_seq(rs.map_values(|r: NumericRolls| total_part(r)), " + "@)
        + "\nTOTAL SUM \t"@
}

/// The grand sum is never negative.
pub proof fn lemma_total_nonneg(rs: Seq<NumericRolls>)
    ensures
        total_vals_sum(rs) >= 0,
    decreases rs.len(),
{
    if rs.len() > 0 {
        lemma_total_nonneg(rs.drop_last());
        lemma_sum_nonneg(rs.last().rolls@);
    }
}

/// A prefix of the roll results sums to no more than all of them.
pub proof fn lemma_total_prefix(rs: Seq<NumericRolls>, k: int)
    requires
        0 <= k <= rs.len(),
    ensures
        total_vals_sum(rs.take(k)) <= total_vals_sum(rs),
    decreases rs.len(),
{
    if rs.len() == 0 || k == rs.len() {
        assert(rs.take(k) =~= rs);
    } else {
        assert(rs.drop_last().take(k) =~= rs.take(k));
        lemma_total_prefix(rs.drop_last(), k);
        lemma_sum_nonneg(rs.last().rolls@);
    }
}

/// Each roll result's own sum is no more than the grand sum.
pub proof fn lemma_total_elem(rs: Seq<NumericRolls>, k: int)
    requires
        0 <= k < rs.len(),
    ensures
        sum_of(rs[k].rolls@) <= total_vals_sum(rs),
    decreases rs.len(),
{
    if k == rs.len() - 1 {
        lemma_total_nonneg(rs.drop_last());
    } else {
        lemma_total_elem(rs.drop_last(), k);
        lemma_sum_nonneg(rs.last().rolls@);
    }
}

/// Return a single sum of all rolls, regardless of dice kind.
///
/// To get the sums of each kind of dice separately, use `Sum`.
pub trait TotalSum {
    /// Whether the grand sum stays in the roll range.
    spec fn total_req(&self) -> bool;

    fn total(&self) -> NumericRolls
        requires
            self.total_req(),
    ;
}

impl TotalSum for Vec<NumericRolls> {
    open spec fn total_req(&self) -> bool {
        total_vals_sum(self@) <= u32::MAX
    }

    fn total(&self) -> (r: NumericRolls)
        ensures
            r.dice == NumericDice::AggregationResult,
            r.rolls@.len() == 1,
            r.rolls@[0] as int == total_vals_sum(self@),
            r.description@ == total_desc(self@),
    {
        let mut acc: u64 = 0;
        let mut d = String::from_str("Detailed rolls\t: ");
        let ghost parts = self@.map_values(|r: NumericRolls| total_part(r));
        proof {
            assert(d@ =~= "Detailed rolls\t: "@ + join_seq(parts.take(0), " + "@));
        }
        let mut i: usize = 0;
        while i < self.len()
            invariant
                i <= self.len(),
                total_vals_sum(self@) <= u32::MAX,
                parts == self@.map_values(|r: NumericRolls| total_part(r)),
                acc as int == total_vals_sum(self@.take(i as int)),
                acc <= u32::MAX,
                d@ == "Detailed rolls\t: "@ + join_seq(parts.take(i as int), " + "@),
            decreases self.len() - i,
        {
            let elem = &self[i];
            proof {
                lemma_total_elem(self@, i as int);
                lemma_sum_nonneg(elem.rolls@);
                lemma_total_nonneg(self@);
            }
            let sub: u32 = match checked_sum(&elem.rolls) {
                Some(s) => s,
                None => {
                    proof {
                        assert(false);
                    }
                    0
                },
            };
            let mut part = String::from_str("(");
            part.append(elem.description.as_str());
            part.append(":");
            push_dec(&mut part, sub);
            part.append(")");
            proof {
                assert(part@ =~= total_part(self@[i as int]));
            }
            join_step(&mut d, " + ", part.as_str(), i == 0);
            proof {
                assert(parts.take(i + 1) =~= parts.take(i as int).push(parts[i as int]));
                crate::text::lemma_join_push(parts.take(i as int), " + "@, parts[i as int]);
                assert(d@ =~= "Detailed rolls\t: "@ + join_seq(parts.take(i + 1), " + "@));
                assert(self@.take(i + 1).drop_last() =~= self@.take(i as int));
                assert(self@.take(i + 1).last() == self@[i as int]);
                lemma_total_prefix(self@, i + 1);
            }
            acc = acc + sub as u64;
            i = i + 1;
        }
        d.append("\nTOTAL SUM \t");
        proof {
            assert(parts.take(parts.len() as int) =~= parts);
            assert(self@.take(self@.len() as int) =~= self@);
            assert(d@ =~= total_desc(self@));
        }
        let mut rolls: Vec<NumericRoll> = Vec::new();
        rolls.push(acc as u32);
        Rolls { description: d, dice: NumericDice::AggregationResult, rolls }
    }
}

/// Actions a numeric roll set refuses outright: fudge-only actions, the
/// session-wide `Total`, and actions that would roll or measure an
/// aggregation result again.
pub open spec fn num_incompat(r: NumericRolls, a: Action) -> bool {
    match a {
        Action::RerollFudge(_) => true,
        Action::ExplodeFudge(_) => true,
        Action::Total => true,
        Action::FlipFlop => r.dice is AggregationResult,
        Action::RerollNumeric(_) => r.dice is AggregationResult,
        Action::Explode(_) => r.dice is AggregationResult,
        Action::RerollBest(_) => r.dice is AggregationResult,
        Action::RerollWorst(_) => r.dice is AggregationResult,
        _ => false,
    }
}

/// Parameter failures of a numeric action: a sum, product or flip leaving
/// the roll value range, or a keep or reroll count larger than the rolls.
pub open spec fn num_badparam(r: NumericRolls, a: Action) -> bool {
    match a {
        Action::Sum => sum_of(r.rolls@) > u32::MAX,
        Action::MultiplyBy(f) => !(forall|i: int|
            0 <= i < r.rolls@.len() ==> (#[trigger] r.rolls@[i]) * f <= u32::MAX),
        Action::FlipFlop => !(r.dice is AggregationResult) && !(forall|i: int|
            0 <= i < r.rolls@.len() ==> flip_val(
                (#[trigger] r.rolls@[i]) as int,
                digits_len(num_dice_max(r.dice)),
            ) <= u32::MAX),
        Action::KeepBest(k) => k as int > r.rolls@.len(),
        Action::KeepWorst(k) => k as int > r.rolls@.len(),
        Action::RerollBest(k) => !(r.dice is AggregationResult) && k as int > r.rolls@.len(),
        Action::RerollWorst(k) => !(r.dice is AggregationResult) && k as int > r.rolls@.len(),
        _ => false,
    }
}

/// A numeric action that needs fresh draws from a dice that has none to
/// give (an empty repeating dice, or a numbered dice without sides).
pub open spec fn num_baddice(r: NumericRolls, a: Action) -> bool {
    match a {
        Action::RerollNumeric(_) => !(r.dice is AggregationResult) && !r.dice.rollable(),
        Action::Explode(_) => !(r.dice is AggregationResult) && !r.dice.rollable(),
        Action::RerollBest(k) => !(r.dice is AggregationResult) && k as int <= r.rolls@.len()
            && !r.dice.rollable(),
        Action::RerollWorst(k) => !(r.dice is AggregationResult) && k as int <= r.rolls@.len()
            && !r.dice.rollable(),
        _ => false,
    }
}

/// When applying an action to a numeric roll set fails.
pub open spec fn num_apply_fails(r: NumericRolls, a: Action) -> bool {
    num_incompat(r, a) || num_badparam(r, a) || num_baddice(r, a)
}

/// What a successful action application did to a numeric roll set.
pub open spec fn num_apply_post(pre: NumericRolls, a: Action, post: NumericRolls) -> bool {
    match a {
        Action::Sum => {
            &&& post.rolls@.len() == 1
            &&& post.rolls@[0] as int == sum_of(pre.rolls@)
            &&& num_dice_eqv(post.dice, pre.dice)
            &&& post.description@ == sum_desc(pre.description@)
        },
        Action::MultiplyBy(f) => {
            &&& post.rolls@.len() == pre.rolls@.len()
            &&& forall|i: int|
                0 <= i < pre.rolls@.len() ==> post.rolls@[i] == (#[trigger] pre.rolls@[i]) * f
            &&& num_dice_eqv(post.dice, pre.dice)
            &&& post.description@ == multiply_desc(pre.description@, f)
        },
        Action::FlipFlop => {
            &&& post.rolls@.len() == pre.rolls@.len()
            &&& forall|i: int|
                0 <= i < pre.rolls@.len() ==> (#[trigger] post.rolls@[i]) as int == flip_val(
                    pre.rolls@[i] as int,
                    digits_len(num_dice_max(pre.dice)),
                )
            &&& num_dice_eqv(post.dice, pre.dice)
            &&& post.description@ == flip_desc(pre.description@)
        },
        Action::RerollNumeric(t) => {
            &&& post.rolls@.len() == pre.rolls@.len()
            &&& forall|i: int|
                0 <= i < pre.rolls@.len() ==> if t@.contains(#[trigger] pre.rolls@[i]) {
                    num_draw_ok(pre.dice, post.rolls@[i])
                } else {
                    post.rolls@[i] == pre.rolls@[i]
                }
            &&& num_dice_eqv(post.dice, pre.dice)
            &&& post.description@ == reroll_desc(pre.description@, num_vals_strs(t@))
        },
        Action::Explode(t) => {
            &&& post.rolls@.len() >= pre.rolls@.len()
            &&& post.rolls@.take(pre.rolls@.len() as int) == pre.rolls@
            &&& forall|i: int|
                pre.rolls@.len() <= i < post.rolls@.len() ==> num_value_ok(
                    pre.dice,
                    #[trigger] post.rolls@[i],
                )
            &&& num_explode_post(pre.dice, t@, pre.rolls@, post.rolls@)
            &&& num_dice_eqv(post.dice, pre.dice)
            &&& post.description@ == explode_desc(pre.description@, num_vals_strs(t@))
        },
        Action::KeepBest(k) => {
            &&& post.rolls@ == keep_best_spec(pre.rolls@, k as int)
            &&& num_dice_eqv(post.dice, pre.dice)
            &&& post.description@ == keep_best_desc(pre.description@, k as int)
        },
        Action::KeepWorst(k) => {
            &&& post.rolls@ == keep_worst_spec(pre.rolls@, k as int)
            &&& num_dice_eqv(post.dice, pre.dice)
            &&& post.description@ == keep_worst_desc(pre.description@, k as int)
        },
        Action::RerollBest(k) => {
            &&& post.rolls@.len() == pre.rolls@.len()
            &&& post.rolls@.take(pre.rolls@.len() - k as int) == keep_worst_spec(
                pre.rolls@,
                pre.rolls@.len() - k as int,
            )
            &&& num_batch_ok(pre.dice, post.rolls@.skip(pre.rolls@.len() - k as int))
            &&& num_dice_eqv(post.dice, pre.dice)
            &&& post.description@ == reroll_best_desc(pre.description@, k as int)
        },
        Action::RerollWorst(k) => {
            &&& post.rolls@.len() == pre.rolls@.len()
            &&& post.rolls@.take(pre.rolls@.len() - k as int) == keep_best_spec(
                pre.rolls@,
                pre.rolls@.len() - k as int,
            )
            &&& num_batch_ok(pre.dice, post.rolls@.skip(pre.rolls@.len() - k as int))
            &&& num_dice_eqv(post.dice, pre.dice)
            &&& post.description@ == reroll_worst_desc(pre.description@, k as int)
        },
        _ => false,
    }
}

/// Actions a fudge roll set refuses: everything but its own reroll and
/// explode.
pub open spec fn fudge_incompat(r: FudgeRolls, a: Action) -> bool {
    match a {
        Action::RerollFudge(_) => false,
        Action::ExplodeFudge(_) => false,
        _ => true,
    }
}

/// A fudge action that needs fresh draws from a dice that has none to give.
pub open spec fn fudge_baddice(r: FudgeRolls, a: Action) -> bool {
    match a {
        Action::RerollFudge(_) => !r.dice.rollable(),
        Action::ExplodeFudge(_) => !r.dice.rollable(),
        _ => false,
    }
}

/// When applying an action to a fudge roll set fails.
pub open spec fn fudge_apply_fails(r: FudgeRolls, a: Action) -> bool {
    fudge_incompat(r, a) || fudge_baddice(r, a)
}

/// What a successful action application did to a fudge roll set.
pub open spec fn fudge_apply_post(pre: FudgeRolls, a: Action, post: FudgeRolls) -> bool {
    match a {
        Action::RerollFudge(t) => {
            &&& post.rolls@.len() == pre.rolls@.len()
            &&& forall|i: int|
                0 <= i < pre.rolls@.len() ==> if t@.contains(#[trigger] pre.rolls@[i]) {
                    fudge_draw_ok(pre.dice, post.rolls@[i])
                } else {
                    post.rolls@[i] == pre.rolls@[i]
                }
            &&& fudge_dice_eqv(post.dice, pre.dice)
            &&& post.description@ == reroll_desc(pre.description@, fudge_vals_strs(t@))
        },
        Action::ExplodeFudge(t) => {
            &&& post.rolls@.len() >= pre.rolls@.len()
            &&& post.rolls@.take(pre.rolls@.len() as int) == pre.rolls@
            &&& forall|i: int|
                pre.rolls@.len() <= i < post.rolls@.len() ==> fudge_value_ok(
                    pre.dice,
                    #[trigger] post.rolls@[i],
                )
            &&& fudge_explode_post(pre.dice, t@, pre.rolls@, post.rolls@)
            &&& fudge_dice_eqv(post.dice, pre.dice)
            &&& post.description@ == explode_desc(pre.description@, fudge_vals_strs(t@))
        },
        _ => false,
    }
}

pub(crate) fn bad_dice_error() -> (e: Error)
    ensures
        e.kind matches ErrorKind::BadDice(_),
{
    Error::new(ErrorKind::BadDice(String::from_str("This dice has no values to draw from")))
}

pub(crate) fn overflow_error(what: &str) -> (e: Error)
    ensures
        e.kind matches ErrorKind::BadActionParameter(_),
{
    let mut m = String::from_str("Action ");
    m.append(what);
    m.append(" overflows the roll value range");
    Error::new(ErrorKind::BadActionParameter(m))
}

/// Applying one action to a roll result, producing the transformed result or
/// the error that the action raises on it.
pub trait Apply<T: RollBounds, V: DiceBounds>: Sized {
    fn apply(&self, action: &Action, gen: &mut DiceGenerator) -> Result<Self, Error>;
}

impl Apply<NumericRoll, NumericDice> for NumericRolls {
    fn apply(&self, action: &Action, gen: &mut DiceGenerator) -> (res: Result<NumericRolls, Error>)
        ensures
            res is Err <==> num_apply_fails(*self, *action),
            res matches Ok(r) ==> num_apply_post(*self, *action, r),
            res matches Err(e) ==> (num_incompat(*self, *action) ==> (
            e.kind matches ErrorKind::IncompatibleAction(m) && m@
                == crate::errors::incompatible_message(action_name(*action), "numeric roll"@))),
            res matches Err(e) ==> (!num_incompat(*self, *action) && num_badparam(*self, *action)
                ==> (e.kind matches ErrorKind::BadActionParameter(_))),
            res matches Err(e) ==> (!num_incompat(*self, *action) && !num_badparam(*self, *action)
                && num_baddice(*self, *action) ==> (e.kind matches ErrorKind::BadDice(_))),
    {
        match action {
            Action::Sum => {
                match checked_sum(&self.rolls) {
                    Some(_) => Ok(self.sum()),
                    None => Err(overflow_error("Sum")),
                }
            },
            Action::MultiplyBy(factor) => {
                if multiply_fits(&self.rolls, *factor) {
                    Ok(self.multiply(*factor))
                } else {
                    Err(overflow_error("MultiplyBy"))
                }
            },
            Action::FlipFlop => {
                if self.dice.is_aggregation() {
                    Err(Error::incompatible(&action.name(), &String::from_str("numeric roll")))
                } else {
                    let max_value = self.dice.get_max_value();
                    let wmax = digit_count(max_value);
                    if flip_fits(&self.rolls, wmax) {
                        Ok(self.flip())
                    } else {
                        Err(overflow_error("FlipFlop"))
                    }
                }
            },
            Action::RerollNumeric(values) => {
                if self.dice.is_aggregation() {
                    Err(Error::incompatible(&action.name(), &String::from_str("numeric roll")))
                } else if !self.dice.is_rollable() {
                    Err(bad_dice_error())
                } else {
                    Ok(self.reroll(gen, values))
                }
            },
            Action::Explode(values) => {
                if self.dice.is_aggregation() {
                    Err(Error::incompatible(&action.name(), &String::from_str("numeric roll")))
                } else if !self.dice.is_rollable() {
                    Err(bad_dice_error())
                } else {
                    Ok(self.explode(gen, values))
                }
            },
            Action::KeepBest(keep) => self.keep_best(*keep),
            Action::KeepWorst(keep) => self.keep_worst(*keep),
            Action::RerollBest(reroll) => {
                if self.dice.is_aggregation() {
                    Err(Error::incompatible(&action.name(), &String::from_str("numeric roll")))
                } else if *reroll as usize > self.rolls.len() {
                    Err(Error::bad_action_parameter(&reroll_err_string(*reroll, self.rolls.len())))
                } else if !self.dice.is_rollable() {
                    Err(bad_dice_error())
                } else {
                    self.reroll_best(gen, *reroll)
                }
            },
            Action::RerollWorst(reroll) => {
                if self.dice.is_aggregation() {
                    Err(Error::incompatible(&action.name(), &String::from_str("numeric roll")))
                } else if *reroll as usize > self.rolls.len() {
                    Err(Error::bad_action_parameter(&reroll_err_string(*reroll, self.rolls.len())))
                } else if !self.dice.is_rollable() {
                    Err(bad_dice_error())
                } else {
                    self.reroll_worst(gen, *reroll)
                }
            },
            Action::RerollFudge(_) => Err(
                Error::incompatible(&action.name(), &String::from_str("numeric roll")),
            ),
            Action::ExplodeFudge(_) => Err(
                Error::incompatible(&action.name(), &String::from_str("numeric roll")),
            ),
            Action::Total => Err(
                Error::incompatible(&action.name(), &String::from_str("numeric roll")),
            ),
        }
    }
}

impl Apply<FudgeRoll, FudgeDice> for FudgeRolls {
    fn apply(&self, action: &Action, gen: &mut DiceGenerator) -> (res: Result<FudgeRolls, Error>)
        ensures
            res is Err <==> fudge_apply_fails(*self, *action),
            res matches Ok(r) ==> fudge_apply_post(*self, *action, r),
            res matches Err(e) ==> (fudge_incompat(*self, *action) ==> (
            e.kind matches ErrorKind::IncompatibleAction(m) && m@
                == crate::errors::incompatible_message(action_name(*action), "fudge roll"@))),
            res matches Err(e) ==> (!fudge_incompat(*self, *action) && fudge_baddice(
                *self,
                *action,
            ) ==> (e.kind matches ErrorKind::BadDice(_))),
    {
        match action {
            Action::RerollFudge(values) => {
                if !self.dice.is_rollable() {
                    Err(bad_dice_error())
                } else {
                    Ok(self.reroll(gen, values))
                }
            },
            Action::ExplodeFudge(values) => {
                if !self.dice.is_rollable() {
                    Err(bad_dice_error())
                } else {
                    Ok(self.explode(gen, values))
                }
            },
            _ => Err(Error::incompatible(&action.name(), &String::from_str("fudge roll"))),
        }
    }
}

/// A successful action application keeps the dice equivalent.
pub proof fn lemma_num_apply_post_eqv(pre: NumericRolls, a: Action, post: NumericRolls)
    requires
        num_apply_post(pre, a, post),
    ensures
        num_dice_eqv(post.dice, pre.dice),
{
}

/// A successful fudge action application keeps the dice equivalent.
pub proof fn lemma_fudge_apply_post_eqv(pre: FudgeRolls, a: Action, post: FudgeRolls)
    requires
        fudge_apply_post(pre, a, post),
    ensures
        fudge_dice_eqv(post.dice, pre.dice),
{
}

/// Whether the grand sum of all roll results stays in the roll range.
pub fn total_fits(rolls: &Vec<NumericRolls>) -> (b: bool)
    ensures
        b == (total_vals_sum(rolls@) <= u32::MAX),
{
    let mut acc: u64 = 0;
    let mut i: usize = 0;
    while i < rolls.len()
        invariant
            i <= rolls.len(),
            acc <= u32::MAX,
            acc as int == total_vals_sum(rolls@.take(i as int)),
        decreases rolls.len() - i,
    {
        let elem = &rolls[i];
        proof {
            lemma_sum_nonneg(elem.rolls@);
            assert(rolls@.take(i + 1).drop_last() =~= rolls@.take(i as int));
            assert(rolls@.take(i + 1).last() == rolls@[i as int]);
        }
        let sub: u64 = match checked_sum(&elem.rolls) {
            Some(s) => s as u64,
            None => {
                proof {
                    lemma_total_elem(rolls@, i as int);
                }
                return false;
            },
        };
        acc = acc + sub;
        if acc > 0xffff_ffffu64 {
            proof {
                lemma_total_prefix(rolls@, i + 1);
            }
            return false;
        }
        i = i + 1;
    }
    proof {
        assert(rolls@.take(rolls@.len() as int) =~= rolls@);
    }
    true
}

/// All numeric values of a list of roll results, in order.
pub open spec fn flat_num(rs: Seq<NumericRolls>) -> Seq<NumericRoll>
    decreases rs.len(),
{
    if rs.len() == 0 {
        Seq::empty()
    } else {
        flat_num(rs.drop_last()) + rs.last().rolls@
    }
}

/// All fudge values of a list of roll results, in order.
pub open spec fn flat_fudge(rs: Seq<FudgeRolls>) -> Seq<FudgeRoll>
    decreases rs.len(),
{
    if rs.len() == 0 {
        Seq::empty()
    } else {
        flat_fudge(rs.drop_last()) + rs.last().rolls@
    }
}

/// The distinct values of a sequence, each at its first appearance.
pub open spec fn dedup<A>(s: Seq<A>) -> Seq<A>
    decreases s.len(),
{
    if s.len() == 0 {
        Seq::empty()
    } else if s.drop_last().contains(s.last()) {
        dedup(s.drop_last())
    } else {
        dedup(s.drop_last()).push(s.last())
    }
}

/// How many times a value occurs in a sequence.
pub open spec fn count_occ<A>(s: Seq<A>, x: A) -> int
    decreases s.len(),
{
    if s.len() == 0 {
        0
    } else {
        count_occ(s.drop_last(), x) + if s.last() == x {
            1int
        } else {
            0int
        }
    }
}

/// The deduplicated sequence holds exactly the values of the original.
pub proof fn lemma_dedup_contains<A>(s: Seq<A>, x: A)
    ensures
        dedup(s).contains(x) <==> s.contains(x),
    decreases s.len(),
{
    if s.len() > 0 {
        lemma_dedup_contains(s.drop_last(), x);
        assert(s.contains(x) <==> (s.drop_last().contains(x) || s.last() == x)) by {
            if s.contains(x) {
                let w = choose|w: int| 0 <= w < s.len() && s[w] == x;
                if w < s.len() - 1 {
                    assert(s.drop_last()[w] == x);
                }
            }
            if s.drop_last().contains(x) {
                let w = choose|w: int| 0 <= w < s.drop_last().len() && s.drop_last()[w] == x;
                assert(s[w] == x);
            }
            if s.last() == x {
                assert(s[s.len() - 1] == x);
            }
        }
        if !s.drop_last().contains(s.last()) {
            assert(dedup(s) == dedup(s.drop_last()).push(s.last()));
            assert(dedup(s).contains(x) <==> (dedup(s.drop_last()).contains(x) || s.last() == x))
                by {
                if dedup(s).contains(x) {
                    let w = choose|w: int| 0 <= w < dedup(s).len() && dedup(s)[w] == x;
                    if w < dedup(s).len() - 1 {
                        assert(dedup(s.drop_last())[w] == x);
                    }
                }
                if dedup(s.drop_last()).contains(x) {
                    let w = choose|w: int|
                        0 <= w < dedup(s.drop_last()).len() && dedup(s.drop_last())[w] == x;
                    assert(dedup(s)[w] == x);
                }
                if s.last() == x {
                    assert(dedup(s).last() == x);
                }
            }
        }
    }
}

/// How many numeric values of `flat` equal `x`.
fn count_occ_num(flat: &Vec<NumericRoll>, x: NumericRoll) -> (c: u32)
    requires
        flat@.len() <= u32::MAX,
    ensures
        c as int == count_occ(flat@, x),
{
    let mut c: u32 = 0;
    let mut i: usize = 0;
    while i < flat.len()
        invariant
            i <= flat.len(),
            flat@.len() <= u32::MAX,
            c as int == count_occ(flat@.take(i as int), x),
            c <= i,
        decreases flat.len() - i,
    {
        proof {
            assert(flat@.take(i + 1).drop_last() =~= flat@.take(i as int));
            assert(flat@.take(i + 1).last() == flat@[i as int]);
        }
        if flat[i] == x {
            c = c + 1;
        }
        i = i + 1;
    }
    proof {
        assert(flat@.take(flat@.len() as int) =~= flat@);
    }
    c
}

/// How many fudge values of `flat` equal `x`.
fn count_occ_fudge(flat: &Vec<FudgeRoll>, x: FudgeRoll) -> (c: u32)
    requires
        flat@.len() <= u32::MAX,
    ensures
        c as int == count_occ(flat@, x),
{
    let mut c: u32 = 0;
    let mut i: usize = 0;
    while i < flat.len()
        invariant
            i <= flat.len(),
            flat@.len() <= u32::MAX,
            c as int == count_occ(flat@.take(i as int), x),
            c <= i,
        decreases flat.len() - i,
    {
        proof {
            assert(flat@.take(i + 1).drop_last() =~= flat@.take(i as int));
            assert(flat@.take(i + 1).last() == flat@[i as int]);
        }
        if flat[i] == x {
            c = c + 1;
        }
        i = i + 1;
    }
    proof {
        assert(flat@.take(flat@.len() as int) =~= flat@);
    }
    c
}

/// CountValues counts the occurrences of each distinct value.
///
/// For example, given the rolls `-,+,-,0,+,+,0,-,-`, the returned counts are
/// `COUNT(+): 3`, `COUNT(0): 2`, `COUNT(-): 4`.
pub trait CountValues {
    /// Whether the values can be counted: the counts must fit in a roll value.
    spec fn count_req(&self) -> bool;

    fn count(&self) -> crate::NumericSession
        requires
            self.count_req(),
    ;
}

impl CountValues for crate::NumericSession {
    open spec fn count_req(&self) -> bool {
        flat_num(self.rolls@).len() <= u32::MAX
    }

    fn count(&self) -> (r: crate::NumericSession)
        ensures
            r.requests@.len() == 0,
            r.rolls@.len() == dedup(flat_num(self.rolls@)).len(),
            forall|i: int|
                0 <= i < r.rolls@.len() ==> {
                    &&& (#[trigger] r.rolls@[i]).dice == NumericDice::AggregationResult
                    &&& r.rolls@[i].rolls@.len() == 1
                    &&& r.rolls@[i].rolls@[0] as int == count_occ(
                        flat_num(self.rolls@),
                        dedup(flat_num(self.rolls@))[i],
                    )
                    &&& r.rolls@[i].description@ == "COUNT("@ + dec_str(
                        dedup(flat_num(self.rolls@))[i] as int,
                    ) + ")"@
                },
    {
        let mut flat: Vec<NumericRoll> = Vec::new();
        let mut i: usize = 0;
        while i < self.rolls.len()
            invariant
                i <= self.rolls.len(),
                flat@ == flat_num(self.rolls@.take(i as int)),
            decreases self.rolls.len() - i,
        {
            let mut part = copy_rolls(&self.rolls[i].rolls);
            flat.append(&mut part);
            proof {
                assert(self.rolls@.take(i + 1).drop_last() =~= self.rolls@.take(i as int));
                assert(self.rolls@.take(i + 1).last() == self.rolls@[i as int]);
            }
            i = i + 1;
        }
        proof {
            assert(self.rolls@.take(self.rolls@.len() as int) =~= self.rolls@);
        }
        let mut keys: Vec<NumericRoll> = Vec::new();
        let mut i: usize = 0;
        while i < flat.len()
            invariant
                i <= flat.len(),
                flat@ == flat_num(self.rolls@),
                keys@ == dedup(flat@.take(i as int)),
            decreases flat.len() - i,
        {
            proof {
                assert(flat@.take(i + 1).drop_last() =~= flat@.take(i as int));
                assert(flat@.take(i + 1).last() == flat@[i as int]);
                lemma_dedup_contains(flat@.take(i as int), flat@[i as int]);
            }
            if !contains_roll(&keys, flat[i]) {
                keys.push(flat[i]);
            }
            i = i + 1;
        }
        proof {
            assert(flat@.take(flat@.len() as int) =~= flat@);
        }
        let mut out: Vec<NumericRolls> = Vec::new();
        let mut i: usize = 0;
        while i < keys.len()
            invariant
                i <= keys.len(),
                flat@ == flat_num(self.rolls@),
                flat@.len() <= u32::MAX,
                keys@ == dedup(flat@),
                out@.len() == i as int,
                forall|j: int|
                    0 <= j < i ==> {
                        &&& (#[trigger] out@[j]).dice == NumericDice::AggregationResult
                        &&& out@[j].rolls@.len() == 1
                        &&& out@[j].rolls@[0] as int == count_occ(flat@, keys@[j])
                        &&& out@[j].description@ == "COUNT("@ + dec_str(keys@[j] as int) + ")"@
                    },
            decreases keys.len() - i,
        {
            let c = count_occ_num(&flat, keys[i]);
            let mut d = String::from_str("COUNT(");
            push_dec(&mut d, keys[i]);
            d.append(")");
            proof {
                assert(d@ =~= "COUNT("@ + dec_str(keys@[i as int] as int) + ")"@);
            }
            let mut vals: Vec<NumericRoll> = Vec::new();
            vals.push(c);
            out.push(
                Rolls { description: d, dice: NumericDice::AggregationResult, rolls: vals },
            );
            i = i + 1;
        }
        TypedRollSession { requests: Vec::new(), rolls: out, dice: DiceGenerator::new() }
    }
}

impl CountValues for crate::FudgeSession {
    open spec fn count_req(&self) -> bool {
        flat_fudge(self.rolls@).len() <= u32::MAX
    }

    fn count(&self) -> (r: crate::NumericSession)
        ensures
            r.requests@.len() == 0,
            r.rolls@.len() == dedup(flat_fudge(self.rolls@)).len(),
            forall|i: int|
                0 <= i < r.rolls@.len() ==> {
                    &&& (#[trigger] r.rolls@[i]).dice == NumericDice::AggregationResult
                    &&& r.rolls@[i].rolls@.len() == 1
                    &&& r.rolls@[i].rolls@[0] as int == count_occ(
                        flat_fudge(self.rolls@),
                        dedup(flat_fudge(self.rolls@))[i],
                    )
                    &&& r.rolls@[i].description@ == "COUNT("@ + seq![
                        crate::io::write::fudge_roll_char(dedup(flat_fudge(self.rolls@))[i]),
                    ] + ")"@
                },
    {
        let mut flat: Vec<FudgeRoll> = Vec::new();
        let mut i: usize = 0;
        while i < self.rolls.len()
            invariant
                i <= self.rolls.len(),
                flat@ == flat_fudge(self.rolls@.take(i as int)),
            decreases self.rolls.len() - i,
        {
            let mut part = copy_rolls(&self.rolls[i].rolls);
            flat.append(&mut part);
            proof {
                assert(self.rolls@.take(i + 1).drop_last() =~= self.rolls@.take(i as int));
                assert(self.rolls@.take(i + 1).last() == self.rolls@[i as int]);
            }
            i = i + 1;
        }
        proof {
            assert(self.rolls@.take(self.rolls@.len() as int) =~= self.rolls@);
        }
        let mut keys: Vec<FudgeRoll> = Vec::new();
        let mut i: usize = 0;
        while i < flat.len()
            invariant
                i <= flat.len(),
                flat@ == flat_fudge(self.rolls@),
                keys@ == dedup(flat@.take(i as int)),
            decreases flat.len() - i,
        {
            proof {
                assert(flat@.take(i + 1).drop_last() =~= flat@.take(i as int));
                assert(flat@.take(i + 1).last() == flat@[i as int]);
                lemma_dedup_contains(flat@.take(i as int), flat@[i as int]);
            }
            if !contains_fudge(&keys, flat[i]) {
                keys.push(flat[i]);
            }
            i = i + 1;
        }
        proof {
            assert(flat@.take(flat@.len() as int) =~= flat@);
        }
        let mut out: Vec<NumericRolls> = Vec::new();
        let mut i: usize = 0;
        while i < keys.len()
            invariant
                i <= keys.len(),
                flat@ == flat_fudge(self.rolls@),
                flat@.len() <= u32::MAX,
                keys@ == dedup(flat@),
                out@.len() == i as int,
                forall|j: int|
                    0 <= j < i ==> {
                        &&& (#[trigger] out@[j]).dice == NumericDice::AggregationResult
                        &&& out@[j].rolls@.len() == 1
                        &&& out@[j].rolls@[0] as int == count_occ(flat@, keys@[j])
                        &&& out@[j].description@ == "COUNT("@ + seq![
                            crate::io::write::fudge_roll_char(keys@[j]),
                        ] + ")"@
                    },
            decreases keys.len() - i,
        {
            let c = count_occ_fudge(&flat, keys[i]);
            let mut d = String::from_str("COUNT(");
            let key_str = keys[i].to_string();
            d.append(key_str.as_str());
            d.append(")");
            proof {
                assert(d@ =~= "COUNT("@ + seq![
                    crate::io::write::fudge_roll_char(keys@[i as int]),
                ] + ")"@);
            }
            let mut vals: Vec<NumericRoll> = Vec::new();
            vals.push(c);
            out.push(
                Rolls { description: d, dice: NumericDice::AggregationResult, rolls: vals },
            );
            i = i + 1;
        }
        TypedRollSession { requests: Vec::new(), rolls: out, dice: DiceGenerator::new() }
    }
}

/// `Total` over no contributing roll results yields a sum of zero: the
/// grand total of an empty list is zero, so an empty session totals to a
/// single zero-valued aggregate entry rather than an error.
pub proof fn lemma_total_of_no_rolls()
    ensures
        total_vals_sum(Seq::<NumericRolls>::empty()) == 0,
{
}

/// How long the flattened numeric value list of these roll results is.
pub proof fn lemma_flat_num_prefix(rs: Seq<NumericRolls>, k: int)
    requires
        0 <= k <= rs.len(),
    ensures
        flat_num(rs.take(k)).len() <= flat_num(rs).len(),
    decreases rs.len(),
{
    if rs.len() == 0 || k == rs.len() {
        assert(rs.take(k) =~= rs);
    } else {
        assert(rs.drop_last().take(k) =~= rs.take(k));
        lemma_flat_num_prefix(rs.drop_last(), k);
    }
}

/// How long the flattened fudge value list of these roll results is.
pub proof fn lemma_flat_fudge_prefix(rs: Seq<FudgeRolls>, k: int)
    requires
        0 <= k <= rs.len(),
    ensures
        flat_fudge(rs.take(k)).len() <= flat_fudge(rs).len(),
    decreases rs.len(),
{
    if rs.len() == 0 || k == rs.len() {
        assert(rs.take(k) =~= rs);
    } else {
        assert(rs.drop_last().take(k) =~= rs.take(k));
        lemma_flat_fudge_prefix(rs.drop_last(), k);
    }
}

/// Whether the values of these roll results can be counted: the total number
/// of values fits in a roll value.
pub fn num_countable(rolls: &Vec<NumericRolls>) -> (b: bool)
    ensures
        b == (flat_num(rolls@).len() <= u32::MAX),
{
    let mut acc: u64 = 0;
    let mut i: usize = 0;
    while i < rolls.len()
        invariant
            i <= rolls.len(),
            acc <= u32::MAX,
            acc as int == flat_num(rolls@.take(i as int)).len(),
        decreases rolls.len() - i,
    {
        proof {
            assert(rolls@.take(i + 1).drop_last() =~= rolls@.take(i as int));
            assert(rolls@.take(i + 1).last() == rolls@[i as int]);
        }
        let elem_len = rolls[i].rolls.len();
        if elem_len > 0xffff_ffffusize {
            proof {
                lemma_flat_num_prefix(rolls@, i + 1);
            }
            return false;
        }
        acc = acc + elem_len as u64;
        if acc > 0xffff_ffffu64 {
            proof {
                lemma_flat_num_prefix(rolls@, i + 1);
            }
            return false;
        }
        i = i + 1;
    }
    proof {
        assert(rolls@.take(rolls@.len() as int) =~= rolls@);
    }
    true
}

/// Whether the values of these fudge roll results can be counted.
pub fn fudge_countable(rolls: &Vec<FudgeRolls>) -> (b: bool)
    ensures
        b == (flat_fudge(rolls@).len() <= u32::MAX),
{
    let mut acc: u64 = 0;
    let mut i: usize = 0;
    while i < rolls.len()
        invariant
            i <= rolls.len(),
            acc <= u32::MAX,
            acc as int == flat_fudge(rolls@.take(i as int)).len(),
        decreases rolls.len() - i,
    {
        proof {
            assert(rolls@.take(i + 1).drop_last() =~= rolls@.take(i as int));
            assert(rolls@.take(i + 1).last() == rolls@[i as int]);
        }
        let elem_len = rolls[i].rolls.len();
        if elem_len > 0xffff_ffffusize {
            proof {
                lemma_flat_fudge_prefix(rolls@, i + 1);
            }
            return false;
        }
        acc = acc + elem_len as u64;
        if acc > 0xffff_ffffu64 {
            proof {
                lemma_flat_fudge_prefix(rolls@, i + 1);
            }
            return false;
        }
        i = i + 1;
    }
    proof {
        assert(rolls@.take(rolls@.len() as int) =~= rolls@);
    }
    true
}

/// The roll result after applying an action list one value at a time: each
/// step succeeds and relates the states as `Apply` does.
pub open spec fn num_rolls_chain(pre: NumericRolls, actions: Seq<Action>, post: NumericRolls) -> bool
    decreases actions.len(),
{
    if actions.len() == 0 {
        post == pre
    } else {
        exists|mid: NumericRolls|
            #![auto]
            !num_apply_fails(pre, actions[0]) && num_apply_post(pre, actions[0], mid)
                && num_rolls_chain(mid, actions.skip(1), post)
    }
}

/// Whether a reachable state makes some step of the action list fail.
pub open spec fn num_rolls_chain_fails(pre: NumericRolls, actions: Seq<Action>) -> bool
    decreases actions.len(),
{
    if actions.len() == 0 {
        false
    } else {
        num_apply_fails(pre, actions[0]) || exists|mid: NumericRolls|
            #![auto]
            num_apply_post(pre, actions[0], mid) && num_rolls_chain_fails(mid, actions.skip(1))
    }
}

/// The fudge roll result after applying an action list step by step.
pub open spec fn fudge_rolls_chain(pre: FudgeRolls, actions: Seq<Action>, post: FudgeRolls) -> bool
    decreases actions.len(),
{
    if actions.len() == 0 {
        post == pre
    } else {
        exists|mid: FudgeRolls|
            #![auto]
            !fudge_apply_fails(pre, actions[0]) && fudge_apply_post(pre, actions[0], mid)
                && fudge_rolls_chain(mid, actions.skip(1), post)
    }
}

/// Whether a reachable fudge state makes some step of the action list fail.
pub open spec fn fudge_rolls_chain_fails(pre: FudgeRolls, actions: Seq<Action>) -> bool
    decreases actions.len(),
{
    if actions.len() == 0 {
        false
    } else {
        fudge_apply_fails(pre, actions[0]) || exists|mid: FudgeRolls|
            #![auto]
            fudge_apply_post(pre, actions[0], mid) && fudge_rolls_chain_fails(
                mid,
                actions.skip(1),
            )
    }
}

/// A roll chain extends by one successful step at its end.
pub proof fn lemma_num_rolls_chain_snoc(
    pre: NumericRolls,
    acts: Seq<Action>,
    mid: NumericRolls,
    a: Action,
    post: NumericRolls,
)
    requires
        num_rolls_chain(pre, acts, mid),
        !num_apply_fails(mid, a),
        num_apply_post(mid, a, post),
    ensures
        num_rolls_chain(pre, acts.push(a), post),
    decreases acts.len(),
{
    if acts.len() == 0 {
        assert(acts.push(a)[0] == a);
        assert(acts.push(a).skip(1) =~= Seq::<Action>::empty());
        assert(num_rolls_chain(post, acts.push(a).skip(1), post));
    } else {
        let m0 = choose|m0: NumericRolls|
            #![auto]
            !num_apply_fails(pre, acts[0]) && num_apply_post(pre, acts[0], m0) && num_rolls_chain(
                m0,
                acts.skip(1),
                mid,
            );
        lemma_num_rolls_chain_snoc(m0, acts.skip(1), mid, a, post);
        assert(acts.push(a)[0] == acts[0]);
        assert(acts.push(a).skip(1) =~= acts.skip(1).push(a));
        assert(!num_apply_fails(pre, acts.push(a)[0]) && num_apply_post(pre, acts.push(a)[0], m0)
            && num_rolls_chain(m0, acts.push(a).skip(1), post));
    }
}

/// A fudge roll chain extends by one successful step at its end.
pub proof fn lemma_fudge_rolls_chain_snoc(
    pre: FudgeRolls,
    acts: Seq<Action>,
    mid: FudgeRolls,
    a: Action,
    post: FudgeRolls,
)
    requires
        fudge_rolls_chain(pre, acts, mid),
        !fudge_apply_fails(mid, a),
        fudge_apply_post(mid, a, post),
    ensures
        fudge_rolls_chain(pre, acts.push(a), post),
    decreases acts.len(),
{
    if acts.len() == 0 {
        assert(acts.push(a)[0] == a);
        assert(acts.push(a).skip(1) =~= Seq::<Action>::empty());
        assert(fudge_rolls_chain(post, acts.push(a).skip(1), post));
    } else {
        let m0 = choose|m0: FudgeRolls|
            #![auto]
            !fudge_apply_fails(pre, acts[0]) && fudge_apply_post(pre, acts[0], m0)
                && fudge_rolls_chain(m0, acts.skip(1), mid);
        lemma_fudge_rolls_chain_snoc(m0, acts.skip(1), mid, a, post);
        assert(acts.push(a)[0] == acts[0]);
        assert(acts.push(a).skip(1) =~= acts.skip(1).push(a));
        assert(!fudge_apply_fails(pre, acts.push(a)[0]) && fudge_apply_post(
            pre,
            acts.push(a)[0],
            m0,
        ) && fudge_rolls_chain(m0, acts.push(a).skip(1), post));
    }
}

/// A failure after a successful front chain is a failure of the whole list.
pub proof fn lemma_num_rolls_chain_fails_compose(
    pre: NumericRolls,
    front: Seq<Action>,
    mid: NumericRolls,
    rest: Seq<Action>,
)
    requires
        num_rolls_chain(pre, front, mid),
        num_rolls_chain_fails(mid, rest),
    ensures
        num_rolls_chain_fails(pre, front + rest),
    decreases front.len(),
{
    if front.len() == 0 {
        assert(front + rest =~= rest);
    } else {
        let m0 = choose|m0: NumericRolls|
            #![auto]
            !num_apply_fails(pre, front[0]) && num_apply_post(pre, front[0], m0)
                && num_rolls_chain(m0, front.skip(1), mid);
        lemma_num_rolls_chain_fails_compose(m0, front.skip(1), mid, rest);
        assert((front + rest)[0] == front[0]);
        assert((front + rest).skip(1) =~= front.skip(1) + rest);
        assert(num_apply_post(pre, (front + rest)[0], m0) && num_rolls_chain_fails(
            m0,
            (front + rest).skip(1),
        ));
    }
}

/// A failure after a successful front chain is a failure of the whole list.
pub proof fn lemma_fudge_rolls_chain_fails_compose(
    pre: FudgeRolls,
    front: Seq<Action>,
    mid: FudgeRolls,
    rest: Seq<Action>,
)
    requires
        fudge_rolls_chain(pre, front, mid),
        fudge_rolls_chain_fails(mid, rest),
    ensures
        fudge_rolls_chain_fails(pre, front + rest),
    decreases front.len(),
{
    if front.len() == 0 {
        assert(front + rest =~= rest);
    } else {
        let m0 = choose|m0: FudgeRolls|
            #![auto]
            !fudge_apply_fails(pre, front[0]) && fudge_apply_post(pre, front[0], m0)
                && fudge_rolls_chain(m0, front.skip(1), mid);
        lemma_fudge_rolls_chain_fails_compose(m0, front.skip(1), mid, rest);
        assert((front + rest)[0] == front[0]);
        assert((front + rest).skip(1) =~= front.skip(1) + rest);
        assert(fudge_apply_post(pre, (front + rest)[0], m0) && fudge_rolls_chain_fails(
            m0,
            (front + rest).skip(1),
        ));
    }
}

} // verus!
