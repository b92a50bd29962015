//! The notation parser: a request string is tokenized into dice
//! declarations, optionally grouped under an identifier with private
//! actions, global actions and an optional final aggregation, and the parsed
//! requests are rolled into sessions.
//!
//! The grammar, informally: a request is whitespace-separated tokens — one
//! or more dice tokens (`5D8`, `d20`, `+42`, `10F`) or groups
//! (`(FIRE 2D6 x2)`), then zero or more action tokens (`reroll(1,2)`,
//! `explode(6)`, `x3`, `flip`, `sum`, `total`, `keep-best(2)`,
//! `keep-worst(2)`, `reroll-best(1)`, `reroll-worst(1)`), then optionally the
//! aggregation `count` as the final token.

use crate::actions::{Action, Aggregation};
use crate::dice::{
    DiceBounds,
    DiceNumber, FudgeDice, FudgeRoll, FudgeRollRequest, NumericDice, NumericRoll,
    NumericRollRequest, RollRequest,
};
use crate::errors::{Error, ErrorKind};
use vstd::prelude::*;

verus! {

/// A decimal digit.
pub open spec fn is_digit(c: char) -> bool {
    '0' <= c && c <= '9'
}

/// The whitespace that separates tokens.
pub open spec fn is_space(c: char) -> bool {
    c == ' ' || c == '\t' || c == '\n' || c == '\r'
}

/// The numbered-dice marker inside a dice token.
pub open spec fn is_marker(c: char) -> bool {
    c == 'D' || c == 'd'
}

/// Whether every character of the sequence is a decimal digit.
pub open spec fn all_digits(cs: Seq<char>) -> bool {
    forall|i: int| 0 <= i < cs.len() ==> is_digit(#[trigger] cs[i])
}

/// The number a digit sequence denotes.
pub open spec fn digits_val(cs: Seq<char>) -> int
    decreases cs.len(),
{
    if cs.len() == 0 {
        0
    } else {
        digits_val(cs.drop_last()) * 10 + (cs.last() as int - 48)
    }
}

/// A digit sequence denotes a non-negative number.
pub proof fn lemma_digits_val_nonneg(cs: Seq<char>)
    requires
        all_digits(cs),
    ensures
        digits_val(cs) >= 0,
    decreases cs.len(),
{
    if cs.len() > 0 {
        assert(all_digits(cs.drop_last())) by {
            assert(forall|i: int| 0 <= i < cs.len() - 1 ==> cs.drop_last()[i] == cs[i]);
        }
        lemma_digits_val_nonneg(cs.drop_last());
        assert(is_digit(cs.last()));
    }
}

/// A digit prefix denotes no more than the full sequence.
pub proof fn lemma_digits_val_prefix(cs: Seq<char>, k: int)
    requires
        all_digits(cs),
        0 <= k <= cs.len(),
    ensures
        digits_val(cs.take(k)) <= digits_val(cs),
    decreases cs.len(),
{
    if cs.len() == 0 || k == cs.len() {
        assert(cs.take(k) =~= cs);
    } else {
        assert(all_digits(cs.drop_last())) by {
            assert(forall|i: int| 0 <= i < cs.len() - 1 ==> cs.drop_last()[i] == cs[i]);
        }
        assert(cs.drop_last().take(k) =~= cs.take(k));
        lemma_digits_val_prefix(cs.drop_last(), k);
        lemma_digits_val_nonneg(cs.drop_last());
        assert(is_digit(cs.last()));
        assert(digits_val(cs.drop_last()) * 10 >= digits_val(cs.drop_last())) by (nonlinear_arith)
            requires
                digits_val(cs.drop_last()) >= 0,
        ;
    }
}

/// Whether the characters `from..to` of `s` are all digits.
fn all_digits_range(s: &str, from: usize, to: usize) -> (b: bool)
    requires
        from <= to <= s@.len(),
    ensures
        b == all_digits(s@.subrange(from as int, to as int)),
{
    let mut i: usize = from;
    while i < to
        invariant
            from <= i <= to <= s@.len(),
            forall|j: int| from <= j < i ==> is_digit(#[trigger] s@[j]),
        decreases to - i,
    {
        let c = s.get_char(i);
        if !(c >= '0' && c <= '9') {
            proof {
                assert(!is_digit(s@.subrange(from as int, to as int)[i - from]));
            }
            return false;
        }
        i = i + 1;
    }
    proof {
        assert(forall|j: int|
            0 <= j < to - from ==> s@.subrange(from as int, to as int)[j] == s@[j + from]);
    }
    true
}

/// The number denoted by the digits `from..to` of `s`, or `None` when it
/// does not fit in a roll value.
fn digits_value(s: &str, from: usize, to: usize) -> (r: Option<u32>)
    requires
        from <= to <= s@.len(),
        all_digits(s@.subrange(from as int, to as int)),
    ensures
        r matches Some(v) ==> v as int == digits_val(s@.subrange(from as int, to as int)),
        r is None ==> digits_val(s@.subrange(from as int, to as int)) > u32::MAX,
{
    let ghost whole = s@.subrange(from as int, to as int);
    let mut acc: u64 = 0;
    let mut i: usize = from;
    while i < to
        invariant
            from <= i <= to <= s@.len(),
            all_digits(whole),
            whole == s@.subrange(from as int, to as int),
            acc <= u32::MAX,
            acc as int == digits_val(whole.take(i - from)),
        decreases to - i,
    {
        let c = s.get_char(i);
        proof {
            assert(whole[i - from] == s@[i as int]);
            assert(is_digit(whole[i - from]));
            assert(whole.take(i + 1 - from).drop_last() =~= whole.take(i - from));
            assert(whole.take(i + 1 - from).last() == whole[i - from]);
        }
        let d: u64 = (c as u32 - 48) as u64;
        acc = acc * 10 + d;
        if acc > 0xffff_ffffu64 {
            proof {
                lemma_digits_val_prefix(whole, i + 1 - from);
            }
            return None;
        }
        i = i + 1;
    }
    proof {
        assert(whole.take(whole.len() as int) =~= whole);
    }
    Some(acc as u32)
}

/// Whether two strings hold the same characters.
fn str_eq_chars(a: &str, b: &str) -> (r: bool)
    ensures
        r == (a@ == b@),
{
    let alen = a.unicode_len();
    let blen = b.unicode_len();
    if alen != blen {
        proof {
            assert(a@ != b@);
        }
        return false;
    }
    let mut i: usize = 0;
    while i < alen
        invariant
            i <= alen,
            alen == a@.len(),
            alen == b@.len(),
            forall|j: int| 0 <= j < i ==> a@[j] == b@[j],
        decreases alen - i,
    {
        if a.get_char(i) != b.get_char(i) {
            return false;
        }
        i = i + 1;
    }
    proof {
        assert(a@ =~= b@);
    }
    true
}

/// The position of the first numbered-dice marker in a sequence.
pub open spec fn first_marker(t: Seq<char>) -> int
    decreases t.len(),
{
    if t.len() == 0 {
        0
    } else if is_marker(t[0]) {
        0
    } else {
        1 + first_marker(t.skip(1))
    }
}

/// A structurally valid marker position is the first marker: everything
/// before it is a digit, and digits are not markers.
pub proof fn lemma_marker_ok_at_first(t: Seq<char>, i: int)
    requires
        marker_ok_at(t, i),
    ensures
        i == first_marker(t),
{
    assert(forall|j: int| 0 <= j < i ==> t.take(i)[j] == t[j]);
    assert(forall|j: int| 0 <= j < i ==> is_digit(#[trigger] t[j]));
    assert(forall|j: int| 0 <= j < i ==> !is_marker(#[trigger] t[j]));
    lemma_first_marker_at(t, i);
}

/// The first marker is exactly the earliest position holding a marker.
pub proof fn lemma_first_marker_at(t: Seq<char>, i: int)
    requires
        0 <= i < t.len(),
        is_marker(t[i]),
        forall|j: int| 0 <= j < i ==> !is_marker(#[trigger] t[j]),
    ensures
        first_marker(t) == i,
    decreases t.len(),
{
    if i > 0 {
        assert(!is_marker(t[0]));
        assert(t.skip(1)[i - 1] == t[i]);
        assert(forall|j: int| 0 <= j < i - 1 ==> t.skip(1)[j] == t[j + 1]);
        lemma_first_marker_at(t.skip(1), i - 1);
    }
}

/// The index of the first `D` or `d` of `s`, if any.
fn find_marker(s: &str) -> (r: Option<usize>)
    ensures
        r matches Some(i) ==> i as int == first_marker(s@) && i < s@.len() && is_marker(s@[i as int]),
        r is None ==> forall|j: int| 0 <= j < s@.len() ==> !is_marker(#[trigger] s@[j]),
{
    let n = s.unicode_len();
    let mut i: usize = 0;
    while i < n
        invariant
            i <= n,
            n == s@.len(),
            forall|j: int| 0 <= j < i ==> !is_marker(#[trigger] s@[j]),
        decreases n - i,
    {
        let c = s.get_char(i);
        if c == 'D' || c == 'd' {
            proof {
                lemma_first_marker_at(s@, i as int);
            }
            return Some(i);
        }
        i = i + 1;
    }
    None
}

/// A constant-dice token: `+` followed by the value.
pub open spec fn const_form(t: Seq<char>) -> bool {
    t.len() >= 1 && t[0] == '+'
}

/// A fudge-dice token: an optional digit count ending in `F`.
pub open spec fn fudge_form(t: Seq<char>) -> bool {
    !const_form(t) && t.len() >= 1 && t.last() == 'F' && all_digits(t.take(t.len() - 1))
}

/// A structurally valid numbered-dice shape at marker position `i`: digits
/// (possibly none) before the marker, at least one digit after it.
pub open spec fn marker_ok_at(t: Seq<char>, i: int) -> bool {
    &&& 0 <= i < t.len()
    &&& is_marker(t[i])
    &&& all_digits(t.take(i))
    &&& t.skip(i + 1).len() >= 1
    &&& all_digits(t.skip(i + 1))
}

/// A numbered-dice token: an optional digit count, `D` or `d`, and the
/// digit sides.
pub open spec fn numbered_form(t: Seq<char>) -> bool {
    !const_form(t) && !fudge_form(t) && exists|i: int| #[trigger] marker_ok_at(t, i)
}

/// Whether a token is shaped like one of the three dice tokens.
pub open spec fn dice_form(t: Seq<char>) -> bool {
    const_form(t) || fudge_form(t) || numbered_form(t)
}

/// A well-formed constant-dice token and the request it denotes.
pub open spec fn const_token_ok(t: Seq<char>) -> bool {
    const_form(t) && t.len() >= 2 && all_digits(t.skip(1)) && digits_val(t.skip(1)) <= u32::MAX
}

/// A well-formed fudge-dice token.
pub open spec fn fudge_token_ok(t: Seq<char>) -> bool {
    fudge_form(t) && (t.len() == 1 || (1 <= digits_val(t.take(t.len() - 1)) <= 255))
}

/// The roll count of a fudge-dice token (`F` alone means one roll).
pub open spec fn fudge_token_number(t: Seq<char>) -> int {
    if t.len() == 1 {
        1
    } else {
        digits_val(t.take(t.len() - 1))
    }
}

/// A well-formed numbered-dice token: the structural shape with the count
/// and sides in range.
pub open spec fn numbered_token_ok(t: Seq<char>) -> bool {
    let m = first_marker(t);
    &&& numbered_form(t)
    &&& (m == 0 || (1 <= digits_val(t.take(m)) <= 255))
    &&& 1 <= digits_val(t.skip(m + 1)) <= u32::MAX
}

/// The roll count of a numbered-dice token (a missing count means one roll).
pub open spec fn numbered_token_number(t: Seq<char>) -> int {
    if first_marker(t) == 0 {
        1
    } else {
        digits_val(t.take(first_marker(t)))
    }
}

/// The side count of a numbered-dice token.
pub open spec fn numbered_token_sides(t: Seq<char>) -> int {
    digits_val(t.skip(first_marker(t) + 1))
}

/// One parsed dice token, or the verdict that the token is not dice-shaped.
pub enum ParsedDice {
    Numeric(NumericRollRequest),
    Fudge(FudgeRollRequest),
    NotDice,
}

fn parse_dice_error(t: &str) -> (e: Error)
    ensures
        e.kind matches ErrorKind::ParseDice(_),
{
    let mut m = String::from_str("\"");
    m.append(t);
    m.append("\" does not parse to any known dice");
    Error::new(ErrorKind::ParseDice(m))
}

/// Reads one token as a dice declaration: `+N` is a constant dice, `NF` a
/// fudge dice, `NDS` (or `NdS`) a numbered dice. A token of none of these
/// shapes is reported as `NotDice`; a dice-shaped token with a malformed or
/// out-of-range number is a `ParseDice` error.
pub fn parse_dice(t: &str) -> (res: Result<ParsedDice, Error>)
    ensures
        res matches Ok(p) && p is NotDice <==> !dice_form(t@),
        const_form(t@) ==> (res matches Ok(p) && p matches ParsedDice::Numeric(rq) <==> const_token_ok(
            t@,
        )),
        const_form(t@) && const_token_ok(t@) ==> (res matches Ok(p) && p matches ParsedDice::Numeric(
            rq,
        ) && rq.number == 1 && rq.dice == NumericDice::ConstDice(
            digits_val(t@.skip(1)) as u32,
        ) && rq.id is None && rq.actions@.len() == 0),
        fudge_form(t@) ==> (res matches Ok(p) && p matches ParsedDice::Fudge(rq) <==> fudge_token_ok(
            t@,
        )),
        fudge_form(t@) && fudge_token_ok(t@) ==> (res matches Ok(p) && p
            matches ParsedDice::Fudge(rq) && rq.number as int == fudge_token_number(t@) && rq.dice
            == FudgeDice::FudgeDice && rq.id is None && rq.actions@.len() == 0),
        numbered_form(t@) ==> (res matches Ok(p) && p matches ParsedDice::Numeric(rq)
            <==> numbered_token_ok(t@)),
        numbered_form(t@) && numbered_token_ok(t@) ==> (res matches Ok(p) && p
            matches ParsedDice::Numeric(rq) && rq.number as int == numbered_token_number(t@)
            && rq.dice == NumericDice::NumberedDice(numbered_token_sides(t@) as u32) && rq.id
            is None && rq.actions@.len() == 0),
        res matches Ok(p) ==> (p matches ParsedDice::Numeric(rq) ==> rq.dice.rollable()
            && rq.actions@.len() == 0 && rq.id is None),
        res matches Ok(p) ==> (p matches ParsedDice::Fudge(rq) ==> rq.dice.rollable()
            && rq.actions@.len() == 0 && rq.id is None),
        res matches Ok(p) ==> (p matches ParsedDice::Numeric(rq) ==> dice_token_valid(t@)
            && numeric_dice_fields(t@, rq.number, rq.dice)),
        res matches Ok(p) ==> (p matches ParsedDice::Fudge(rq) ==> dice_token_valid(t@)
            && fudge_dice_fields(t@, rq.number, rq.dice)),
        res is Err ==> !dice_token_valid(t@),
        res is Ok && dice_form(t@) <==> dice_token_valid(t@),
        res matches Err(e) ==> e.kind matches ErrorKind::ParseDice(_),
{
    let n = t.unicode_len();
    if n == 0 {
        return Ok(ParsedDice::NotDice);
    }
    let first = t.get_char(0);
    let last = t.get_char(n - 1);
    if first == '+' {
        // Constant dice: `+` then the value.
        if n < 2 || !all_digits_range(t, 1, n) {
            proof {
                assert(t@.skip(1) =~= t@.subrange(1, n as int));
            }
            return Err(parse_dice_error(t));
        }
        proof {
            assert(t@.skip(1) =~= t@.subrange(1, n as int));
        }
        match digits_value(t, 1, n) {
            Some(v) => Ok(ParsedDice::Numeric(RollRequest::new(1, NumericDice::ConstDice(v)))),
            None => Err(parse_dice_error(t)),
        }
    } else if last == 'F' && all_digits_range(t, 0, n - 1) {
        // Fudge dice: an optional count then `F`.
        proof {
            assert(t@.take(t@.len() - 1) =~= t@.subrange(0, n - 1));
        }
        if n == 1 {
            return Ok(ParsedDice::Fudge(RollRequest::new(1, FudgeDice::FudgeDice)));
        }
        match digits_value(t, 0, n - 1) {
            Some(v) => {
                if v >= 1 && v <= 255 {
                    Ok(ParsedDice::Fudge(RollRequest::new(v as u8, FudgeDice::FudgeDice)))
                } else {
                    Err(parse_dice_error(t))
                }
            },
            None => Err(parse_dice_error(t)),
        }
    } else {
        proof {
            if t@.len() >= 1 && t@.last() == 'F' {
                assert(t@.take(t@.len() - 1) =~= t@.subrange(0, n - 1));
            }
        }
        match find_marker(t) {
            None => {
                proof {
                    assert(forall|i: int| !marker_ok_at(t@, i));
                }
                Ok(ParsedDice::NotDice)
            },
            Some(m) => {
                // Numbered dice: an optional count, the marker, the sides.
                proof {
                    assert(t@.take(m as int) =~= t@.subrange(0, m as int));
                    assert(t@.skip(m + 1) =~= t@.subrange(m + 1, n as int));
                }
                if !all_digits_range(t, 0, m) || m + 1 >= n || !all_digits_range(t, m + 1, n) {
                    proof {
                        assert(!marker_ok_at(t@, m as int));
                        assert(forall|i: int| !marker_ok_at(t@, i)) by {
                            assert forall|i: int| !marker_ok_at(t@, i) by {
                                if marker_ok_at(t@, i) {
                                    lemma_marker_ok_at_first(t@, i);
                                }
                            }
                        }
                    }
                    return Ok(ParsedDice::NotDice);
                }
                proof {
                    assert(marker_ok_at(t@, m as int));
                    assert(numbered_form(t@));
                }
                let number: u8 = if m == 0 {
                    1
                } else {
                    match digits_value(t, 0, m) {
                        Some(v) => {
                            if v >= 1 && v <= 255 {
                                v as u8
                            } else {
                                return Err(parse_dice_error(t));
                            }
                        },
                        None => {
                            return Err(parse_dice_error(t));
                        },
                    }
                };
                match digits_value(t, m + 1, n) {
                    Some(sides) => {
                        if sides >= 1 {
                            Ok(
                                ParsedDice::Numeric(
                                    RollRequest::new(number, NumericDice::NumberedDice(sides)),
                                ),
                            )
                        } else {
                            Err(parse_dice_error(t))
                        }
                    },
                    None => Err(parse_dice_error(t)),
                }
            },
        }
    }
}

/// The comma-separated segments of a character sequence (an empty sequence
/// is one empty segment).
pub open spec fn split_commas(cs: Seq<char>) -> Seq<Seq<char>>
    decreases cs.len(),
{
    if cs.len() == 0 {
        seq![Seq::<char>::empty()]
    } else if cs.last() == ',' {
        split_commas(cs.drop_last()).push(Seq::<char>::empty())
    } else {
        let r = split_commas(cs.drop_last());
        r.update(r.len() - 1, r.last().push(cs.last()))
    }
}

/// Splitting yields at least one segment.
pub proof fn lemma_split_commas_len(cs: Seq<char>)
    ensures
        split_commas(cs).len() >= 1,
    decreases cs.len(),
{
    if cs.len() > 0 {
        lemma_split_commas_len(cs.drop_last());
    }
}

/// A value-list segment that reads as a numeric roll value.
pub open spec fn seg_numeric_ok(t: Seq<char>) -> bool {
    t.len() >= 1 && all_digits(t) && digits_val(t) <= u32::MAX
}

/// A value-list segment that reads as a fudge roll value.
pub open spec fn seg_fudgeish(t: Seq<char>) -> bool {
    t == seq!['+'] || t == seq!['-'] || t == seq!['0']
}

/// The fudge roll a symbol segment denotes.
pub open spec fn fudge_of_seg(t: Seq<char>) -> FudgeRoll {
    if t == seq!['+'] {
        FudgeRoll::Plus
    } else if t == seq!['-'] {
        FudgeRoll::Minus
    } else {
        FudgeRoll::Blank
    }
}

/// All segments read as numeric roll values.
pub open spec fn list_numeric_ok(ss: Seq<Seq<char>>) -> bool {
    forall|i: int| 0 <= i < ss.len() ==> seg_numeric_ok(#[trigger] ss[i])
}

/// All segments read as fudge roll values.
pub open spec fn list_fudge_ok(ss: Seq<Seq<char>>) -> bool {
    forall|i: int| 0 <= i < ss.len() ==> seg_fudgeish(#[trigger] ss[i])
}

/// A parsed reroll or explode value list: numeric values or fudge symbols.
pub enum ValueList {
    Numeric(Vec<NumericRoll>),
    Fudge(Vec<FudgeRoll>),
}

/// Splits the characters `from..to` of `s` at commas into owned segments.
fn split_segments(s: &str, from: usize, to: usize) -> (segs: Vec<String>)
    requires
        from <= to <= s@.len(),
    ensures
        segs@.len() == split_commas(s@.subrange(from as int, to as int)).len(),
        forall|j: int|
            0 <= j < segs@.len() ==> (#[trigger] segs@[j])@ == split_commas(
                s@.subrange(from as int, to as int),
            )[j],
{
    let ghost cs = s@.subrange(from as int, to as int);
    let mut segs: Vec<String> = Vec::new();
    let mut current = String::new();
    let mut i: usize = from;
    while i < to
        invariant
            from <= i <= to <= s@.len(),
            cs == s@.subrange(from as int, to as int),
            segs@.len() == split_commas(cs.take(i - from)).len() - 1,
            forall|j: int|
                0 <= j < segs@.len() ==> (#[trigger] segs@[j])@ == split_commas(
                    cs.take(i - from),
                )[j],
            current@ == split_commas(cs.take(i - from)).last(),
        decreases to - i,
    {
        let c = s.get_char(i);
        proof {
            assert(cs[i - from] == s@[i as int]);
            assert(cs.take(i + 1 - from).drop_last() =~= cs.take(i - from));
            assert(cs.take(i + 1 - from).last() == cs[i - from]);
            lemma_split_commas_len(cs.take(i - from));
        }
        if c == ',' {
            segs.push(current);
            current = String::new();
        } else {
            current.push(c);
        }
        i = i + 1;
    }
    proof {
        assert(cs.take(cs.len() as int) =~= cs);
        lemma_split_commas_len(cs);
    }
    segs.push(current);
    segs
}

fn mixed_values_error() -> (e: Error)
    ensures
        e.kind matches ErrorKind::Parse(_),
{
    Error::parse(
        String::from_str("A value list must hold numeric values or fudge symbols, not a mix"),
    )
}

/// Reads the characters `from..to` of `s` as a comma-separated value list:
/// all numeric values, or all fudge symbols (`+`, `-`, `0`); `0` counts as
/// numeric unless a symbol makes the whole list fudge.
fn parse_value_list(s: &str, from: usize, to: usize) -> (res: Result<ValueList, Error>)
    requires
        from <= to <= s@.len(),
    ensures
        ({
            let ss = split_commas(s@.subrange(from as int, to as int));
            &&& (res is Ok <==> (list_numeric_ok(ss) || list_fudge_ok(ss)))
            &&& (res matches Ok(v) && v matches ValueList::Numeric(vs) <==> list_numeric_ok(ss))
            &&& (res matches Ok(v) ==> (v matches ValueList::Numeric(vs) ==> vs@.len()
                == ss.len() && (forall|i: int|
                0 <= i < ss.len() ==> (#[trigger] vs@[i]) as int == digits_val(ss[i]))))
            &&& (res matches Ok(v) && v matches ValueList::Fudge(vs) <==> (!list_numeric_ok(ss)
                && list_fudge_ok(ss)))
            &&& (res matches Ok(v) ==> (v matches ValueList::Fudge(vs) ==> vs@.len() == ss.len()
                && (forall|i: int| 0 <= i < ss.len() ==> #[trigger] vs@[i] == fudge_of_seg(
                ss[i]))))
            &&& (res matches Err(e) ==> e.kind matches ErrorKind::Parse(_))
        }),
{
    let ghost ss = split_commas(s@.subrange(from as int, to as int));
    let segs = split_segments(s, from, to);
    let mut all_numeric = true;
    let mut all_fudge = true;
    let mut num_vals: Vec<NumericRoll> = Vec::new();
    let mut fudge_vals: Vec<FudgeRoll> = Vec::new();
    let mut k: usize = 0;
    while k < segs.len()
        invariant
            k <= segs.len(),
            segs@.len() == ss.len(),
            forall|j: int| 0 <= j < segs@.len() ==> (#[trigger] segs@[j])@ == ss[j],
            all_numeric == (forall|j: int| 0 <= j < k ==> seg_numeric_ok(#[trigger] ss[j])),
            all_fudge == (forall|j: int| 0 <= j < k ==> seg_fudgeish(#[trigger] ss[j])),
            all_numeric ==> num_vals@.len() == k as int,
            all_numeric ==> (forall|j: int|
                0 <= j < k ==> (#[trigger] num_vals@[j]) as int == digits_val(ss[j])),
            all_fudge ==> fudge_vals@.len() == k as int,
            all_fudge ==> (forall|j: int|
                0 <= j < k ==> #[trigger] fudge_vals@[j] == fudge_of_seg(ss[j])),
        decreases segs.len() - k,
    {
        let seg = &segs[k];
        let seg_len = seg.unicode_len();
        proof {
            assert(ss[k as int] == seg@);
        }
        if all_numeric {
            let mut ok = false;
            if seg_len >= 1 && all_digits_range(seg.as_str(), 0, seg_len) {
                proof {
                    assert(seg@.subrange(0, seg@.len() as int) =~= seg@);
                }
                match digits_value(seg.as_str(), 0, seg_len) {
                    Some(v) => {
                        num_vals.push(v);
                        ok = true;
                    },
                    None => {},
                }
            } else {
                proof {
                    if seg@.len() >= 1 {
                        assert(seg@.subrange(0, seg@.len() as int) =~= seg@);
                    }
                }
            }
            if !ok {
                all_numeric = false;
            }
        }
        if all_fudge {
            let is_sym = if seg_len == 1 {
                let c = seg.as_str().get_char(0);
                c == '+' || c == '-' || c == '0'
            } else {
                false
            };
            if is_sym {
                let c = seg.as_str().get_char(0);
                let v = if c == '+' {
                    FudgeRoll::Plus
                } else if c == '-' {
                    FudgeRoll::Minus
                } else {
                    FudgeRoll::Blank
                };
                proof {
                    assert(seg@ =~= seq![seg@[0]]);
                }
                fudge_vals.push(v);
            } else {
                proof {
                    if seg@.len() == 1 {
                        assert(seg@ =~= seq![seg@[0]]);
                    } else {
                        assert(seq!['+'].len() == 1);
                        assert(seq!['-'].len() == 1);
                        assert(seq!['0'].len() == 1);
                    }
                }
                all_fudge = false;
            }
        }
        k = k + 1;
    }
    if all_numeric {
        Ok(ValueList::Numeric(num_vals))
    } else if all_fudge {
        Ok(ValueList::Fudge(fudge_vals))
    } else {
        Err(mixed_values_error())
    }
}

/// An uppercase letter.
pub open spec fn is_upper(c: char) -> bool {
    'A' <= c && c <= 'Z'
}

/// A character allowed inside an identifier after its first letter.
pub open spec fn is_id_char(c: char) -> bool {
    is_upper(c) || is_digit(c) || c == '_'
}

/// A valid group identifier: an uppercase letter followed by at least one
/// more uppercase letter, digit or underscore.
pub open spec fn valid_id(cs: Seq<char>) -> bool {
    cs.len() >= 2 && is_upper(cs[0]) && forall|i: int| 1 <= i < cs.len() ==> is_id_char(
        #[trigger] cs[i],
    )
}

/// Whether `s` is a valid group identifier.
fn check_id(s: &str) -> (b: bool)
    ensures
        b == valid_id(s@),
{
    let n = s.unicode_len();
    if n < 2 {
        return false;
    }
    let first = s.get_char(0);
    if !(first >= 'A' && first <= 'Z') {
        return false;
    }
    let mut i: usize = 1;
    while i < n
        invariant
            1 <= i <= n,
            n == s@.len(),
            forall|j: int| 1 <= j < i ==> is_id_char(#[trigger] s@[j]),
        decreases n - i,
    {
        let c = s.get_char(i);
        if !((c >= 'A' && c <= 'Z') || (c >= '0' && c <= '9') || c == '_') {
            return false;
        }
        i = i + 1;
    }
    true
}

/// A keyword-wrapped token: the prefix (keyword and opening parenthesis),
/// some inner text, and the closing parenthesis.
pub open spec fn wrapped_form(t: Seq<char>, p: Seq<char>) -> bool {
    t.len() > p.len() && t.take(p.len() as int) == p && t.last() == ')'
}

/// The inner text of a keyword-wrapped token.
pub open spec fn wrapped_inner(t: Seq<char>, p: Seq<char>) -> Seq<char> {
    t.subrange(p.len() as int, t.len() - 1)
}

/// Whether `t` is `p` followed by some text and a closing parenthesis.
fn has_wrapped(t: &str, p: &str) -> (b: bool)
    ensures
        b == wrapped_form(t@, p@),
{
    let n = t.unicode_len();
    let pl = p.unicode_len();
    if n <= pl {
        return false;
    }
    let mut i: usize = 0;
    while i < pl
        invariant
            i <= pl,
            pl < n,
            n == t@.len(),
            pl == p@.len(),
            forall|j: int| 0 <= j < i ==> t@[j] == p@[j],
        decreases pl - i,
    {
        if t.get_char(i) != p.get_char(i) {
            proof {
                assert(t@.take(p@.len() as int)[i as int] != p@[i as int]);
            }
            return false;
        }
        i = i + 1;
    }
    let b = t.get_char(n - 1) == ')';
    proof {
        assert(t@.take(p@.len() as int) =~= p@);
    }
    b
}

/// A multiplication token: `x` followed by the factor.
pub open spec fn mult_form(t: Seq<char>) -> bool {
    t.len() >= 1 && t[0] == 'x'
}

/// A well-formed multiplication token.
pub open spec fn mult_ok(t: Seq<char>) -> bool {
    mult_form(t) && t.len() >= 2 && all_digits(t.skip(1)) && digits_val(t.skip(1)) <= u32::MAX
}

/// A well-formed keep or reroll count parameter.
pub open spec fn count_param_ok(inner: Seq<char>) -> bool {
    inner.len() >= 1 && all_digits(inner) && digits_val(inner) <= 255
}

/// Either kind of well-formed value list.
pub open spec fn list_ok(ss: Seq<Seq<char>>) -> bool {
    list_numeric_ok(ss) || list_fudge_ok(ss)
}

/// A well-formed action token of any kind.
pub open spec fn action_token_ok(t: Seq<char>) -> bool {
    ||| t == "flip"@
    ||| t == "sum"@
    ||| t == "total"@
    ||| mult_ok(t)
    ||| (wrapped_form(t, "reroll("@) && list_ok(split_commas(wrapped_inner(t, "reroll("@))))
    ||| (wrapped_form(t, "explode("@) && list_ok(split_commas(wrapped_inner(t, "explode("@))))
    ||| (wrapped_form(t, "keep-best("@) && count_param_ok(wrapped_inner(t, "keep-best("@)))
    ||| (wrapped_form(t, "keep-worst("@) && count_param_ok(wrapped_inner(t, "keep-worst("@)))
    ||| (wrapped_form(t, "reroll-best("@) && count_param_ok(wrapped_inner(t, "reroll-best("@)))
    ||| (wrapped_form(t, "reroll-worst("@) && count_param_ok(wrapped_inner(t, "reroll-worst("@)))
}

/// A token whose first character differs from the prefix's first character
/// is not wrapped by that prefix.
proof fn lemma_not_wrapped_if_first(t: Seq<char>, p: Seq<char>, c: char)
    requires
        t.len() >= 1,
        p.len() >= 1,
        t[0] == c,
        p[0] != c,
    ensures
        !wrapped_form(t, p),
{
    if wrapped_form(t, p) {
        assert(t.take(p.len() as int)[0] == t[0]);
        assert(t.take(p.len() as int)[0] == p[0]);
    }
}

/// Two prefixes differing at some position cannot both wrap one token.
proof fn lemma_wrapped_distinct(t: Seq<char>, p: Seq<char>, q: Seq<char>, k: int)
    requires
        0 <= k < p.len(),
        k < q.len(),
        p[k] != q[k],
        wrapped_form(t, p),
    ensures
        !wrapped_form(t, q),
{
    if wrapped_form(t, q) {
        assert(t.take(p.len() as int)[k] == t[k]);
        assert(t.take(q.len() as int)[k] == t[k]);
    }
}

fn unknown_action_error(t: &str) -> (e: Error)
    ensures
        e.kind matches ErrorKind::Parse(_),
{
    let mut m = String::from_str("Unknown or malformed action \"");
    m.append(t);
    m.append("\"");
    Error::parse(m)
}

/// Reads the count parameter of a keep or reroll token, already known to be
/// of wrapped form for a prefix of length `plen`.
fn parse_count_param(t: &str, plen: usize) -> (res: Result<DiceNumber, Error>)
    requires
        plen < t@.len(),
    ensures
        res is Ok <==> count_param_ok(t@.subrange(plen as int, t@.len() - 1)),
        res matches Ok(v) ==> v as int == digits_val(t@.subrange(plen as int, t@.len() - 1)),
        res matches Err(e) ==> e.kind matches ErrorKind::Parse(_),
{
    let n = t.unicode_len();
    if n - 1 <= plen {
        return Err(unknown_action_error(t));
    }
    if !all_digits_range(t, plen, n - 1) {
        return Err(unknown_action_error(t));
    }
    match digits_value(t, plen, n - 1) {
        Some(v) => {
            if v <= 255 {
                Ok(v as u8)
            } else {
                Err(unknown_action_error(t))
            }
        },
        None => Err(unknown_action_error(t)),
    }
}

/// Reads one token as an action: `flip`, `sum`, `total`, `xN`,
/// `reroll(v,...)`, `explode(v,...)`, `keep-best(N)`, `keep-worst(N)`,
/// `reroll-best(N)` or `reroll-worst(N)`. Anything else is a parse error.
pub fn parse_action(t: &str) -> (res: Result<Action, Error>)
    ensures
        res is Ok <==> action_token_ok(t@),
        t@ == "flip"@ ==> res == Result::<Action, Error>::Ok(Action::FlipFlop),
        t@ == "sum"@ ==> res == Result::<Action, Error>::Ok(Action::Sum),
        t@ == "total"@ ==> res == Result::<Action, Error>::Ok(Action::Total),
        mult_ok(t@) ==> res == Result::<Action, Error>::Ok(Action::MultiplyBy(digits_val(t@.skip(1)) as u32)),
        wrapped_form(t@, "reroll("@) ==> ({
            let ss = split_commas(wrapped_inner(t@, "reroll("@));
            &&& (list_numeric_ok(ss) ==> (res matches Ok(a) && a matches Action::RerollNumeric(vs)
                && vs@.len() == ss.len() && (forall|i: int|
                0 <= i < ss.len() ==> (#[trigger] vs@[i]) as int == digits_val(ss[i]))))
            &&& (!list_numeric_ok(ss) && list_fudge_ok(ss) ==> (res matches Ok(a) && a
                matches Action::RerollFudge(vs) && vs@.len() == ss.len() && (forall|i: int|
                0 <= i < ss.len() ==> #[trigger] vs@[i] == fudge_of_seg(ss[i]))))
        }),
        wrapped_form(t@, "explode("@) ==> ({
            let ss = split_commas(wrapped_inner(t@, "explode("@));
            &&& (list_numeric_ok(ss) ==> (res matches Ok(a) && a matches Action::Explode(vs)
                && vs@.len() == ss.len() && (forall|i: int|
                0 <= i < ss.len() ==> (#[trigger] vs@[i]) as int == digits_val(ss[i]))))
            &&& (!list_numeric_ok(ss) && list_fudge_ok(ss) ==> (res matches Ok(a) && a
                matches Action::ExplodeFudge(vs) && vs@.len() == ss.len() && (forall|i: int|
                0 <= i < ss.len() ==> #[trigger] vs@[i] == fudge_of_seg(ss[i]))))
        }),
        wrapped_form(t@, "keep-best("@) && count_param_ok(wrapped_inner(t@, "keep-best("@))
            ==> res == Result::<Action, Error>::Ok(
            Action::KeepBest(digits_val(wrapped_inner(t@, "keep-best("@)) as u8),
        ),
        wrapped_form(t@, "keep-worst("@) && count_param_ok(wrapped_inner(t@, "keep-worst("@))
            ==> res == Result::<Action, Error>::Ok(
            Action::KeepWorst(digits_val(wrapped_inner(t@, "keep-worst("@)) as u8),
        ),
        wrapped_form(t@, "reroll-best("@) && count_param_ok(wrapped_inner(t@, "reroll-best("@))
            ==> res == Result::<Action, Error>::Ok(
            Action::RerollBest(digits_val(wrapped_inner(t@, "reroll-best("@)) as u8),
        ),
        wrapped_form(t@, "reroll-worst("@) && count_param_ok(wrapped_inner(t@, "reroll-worst("@))
            ==> res == Result::<Action, Error>::Ok(
            Action::RerollWorst(digits_val(wrapped_inner(t@, "reroll-worst("@)) as u8),
        ),
        res matches Ok(a) ==> action_denotes(t@, a),
        res matches Err(e) ==> e.kind matches ErrorKind::Parse(_),
{
    proof {
        reveal_strlit("flip");
        reveal_strlit("sum");
        reveal_strlit("total");
        reveal_strlit("reroll(");
        reveal_strlit("explode(");
        reveal_strlit("keep-best(");
        reveal_strlit("keep-worst(");
        reveal_strlit("reroll-best(");
        reveal_strlit("reroll-worst(");
    }
    if str_eq_chars(t, "flip") {
        return Ok(Action::FlipFlop);
    }
    if str_eq_chars(t, "sum") {
        return Ok(Action::Sum);
    }
    if str_eq_chars(t, "total") {
        return Ok(Action::Total);
    }
    let n = t.unicode_len();
    if n >= 1 && t.get_char(0) == 'x' {
        proof {
            lemma_not_wrapped_if_first(t@, "reroll("@, 'x');
            lemma_not_wrapped_if_first(t@, "explode("@, 'x');
            lemma_not_wrapped_if_first(t@, "keep-best("@, 'x');
            lemma_not_wrapped_if_first(t@, "keep-worst("@, 'x');
            lemma_not_wrapped_if_first(t@, "reroll-best("@, 'x');
            lemma_not_wrapped_if_first(t@, "reroll-worst("@, 'x');
        }
        if n < 2 || !all_digits_range(t, 1, n) {
            proof {
                assert(t@.skip(1) =~= t@.subrange(1, n as int));
            }
            return Err(unknown_action_error(t));
        }
        proof {
            assert(t@.skip(1) =~= t@.subrange(1, n as int));
        }
        return match digits_value(t, 1, n) {
            Some(v) => Ok(Action::MultiplyBy(v)),
            None => Err(unknown_action_error(t)),
        };
    }
    if has_wrapped(t, "reroll(") {
        let plen = "reroll(".unicode_len();
        proof {
            assert(wrapped_inner(t@, "reroll("@) =~= t@.subrange(plen as int, t@.len() - 1));
            assert(t@.take("reroll("@.len() as int)[0] == t@[0]);
            lemma_wrapped_distinct(t@, "reroll("@, "explode("@, 0);
            lemma_wrapped_distinct(t@, "reroll("@, "keep-best("@, 0);
            lemma_wrapped_distinct(t@, "reroll("@, "keep-worst("@, 0);
            lemma_wrapped_distinct(t@, "reroll("@, "reroll-best("@, 6);
            lemma_wrapped_distinct(t@, "reroll("@, "reroll-worst("@, 6);
        }
        return match parse_value_list(t, plen, n - 1) {
            Ok(ValueList::Numeric(vs)) => Ok(Action::RerollNumeric(vs)),
            Ok(ValueList::Fudge(vs)) => Ok(Action::RerollFudge(vs)),
            Err(e) => Err(e),
        };
    }
    if has_wrapped(t, "explode(") {
        let plen = "explode(".unicode_len();
        proof {
            assert(wrapped_inner(t@, "explode("@) =~= t@.subrange(plen as int, t@.len() - 1));
            assert(t@.take("explode("@.len() as int)[0] == t@[0]);
            lemma_wrapped_distinct(t@, "explode("@, "keep-best("@, 0);
            lemma_wrapped_distinct(t@, "explode("@, "keep-worst("@, 0);
            lemma_wrapped_distinct(t@, "explode("@, "reroll-best("@, 0);
            lemma_wrapped_distinct(t@, "explode("@, "reroll-worst("@, 0);
        }
        return match parse_value_list(t, plen, n - 1) {
            Ok(ValueList::Numeric(vs)) => Ok(Action::Explode(vs)),
            Ok(ValueList::Fudge(vs)) => Ok(Action::ExplodeFudge(vs)),
            Err(e) => Err(e),
        };
    }
    if has_wrapped(t, "keep-best(") {
        let plen = "keep-best(".unicode_len();
        proof {
            assert(wrapped_inner(t@, "keep-best("@) =~= t@.subrange(plen as int, t@.len() - 1));
            assert(t@.take("keep-best("@.len() as int)[0] == t@[0]);
            lemma_wrapped_distinct(t@, "keep-best("@, "keep-worst("@, 5);
            lemma_wrapped_distinct(t@, "keep-best("@, "reroll-best("@, 0);
            lemma_wrapped_distinct(t@, "keep-best("@, "reroll-worst("@, 0);
        }
        return match parse_count_param(t, plen) {
            Ok(v) => Ok(Action::KeepBest(v)),
            Err(e) => Err(e),
        };
    }
    if has_wrapped(t, "keep-worst(") {
        let plen = "keep-worst(".unicode_len();
        proof {
            assert(wrapped_inner(t@, "keep-worst("@) =~= t@.subrange(plen as int, t@.len() - 1));
            assert(t@.take("keep-worst("@.len() as int)[0] == t@[0]);
            lemma_wrapped_distinct(t@, "keep-worst("@, "reroll-best("@, 0);
            lemma_wrapped_distinct(t@, "keep-worst("@, "reroll-worst("@, 0);
        }
        return match parse_count_param(t, plen) {
            Ok(v) => Ok(Action::KeepWorst(v)),
            Err(e) => Err(e),
        };
    }
    if has_wrapped(t, "reroll-best(") {
        let plen = "reroll-best(".unicode_len();
        proof {
            assert(wrapped_inner(t@, "reroll-best("@) =~= t@.subrange(plen as int, t@.len() - 1));
            assert(t@.take("reroll-best("@.len() as int)[0] == t@[0]);
            lemma_wrapped_distinct(t@, "reroll-best("@, "reroll-worst("@, 7);
        }
        return match parse_count_param(t, plen) {
            Ok(v) => Ok(Action::RerollBest(v)),
            Err(e) => Err(e),
        };
    }
    if has_wrapped(t, "reroll-worst(") {
        let plen = "reroll-worst(".unicode_len();
        proof {
            assert(wrapped_inner(t@, "reroll-worst("@) =~= t@.subrange(plen as int, t@.len() - 1));
            assert(t@.take("reroll-worst("@.len() as int)[0] == t@[0]);
        }
        return match parse_count_param(t, plen) {
            Ok(v) => Ok(Action::RerollWorst(v)),
            Err(e) => Err(e),
        };
    }
    Err(unknown_action_error(t))
}

/// Whether a character separates tokens.
fn is_ws(c: char) -> (b: bool)
    ensures
        b == is_space(c),
{
    c == ' ' || c == '\t' || c == '\n' || c == '\r'
}

/// The whitespace-separated segments of a character sequence, empty runs
/// included.
pub open spec fn split_spaces(cs: Seq<char>) -> Seq<Seq<char>>
    decreases cs.len(),
{
    if cs.len() == 0 {
        seq![Seq::<char>::empty()]
    } else if is_space(cs.last()) {
        split_spaces(cs.drop_last()).push(Seq::<char>::empty())
    } else {
        let r = split_spaces(cs.drop_last());
        r.update(r.len() - 1, r.last().push(cs.last()))
    }
}

/// Splitting on whitespace yields at least one segment.
pub proof fn lemma_split_spaces_len(cs: Seq<char>)
    ensures
        split_spaces(cs).len() >= 1,
    decreases cs.len(),
{
    if cs.len() > 0 {
        lemma_split_spaces_len(cs.drop_last());
    }
}

/// The segments with the empty runs dropped.
pub open spec fn drop_empty(segs: Seq<Seq<char>>) -> Seq<Seq<char>>
    decreases segs.len(),
{
    if segs.len() == 0 {
        segs
    } else if segs.last().len() == 0 {
        drop_empty(segs.drop_last())
    } else {
        drop_empty(segs.drop_last()).push(segs.last())
    }
}

/// The words between the parentheses of a group token.
pub open spec fn group_words(t: Seq<char>) -> Seq<Seq<char>> {
    drop_empty(split_spaces(t.subrange(1, t.len() - 1)))
}

/// The outer shape of a group token: parentheses around some text.
pub open spec fn group_shape(t: Seq<char>) -> bool {
    t.len() >= 2 && t[0] == '(' && t.last() == ')'
}

/// A dice token of any of the three shapes, with its numbers in range.
pub open spec fn dice_token_valid(t: Seq<char>) -> bool {
    if const_form(t) {
        const_token_ok(t)
    } else if fudge_form(t) {
        fudge_token_ok(t)
    } else if numbered_form(t) {
        numbered_token_ok(t)
    } else {
        false
    }
}

/// A well-formed group token: an identifier, a valid dice token, and any
/// number of valid action tokens between the parentheses.
pub open spec fn group_ok(t: Seq<char>) -> bool {
    let ws = group_words(t);
    &&& group_shape(t)
    &&& ws.len() >= 2
    &&& valid_id(ws[0])
    &&& dice_token_valid(ws[1])
    &&& forall|k: int| 2 <= k < ws.len() ==> action_token_ok(#[trigger] ws[k])
}

/// The roll count and dice a numeric dice token denotes.
pub open spec fn numeric_dice_fields(t: Seq<char>, number: DiceNumber, dice: NumericDice) -> bool {
    if const_form(t) {
        const_token_ok(t) && number == 1 && dice == NumericDice::ConstDice(
            digits_val(t.skip(1)) as u32,
        )
    } else if numbered_form(t) {
        numbered_token_ok(t) && number as int == numbered_token_number(t) && dice
            == NumericDice::NumberedDice(numbered_token_sides(t) as u32)
    } else {
        false
    }
}

/// The roll count and dice a fudge dice token denotes.
pub open spec fn fudge_dice_fields(t: Seq<char>, number: DiceNumber, dice: FudgeDice) -> bool {
    fudge_form(t) && fudge_token_ok(t) && number as int == fudge_token_number(t) && dice
        == FudgeDice::FudgeDice
}

/// The action a valid action token denotes.
pub open spec fn action_denotes(t: Seq<char>, a: Action) -> bool {
    if t == "flip"@ {
        a == Action::FlipFlop
    } else if t == "sum"@ {
        a == Action::Sum
    } else if t == "total"@ {
        a == Action::Total
    } else if mult_form(t) {
        mult_ok(t) && a == Action::MultiplyBy(digits_val(t.skip(1)) as u32)
    } else if wrapped_form(t, "reroll("@) {
        let ss = split_commas(wrapped_inner(t, "reroll("@));
        if list_numeric_ok(ss) {
            a matches Action::RerollNumeric(vs) && vs@.len() == ss.len() && (forall|i: int|
                0 <= i < ss.len() ==> (#[trigger] vs@[i]) as int == digits_val(ss[i]))
        } else {
            list_fudge_ok(ss) && (a matches Action::RerollFudge(vs) && vs@.len() == ss.len() && (
            forall|i: int| 0 <= i < ss.len() ==> #[trigger] vs@[i] == fudge_of_seg(ss[i])))
        }
    } else if wrapped_form(t, "explode("@) {
        let ss = split_commas(wrapped_inner(t, "explode("@));
        if list_numeric_ok(ss) {
            a matches Action::Explode(vs) && vs@.len() == ss.len() && (forall|i: int|
                0 <= i < ss.len() ==> (#[trigger] vs@[i]) as int == digits_val(ss[i]))
        } else {
            list_fudge_ok(ss) && (a matches Action::ExplodeFudge(vs) && vs@.len() == ss.len() && (
            forall|i: int| 0 <= i < ss.len() ==> #[trigger] vs@[i] == fudge_of_seg(ss[i])))
        }
    } else if wrapped_form(t, "keep-best("@) {
        count_param_ok(wrapped_inner(t, "keep-best("@)) && a == Action::KeepBest(
            digits_val(wrapped_inner(t, "keep-best("@)) as u8,
        )
    } else if wrapped_form(t, "keep-worst("@) {
        count_param_ok(wrapped_inner(t, "keep-worst("@)) && a == Action::KeepWorst(
            digits_val(wrapped_inner(t, "keep-worst("@)) as u8,
        )
    } else if wrapped_form(t, "reroll-best("@) {
        count_param_ok(wrapped_inner(t, "reroll-best("@)) && a == Action::RerollBest(
            digits_val(wrapped_inner(t, "reroll-best("@)) as u8,
        )
    } else if wrapped_form(t, "reroll-worst("@) {
        count_param_ok(wrapped_inner(t, "reroll-worst("@)) && a == Action::RerollWorst(
            digits_val(wrapped_inner(t, "reroll-worst("@)) as u8,
        )
    } else {
        false
    }
}

/// The numeric request a group token denotes: the identifier, the dice
/// token's count and dice, and the group's own actions in order.
pub open spec fn group_numeric_denotes(t: Seq<char>, rq: NumericRollRequest) -> bool {
    let ws = group_words(t);
    &&& group_ok(t)
    &&& numeric_dice_fields(ws[1], rq.number, rq.dice)
    &&& (rq.id matches Some(name) && name@ == ws[0])
    &&& rq.actions@.len() == ws.len() - 2
    &&& forall|k: int|
        0 <= k < rq.actions@.len() ==> action_denotes(ws[k + 2], #[trigger] rq.actions@[k])
}

/// The fudge request a group token denotes.
pub open spec fn group_fudge_denotes(t: Seq<char>, rq: FudgeRollRequest) -> bool {
    let ws = group_words(t);
    &&& group_ok(t)
    &&& fudge_dice_fields(ws[1], rq.number, rq.dice)
    &&& (rq.id matches Some(name) && name@ == ws[0])
    &&& rq.actions@.len() == ws.len() - 2
    &&& forall|k: int|
        0 <= k < rq.actions@.len() ==> action_denotes(ws[k + 2], #[trigger] rq.actions@[k])
}

/// Splits the characters `from..to` of `s` into whitespace-separated words,
/// dropping empty runs.
fn split_words(s: &str, from: usize, to: usize) -> (words: Vec<String>)
    requires
        from <= to <= s@.len(),
    ensures
        words@.len() == drop_empty(split_spaces(s@.subrange(from as int, to as int))).len(),
        forall|j: int|
            0 <= j < words@.len() ==> (#[trigger] words@[j])@ == drop_empty(
                split_spaces(s@.subrange(from as int, to as int)),
            )[j],
{
    let ghost cs = s@.subrange(from as int, to as int);
    let mut words: Vec<String> = Vec::new();
    let mut current = String::new();
    let mut i: usize = from;
    proof {
        assert(cs.take(0) =~= Seq::<char>::empty());
    }
    while i < to
        invariant
            from <= i <= to <= s@.len(),
            cs == s@.subrange(from as int, to as int),
            current@ == split_spaces(cs.take(i - from)).last(),
            words@.len() == drop_empty(split_spaces(cs.take(i - from)).drop_last()).len(),
            forall|j: int|
                0 <= j < words@.len() ==> (#[trigger] words@[j])@ == drop_empty(
                    split_spaces(cs.take(i - from)).drop_last(),
                )[j],
        decreases to - i,
    {
        let c = s.get_char(i);
        proof {
            assert(cs[i - from] == s@[i as int]);
            assert(cs.take(i + 1 - from).drop_last() =~= cs.take(i - from));
            assert(cs.take(i + 1 - from).last() == cs[i - from]);
            lemma_split_spaces_len(cs.take(i - from));
        }
        if c == ' ' || c == '\t' || c == '\n' || c == '\r' {
            proof {
                let ghost prev = split_spaces(cs.take(i - from));
                assert(split_spaces(cs.take(i + 1 - from)) == prev.push(Seq::<char>::empty()));
                assert(prev.push(Seq::<char>::empty()).drop_last() =~= prev);
                assert(prev =~= prev.drop_last().push(prev.last()));
                assert(drop_empty(prev) == if current@.len() == 0 {
                    drop_empty(prev.drop_last())
                } else {
                    drop_empty(prev.drop_last()).push(current@)
                });
            }
            if current.unicode_len() > 0 {
                words.push(current);
                current = String::new();
            }
        } else {
            proof {
                let ghost prev = split_spaces(cs.take(i - from));
                assert(split_spaces(cs.take(i + 1 - from)) == prev.update(
                    prev.len() - 1,
                    prev.last().push(cs[i - from]),
                ));
                assert(split_spaces(cs.take(i + 1 - from)).drop_last() =~= prev.drop_last());
                assert(split_spaces(cs.take(i + 1 - from)).last() == prev.last().push(
                    cs[i - from],
                ));
            }
            current.push(c);
        }
        i = i + 1;
    }
    proof {
        assert(cs.take(cs.len() as int) =~= cs);
        lemma_split_spaces_len(cs);
        let ghost whole = split_spaces(cs);
        assert(whole =~= whole.drop_last().push(whole.last()));
        assert(drop_empty(whole) == if current@.len() == 0 {
            drop_empty(whole.drop_last())
        } else {
            drop_empty(whole.drop_last()).push(current@)
        });
    }
    if current.unicode_len() > 0 {
        words.push(current);
    }
    words
}

/// Reads a group token `(<ID> <dice> <action>*)`: an identifier, a dice
/// declaration and that dice's private actions, all between parentheses.
pub fn parse_group(t: &str) -> (res: Result<ParsedDice, Error>)
    ensures
        res is Ok <==> group_ok(t@),
        group_ok(t@) && !fudge_form(group_words(t@)[1]) ==> (res matches Ok(p) && p
            matches ParsedDice::Numeric(rq) && group_numeric_denotes(t@, rq)),
        group_ok(t@) && fudge_form(group_words(t@)[1]) ==> (res matches Ok(p) && p
            matches ParsedDice::Fudge(rq) && group_fudge_denotes(t@, rq)),
        res matches Ok(p) ==> !(p is NotDice),
        res matches Ok(p) ==> (p matches ParsedDice::Numeric(rq) ==> rq.dice.rollable() && (rq.id
            matches Some(name) && valid_id(name@))),
        res matches Ok(p) ==> (p matches ParsedDice::Fudge(rq) ==> rq.dice.rollable() && (rq.id
            matches Some(name) && valid_id(name@))),
        res matches Err(e) ==> (e.kind matches ErrorKind::Parse(_) || e.kind
            matches ErrorKind::ParseDice(_)),
{
    let n = t.unicode_len();
    if n < 2 || t.get_char(0) != '(' || t.get_char(n - 1) != ')' {
        return Err(Error::parse(String::from_str("A group must be enclosed in parentheses")));
    }
    let ghost gws = group_words(t@);
    let words = split_words(t, 1, n - 1);
    proof {
        assert(words@.len() == gws.len());
        assert(forall|j: int| 0 <= j < words@.len() ==> (#[trigger] words@[j])@ == gws[j]);
    }
    if words.len() < 2 {
        return Err(Error::parse(String::from_str("A group needs an identifier and a dice")));
    }
    if !check_id(words[0].as_str()) {
        let mut m = String::from_str("\"");
        m.append(words[0].as_str());
        m.append("\" is not a valid dice identifier");
        return Err(Error::parse(m));
    }
    let dice = match parse_dice(words[1].as_str()) {
        Ok(p) => p,
        Err(e) => {
            return Err(e);
        },
    };
    let mut actions: Vec<Action> = Vec::new();
    let mut k: usize = 2;
    while k < words.len()
        invariant
            2 <= k <= words@.len(),
            gws == group_words(t@),
            words@.len() == gws.len(),
            forall|j: int| 0 <= j < words@.len() ==> (#[trigger] words@[j])@ == gws[j],
            actions@.len() == k - 2,
            forall|k2: int|
                2 <= k2 < k ==> action_token_ok(#[trigger] gws[k2]) && action_denotes(
                    gws[k2],
                    actions@[k2 - 2],
                ),
        decreases words.len() - k,
    {
        match parse_action(words[k].as_str()) {
            Ok(a) => {
                let ghost before = actions@;
                actions.push(a);
                proof {
                    assert(words@[k as int]@ == gws[k as int]);
                    assert forall|k2: int|
                        2 <= k2 < k + 1 implies action_token_ok(#[trigger] gws[k2])
                        && action_denotes(gws[k2], actions@[k2 - 2]) by {
                        if k2 < k {
                            assert(actions@[k2 - 2] == before[k2 - 2]);
                            assert(action_token_ok(gws[k2]) && action_denotes(
                                gws[k2],
                                before[k2 - 2],
                            ));
                        } else {
                            assert(actions@[k2 - 2] == a);
                            assert(action_token_ok(words@[k as int]@));
                            assert(action_denotes(words@[k as int]@, a));
                        }
                    }
                }
            },
            Err(e) => {
                return Err(e);
            },
        }
        k = k + 1;
    }
    proof {
        assert(t@.last() == t@[n - 1]);
        assert(group_shape(t@));
        assert(valid_id(gws[0]));
        assert(words@[1]@ == gws[1]);
    }
    let id = words[0].clone();
    match dice {
        ParsedDice::Numeric(rq) => {
            let built = rq.add_actions(actions).add_id(Some(id));
            proof {
                assert(group_ok(t@));
                assert(built.actions@ =~= Seq::<Action>::empty() + built.actions@);
                assert(numeric_dice_fields(gws[1], built.number, built.dice));
                assert forall|j: int|
                    0 <= j < built.actions@.len() implies action_denotes(
                    gws[j + 2],
                    #[trigger] built.actions@[j],
                ) by {
                    assert(built.actions@ =~= rq.actions@ + actions@);
                    assert(built.actions@[j] == actions@[j]);
                    assert(action_token_ok(gws[j + 2]) && action_denotes(
                        gws[j + 2],
                        actions@[j + 2 - 2],
                    ));
                }
                assert(group_numeric_denotes(t@, built));
            }
            Ok(ParsedDice::Numeric(built))
        },
        ParsedDice::Fudge(rq) => {
            let built = rq.add_actions(actions).add_id(Some(id));
            proof {
                assert(group_ok(t@));
                assert(fudge_dice_fields(gws[1], built.number, built.dice));
                assert forall|j: int|
                    0 <= j < built.actions@.len() implies action_denotes(
                    gws[j + 2],
                    #[trigger] built.actions@[j],
                ) by {
                    assert(built.actions@ =~= rq.actions@ + actions@);
                    assert(built.actions@[j] == actions@[j]);
                    assert(action_token_ok(gws[j + 2]) && action_denotes(
                        gws[j + 2],
                        actions@[j + 2 - 2],
                    ));
                }
                assert(group_fudge_denotes(t@, built));
            }
            Ok(ParsedDice::Fudge(built))
        },
        ParsedDice::NotDice => Err(
            Error::parse(String::from_str("A group needs a dice after its identifier")),
        ),
    }
}

/// What a list of tokens in front of a scan result yields./// What a list of tokens in front of a scan result yields.
pub open spec fn opt_prepend(front: Seq<Seq<char>>, o: Option<Seq<Seq<char>>>) -> Option<
    Seq<Seq<char>>,
> {
    match o {
        Some(rest) => Some(front + rest),
        None => None,
    }
}

/// The tokens of a request string, or nothing when a group is left open or
/// its closing parenthesis is not followed by whitespace or the end.
/// Whitespace separates tokens; a token starting with `(` runs to the first
/// `)`, whitespace included.
pub open spec fn scan_tokens(cs: Seq<char>) -> Option<Seq<Seq<char>>>
    decreases cs.len(), 1int,
{
    if cs.len() == 0 {
        Some(Seq::empty())
    } else if is_space(cs[0]) {
        scan_tokens(cs.skip(1))
    } else if cs[0] == '(' {
        scan_group(cs.skip(1), seq!['('])
    } else {
        scan_word(cs, Seq::empty())
    }
}

/// Accumulates one plain token up to the next whitespace or the end.
pub open spec fn scan_word(cs: Seq<char>, acc: Seq<char>) -> Option<Seq<Seq<char>>>
    decreases cs.len(), 0int,
{
    if cs.len() == 0 {
        Some(seq![acc])
    } else if is_space(cs[0]) {
        opt_prepend(seq![acc], scan_tokens(cs.skip(1)))
    } else {
        scan_word(cs.skip(1), acc.push(cs[0]))
    }
}

/// Accumulates one group token up to its closing parenthesis.
pub open spec fn scan_group(cs: Seq<char>, acc: Seq<char>) -> Option<Seq<Seq<char>>>
    decreases cs.len(), 0int,
{
    if cs.len() == 0 {
        None
    } else if cs[0] == ')' {
        if cs.len() >= 2 && !is_space(cs[1]) {
            None
        } else {
            opt_prepend(seq![acc.push(')')], scan_tokens(cs.skip(1)))
        }
    } else {
        scan_group(cs.skip(1), acc.push(cs[0]))
    }
}

/// Splits a request string into top-level tokens: whitespace-separated
/// words, with a parenthesized group read as one token.
fn tokenize(s: &str) -> (res: Result<Vec<String>, Error>)
    ensures
        res is Ok <==> scan_tokens(s@) is Some,
        scan_tokens(s@) matches Some(toks) ==> (res matches Ok(chunks) && chunks@.len()
            == toks.len() && (forall|j: int|
            0 <= j < toks.len() ==> (#[trigger] chunks@[j])@ == toks[j])),
        res matches Err(e) ==> e.kind matches ErrorKind::Parse(_),
{
    let n = s.unicode_len();
    let mut chunks: Vec<String> = Vec::new();
    let ghost mut done = Seq::<Seq<char>>::empty();
    let mut i: usize = 0;
    proof {
        assert(s@.skip(0) =~= s@);
        assert(scan_tokens(s@) == opt_prepend(done, scan_tokens(s@.skip(0 as int)))) by {
            match scan_tokens(s@) {
                Some(toks) => {
                    assert(done + toks =~= toks);
                },
                None => {},
            }
        }
    }
    while i < n
        invariant
            i <= n,
            n == s@.len(),
            done.len() == chunks@.len(),
            forall|j: int| 0 <= j < done.len() ==> (#[trigger] chunks@[j])@ == done[j],
            scan_tokens(s@) == opt_prepend(done, scan_tokens(s@.skip(i as int))),
        decreases n - i,
    {
        let c = s.get_char(i);
        proof {
            assert(s@.skip(i as int)[0] == s@[i as int]);
            assert(s@.skip(i as int).skip(1) =~= s@.skip(i + 1));
        }
        if c == ' ' || c == '\t' || c == '\n' || c == '\r' {
            i = i + 1;
        } else if c == '(' {
            let mut chunk = String::new();
            chunk.push('(');
            i = i + 1;
            proof {
                assert(scan_tokens(s@) == opt_prepend(done, scan_group(s@.skip(i as int), chunk@)))
                    by {
                    assert(chunk@ =~= seq!['(']);
                }
            }
            let ghost start = i as int;
            while i < n && s.get_char(i) != ')'
                invariant
                    start <= i as int,
                    i <= n,
                    n == s@.len(),
                    done.len() == chunks@.len(),
                    forall|j: int| 0 <= j < done.len() ==> (#[trigger] chunks@[j])@ == done[j],
                    scan_tokens(s@) == opt_prepend(done, scan_group(s@.skip(i as int), chunk@)),
                decreases n - i,
            {
                proof {
                    assert(s@.skip(i as int)[0] == s@[i as int]);
                    assert(s@.skip(i as int).skip(1) =~= s@.skip(i + 1));
                }
                chunk.push(s.get_char(i));
                i = i + 1;
            }
            if i == n {
                proof {
                    assert(s@.skip(i as int) =~= Seq::<char>::empty());
                    assert(scan_tokens(s@) is None);
                }
                return Err(
                    Error::parse(String::from_str("A group is missing its closing parenthesis")),
                );
            }
            proof {
                assert(s@.skip(i as int)[0] == ')');
                assert(s@.skip(i as int).skip(1) =~= s@.skip(i + 1));
                if i + 1 < n {
                    assert(s@.skip(i as int)[1] == s@[i + 1]);
                }
            }
            let ghost at_close = s@.skip(i as int);
            chunk.push(')');
            i = i + 1;
            if i < n {
                let after = s.get_char(i);
                if !(after == ' ' || after == '\t' || after == '\n' || after == '\r') {
                    proof {
                        assert(scan_group(at_close, chunk@.drop_last()) is None);
                        assert(scan_tokens(s@) is None);
                    }
                    return Err(
                        Error::parse(
                            String::from_str("A group must be followed by whitespace or the end"),
                        ),
                    );
                }
            }
            proof {
                assert(scan_group(at_close, chunk@.drop_last()) == opt_prepend(
                    seq![chunk@],
                    scan_tokens(s@.skip(i as int)),
                )) by {
                    assert(chunk@.drop_last().push(')') =~= chunk@);
                }
                assert(scan_tokens(s@) == opt_prepend(
                    done.push(chunk@),
                    scan_tokens(s@.skip(i as int)),
                )) by {
                    match scan_tokens(s@.skip(i as int)) {
                        Some(rest) => {
                            assert(done + (seq![chunk@] + rest) =~= done.push(chunk@) + rest);
                        },
                        None => {},
                    }
                }
                done = done.push(chunk@);
            }
            chunks.push(chunk);
        } else {
            let mut chunk = String::new();
            chunk.push(c);
            proof {
                assert(chunk@ =~= Seq::<char>::empty().push(c));
                assert(scan_tokens(s@.skip(i as int)) == scan_word(
                    s@.skip(i as int),
                    Seq::<char>::empty(),
                ));
                assert(scan_word(s@.skip(i as int), Seq::<char>::empty()) == scan_word(
                    s@.skip(i as int).skip(1),
                    Seq::<char>::empty().push(s@.skip(i as int)[0]),
                ));
                assert(scan_tokens(s@) == opt_prepend(done, scan_word(s@.skip(i + 1), chunk@)));
            }
            i = i + 1;
            let ghost start = i as int;
            while i < n && !is_ws(s.get_char(i))
                invariant
                    start <= i as int,
                    i <= n,
                    n == s@.len(),
                    done.len() == chunks@.len(),
                    forall|j: int| 0 <= j < done.len() ==> (#[trigger] chunks@[j])@ == done[j],
                    scan_tokens(s@) == opt_prepend(done, scan_word(s@.skip(i as int), chunk@)),
                decreases n - i,
            {
                proof {
                    assert(s@.skip(i as int)[0] == s@[i as int]);
                    assert(s@.skip(i as int).skip(1) =~= s@.skip(i + 1));
                }
                chunk.push(s.get_char(i));
                i = i + 1;
            }
            proof {
                if i == n {
                    assert(s@.skip(i as int) =~= Seq::<char>::empty());
                    assert(scan_word(s@.skip(i as int), chunk@) == Some(seq![chunk@]));
                } else {
                    assert(s@.skip(i as int)[0] == s@[i as int]);
                    assert(s@.skip(i as int).skip(1) =~= s@.skip(i + 1));
                }
                assert(scan_tokens(s@) == opt_prepend(
                    done.push(chunk@),
                    scan_tokens(s@.skip(i as int)),
                )) by {
                    if i == n {
                        assert(scan_tokens(s@.skip(i as int)) == Some(Seq::<Seq<char>>::empty()));
                        assert(done + seq![chunk@] =~= done.push(chunk@) + Seq::<
                            Seq<char>,
                        >::empty());
                    } else {
                        match scan_tokens(s@.skip(i + 1)) {
                            Some(rest) => {
                                assert(done + (seq![chunk@] + rest) =~= done.push(chunk@) + rest);
                            },
                            None => {},
                        }
                    }
                }
                done = done.push(chunk@);
            }
            chunks.push(chunk);
        }
    }
    proof {
        assert(s@.skip(n as int) =~= Seq::<char>::empty());
        assert(scan_tokens(s@) == opt_prepend(done, Some(Seq::<Seq<char>>::empty())));
        assert(done + Seq::<Seq<char>>::empty() =~= done);
    }
    Ok(chunks)
}

/// A top-level token that opens a group.
pub open spec fn tok_is_group(t: Seq<char>) -> bool {
    t.len() >= 1 && t[0] == '('
}

/// A top-level token read as an action: not a group, not the aggregation,
/// not dice-shaped.
pub open spec fn tok_is_action(t: Seq<char>) -> bool {
    !tok_is_group(t) && t != "count"@ && !dice_form(t)
}

/// Whether a token contributes a numeric request.
pub open spec fn produces_numeric(t: Seq<char>) -> bool {
    if tok_is_group(t) {
        group_ok(t) && !fudge_form(group_words(t)[1])
    } else {
        t != "count"@ && (const_form(t) || numbered_form(t))
    }
}

/// Whether a token contributes a fudge request.
pub open spec fn produces_fudge(t: Seq<char>) -> bool {
    if tok_is_group(t) {
        group_ok(t) && fudge_form(group_words(t)[1])
    } else {
        t != "count"@ && fudge_form(t)
    }
}

/// Whether the token sequence matches the request grammar, left to right:
/// dice and group tokens first, then action tokens, with `count` allowed
/// only as the final token, and every token well-formed.
pub open spec fn toks_accepted(toks: Seq<Seq<char>>, seen_action: bool) -> bool
    decreases toks.len(),
{
    if toks.len() == 0 {
        true
    } else {
        let t = toks[0];
        if tok_is_group(t) {
            !seen_action && group_ok(t) && toks_accepted(toks.skip(1), seen_action)
        } else if t == "count"@ {
            toks.len() == 1
        } else if dice_form(t) {
            !seen_action && dice_token_valid(t) && toks_accepted(toks.skip(1), seen_action)
        } else {
            action_token_ok(t) && toks_accepted(toks.skip(1), true)
        }
    }
}

/// The tokens that contribute numeric requests, in order.
pub open spec fn numeric_toks(toks: Seq<Seq<char>>) -> Seq<Seq<char>>
    decreases toks.len(),
{
    if toks.len() == 0 {
        Seq::empty()
    } else {
        numeric_toks(toks.drop_last()) + if produces_numeric(toks.last()) {
            seq![toks.last()]
        } else {
            Seq::empty()
        }
    }
}

/// The tokens that contribute fudge requests, in order.
pub open spec fn fudge_toks(toks: Seq<Seq<char>>) -> Seq<Seq<char>>
    decreases toks.len(),
{
    if toks.len() == 0 {
        Seq::empty()
    } else {
        fudge_toks(toks.drop_last()) + if produces_fudge(toks.last()) {
            seq![toks.last()]
        } else {
            Seq::empty()
        }
    }
}

/// The tokens read as global actions, in order.
pub open spec fn action_toks(toks: Seq<Seq<char>>) -> Seq<Seq<char>>
    decreases toks.len(),
{
    if toks.len() == 0 {
        Seq::empty()
    } else {
        action_toks(toks.drop_last()) + if tok_is_action(toks.last()) {
            seq![toks.last()]
        } else {
            Seq::empty()
        }
    }
}

/// Whether the final token asks for the counting aggregation.
pub open spec fn has_count(toks: Seq<Seq<char>>) -> bool {
    toks.len() >= 1 && toks.last() == "count"@
}

/// The numeric request a top-level token denotes.
pub open spec fn numeric_tok_denotes(t: Seq<char>, rq: NumericRollRequest) -> bool {
    if tok_is_group(t) {
        group_numeric_denotes(t, rq)
    } else {
        rq.id is None && rq.actions@.len() == 0 && numeric_dice_fields(t, rq.number, rq.dice)
    }
}

/// The fudge request a top-level token denotes.
pub open spec fn fudge_tok_denotes(t: Seq<char>, rq: FudgeRollRequest) -> bool {
    if tok_is_group(t) {
        group_fudge_denotes(t, rq)
    } else {
        rq.id is None && rq.actions@.len() == 0 && fudge_dice_fields(t, rq.number, rq.dice)
    }
}

/// The token `count` is no group, no dice token, and no action.
pub proof fn lemma_count_token_class()
    ensures
        !tok_is_group("count"@),
        !dice_form("count"@),
        !tok_is_action("count"@),
        !produces_numeric("count"@),
        !produces_fudge("count"@),
{
    reveal_strlit("count");
    assert("count"@[0] == 'c');
    assert("count"@.last() == 't');
    assert(forall|i: int| 0 <= i < "count"@.len() ==> !is_marker(#[trigger] "count"@[i])) by {
        assert("count"@[0] == 'c' && "count"@[1] == 'o' && "count"@[2] == 'u' && "count"@[3] == 'n'
            && "count"@[4] == 't');
    }
    assert(!numbered_form("count"@)) by {
        if numbered_form("count"@) {
            let i = choose|i: int| #[trigger] marker_ok_at("count"@, i);
            assert(is_marker("count"@[i]));
        }
    }
}

/// The parser's output: the numeric and fudge requests, the global action
/// list, and the optional final aggregation.
pub struct ParsedRequest {
    pub numeric_requests: Vec<NumericRollRequest>,
    pub fudge_requests: Vec<FudgeRollRequest>,
    pub actions: Vec<Action>,
    pub aggregation: Option<Aggregation>,
}

/// The grammar-driven reader for roll request strings.
pub struct RequestParser;

impl RequestParser {
    /// Parses a full request string: dice tokens and groups first, then
    /// global actions, then optionally `count` as the final token. It
    /// succeeds exactly when the token sequence matches the grammar and
    /// holds at least one dice, and then returns exactly the requests,
    /// actions and aggregation marker the tokens denote.
    pub fn parse(s: &str) -> (res: Result<ParsedRequest, Error>)
        ensures
            res is Ok <==> (scan_tokens(s@) matches Some(toks) && toks_accepted(toks, false)
                && numeric_toks(toks).len() + fudge_toks(toks).len() >= 1),
            scan_tokens(s@) matches Some(toks) ==> ((toks_accepted(toks, false) && numeric_toks(
                toks,
            ).len() + fudge_toks(toks).len() >= 1) ==> (res matches Ok(p) && {
                &&& p.numeric_requests@.len() == numeric_toks(toks).len()
                &&& forall|i: int|
                    0 <= i < numeric_toks(toks).len() ==> numeric_tok_denotes(
                        #[trigger] numeric_toks(toks)[i],
                        p.numeric_requests@[i],
                    )
                &&& p.fudge_requests@.len() == fudge_toks(toks).len()
                &&& forall|i: int|
                    0 <= i < fudge_toks(toks).len() ==> fudge_tok_denotes(
                        #[trigger] fudge_toks(toks)[i],
                        p.fudge_requests@[i],
                    )
                &&& p.actions@.len() == action_toks(toks).len()
                &&& forall|i: int|
                    0 <= i < action_toks(toks).len() ==> action_denotes(
                        #[trigger] action_toks(toks)[i],
                        p.actions@[i],
                    )
                &&& (p.aggregation is Some <==> has_count(toks))
                &&& (p.aggregation matches Some(a) ==> a == Aggregation::CountValues)
            })),
            res matches Ok(p) ==> {
                &&& p.numeric_requests@.len() + p.fudge_requests@.len() >= 1
                &&& forall|i: int|
                    0 <= i < p.numeric_requests@.len() ==> (#[trigger] p.numeric_requests@[i]).dice.rollable()
                &&& forall|i: int|
                    0 <= i < p.fudge_requests@.len() ==> (#[trigger] p.fudge_requests@[i]).dice.rollable()
            },
            res matches Err(e) ==> (e.kind matches ErrorKind::Parse(_) || e.kind
                matches ErrorKind::ParseDice(_)),
    {
        let chunks = match tokenize(s) {
            Ok(c) => c,
            Err(e) => {
                return Err(e);
            },
        };
        let ghost toks = scan_tokens(s@).unwrap();
        proof {
            assert(scan_tokens(s@) is Some);
            assert(scan_tokens(s@) == Some(toks));
            lemma_count_token_class();
        }
        let mut numeric_requests: Vec<NumericRollRequest> = Vec::new();
        let mut fudge_requests: Vec<FudgeRollRequest> = Vec::new();
        let mut actions: Vec<Action> = Vec::new();
        let mut aggregation: Option<Aggregation> = None;
        let mut seen_action = false;
        let mut k: usize = 0;
        proof {
            assert(toks.take(0) =~= Seq::<Seq<char>>::empty());
            assert(toks.skip(0) =~= toks);
        }
        while k < chunks.len()
            invariant
                k <= chunks@.len(),
                scan_tokens(s@) == Some(toks),
                chunks@.len() == toks.len(),
                forall|j: int| 0 <= j < toks.len() ==> (#[trigger] chunks@[j])@ == toks[j],
                toks_accepted(toks, false) == (if aggregation is Some {
                    toks.len() == k as int
                } else {
                    toks_accepted(toks.skip(k as int), seen_action)
                }),
                aggregation is Some <==> (k >= 1 && toks[k - 1] == "count"@),
                aggregation matches Some(a) ==> a == Aggregation::CountValues,
                numeric_requests@.len() == numeric_toks(toks.take(k as int)).len(),
                forall|i: int|
                    0 <= i < numeric_requests@.len() ==> numeric_tok_denotes(
                        numeric_toks(toks.take(k as int))[i],
                        #[trigger] numeric_requests@[i],
                    ),
                fudge_requests@.len() == fudge_toks(toks.take(k as int)).len(),
                forall|i: int|
                    0 <= i < fudge_requests@.len() ==> fudge_tok_denotes(
                        fudge_toks(toks.take(k as int))[i],
                        #[trigger] fudge_requests@[i],
                    ),
                actions@.len() == action_toks(toks.take(k as int)).len(),
                forall|i: int|
                    0 <= i < actions@.len() ==> action_denotes(
                        action_toks(toks.take(k as int))[i],
                        #[trigger] actions@[i],
                    ),
                forall|i: int|
                    0 <= i < numeric_requests@.len() ==> (#[trigger] numeric_requests@[i]).dice.rollable(),
                forall|i: int|
                    0 <= i < fudge_requests@.len() ==> (#[trigger] fudge_requests@[i]).dice.rollable(),
            decreases chunks.len() - k,
        {
            let chunk = &chunks[k];
            let ghost tk = toks[k as int];
            proof {
                lemma_count_token_class();
                assert(chunk@ == tk);
                assert(toks.take(k + 1).drop_last() =~= toks.take(k as int));
                assert(toks.take(k + 1).last() == tk);
                assert(toks.skip(k as int)[0] == tk);
                assert(toks.skip(k as int).skip(1) =~= toks.skip(k + 1));
            }
            if aggregation.is_some() {
                return Err(
                    Error::parse(
                        String::from_str("The count aggregation must be the final token"),
                    ),
                );
            }
            let clen = chunk.unicode_len();
            if clen >= 1 && chunk.as_str().get_char(0) == '(' {
                if seen_action {
                    proof {
                        assert(tok_is_group(tk));
                        assert(!toks_accepted(toks.skip(k as int), seen_action));
                    }
                    return Err(
                        Error::parse(String::from_str("Dice tokens must precede action tokens")),
                    );
                }
                match parse_group(chunk.as_str()) {
                    Ok(ParsedDice::Numeric(rq)) => {
                        proof {
                            assert(produces_numeric(tk) && !produces_fudge(tk) && !tok_is_action(
                                tk,
                            ));
                            assert(numeric_toks(toks.take(k + 1)) =~= numeric_toks(
                                toks.take(k as int),
                            ).push(tk));
                            assert(fudge_toks(toks.take(k + 1)) =~= fudge_toks(
                                toks.take(k as int),
                            ));
                            assert(action_toks(toks.take(k + 1)) =~= action_toks(
                                toks.take(k as int),
                            ));
                            assert(tok_is_group(tk));
                            assert(tk != "count"@) by {
                                if tk == "count"@ {
                                    assert(tok_is_group("count"@));
                                }
                            }
                            assert(toks_accepted(toks.skip(k as int), seen_action)
                                == toks_accepted(toks.skip(k + 1), seen_action));
                        }
                        numeric_requests.push(rq);
                    },
                    Ok(ParsedDice::Fudge(rq)) => {
                        proof {
                            assert(produces_fudge(tk) && !produces_numeric(tk) && !tok_is_action(
                                tk,
                            ));
                            assert(fudge_toks(toks.take(k + 1)) =~= fudge_toks(
                                toks.take(k as int),
                            ).push(tk));
                            assert(numeric_toks(toks.take(k + 1)) =~= numeric_toks(
                                toks.take(k as int),
                            ));
                            assert(action_toks(toks.take(k + 1)) =~= action_toks(
                                toks.take(k as int),
                            ));
                            assert(tok_is_group(tk));
                            assert(tk != "count"@) by {
                                if tk == "count"@ {
                                    assert(tok_is_group("count"@));
                                }
                            }
                            assert(toks_accepted(toks.skip(k as int), seen_action)
                                == toks_accepted(toks.skip(k + 1), seen_action));
                        }
                        fudge_requests.push(rq);
                    },
                    Ok(ParsedDice::NotDice) => {
                        proof {
                            assert(false);
                        }
                    },
                    Err(e) => {
                        proof {
                            assert(tok_is_group(tk));
                            assert(!group_ok(tk));
                            assert(!toks_accepted(toks.skip(k as int), seen_action));
                        }
                        return Err(e);
                    },
                }
            } else if str_eq_chars(chunk.as_str(), "count") {
                proof {
                    assert(!produces_numeric(tk) && !produces_fudge(tk) && !tok_is_action(tk));
                    assert(numeric_toks(toks.take(k + 1)) =~= numeric_toks(toks.take(k as int)));
                    assert(fudge_toks(toks.take(k + 1)) =~= fudge_toks(toks.take(k as int)));
                    assert(action_toks(toks.take(k + 1)) =~= action_toks(toks.take(k as int)));
                    assert(toks_accepted(toks.skip(k as int), seen_action) == (toks.skip(
                        k as int,
                    ).len() == 1));
                }
                aggregation = Some(Aggregation::CountValues);
            } else {
                match parse_dice(chunk.as_str()) {
                    Ok(ParsedDice::Numeric(rq)) => {
                        if seen_action {
                            proof {
                                assert(!tok_is_group(tk) && tk != "count"@ && dice_form(tk));
                                assert(!toks_accepted(toks.skip(k as int), seen_action));
                            }
                            return Err(
                                Error::parse(
                                    String::from_str("Dice tokens must precede action tokens"),
                                ),
                            );
                        }
                        proof {
                            assert(!tok_is_group(tk) && tk != "count"@ && dice_form(tk)
                                && dice_token_valid(tk));
                            assert(produces_numeric(tk) && !produces_fudge(tk) && !tok_is_action(
                                tk,
                            ));
                            assert(numeric_toks(toks.take(k + 1)) =~= numeric_toks(
                                toks.take(k as int),
                            ).push(tk));
                            assert(fudge_toks(toks.take(k + 1)) =~= fudge_toks(
                                toks.take(k as int),
                            ));
                            assert(action_toks(toks.take(k + 1)) =~= action_toks(
                                toks.take(k as int),
                            ));
                            assert(toks_accepted(toks.skip(k as int), seen_action)
                                == toks_accepted(toks.skip(k + 1), seen_action));
                        }
                        numeric_requests.push(rq);
                    },
                    Ok(ParsedDice::Fudge(rq)) => {
                        if seen_action {
                            proof {
                                assert(!tok_is_group(tk) && tk != "count"@ && dice_form(tk));
                                assert(!toks_accepted(toks.skip(k as int), seen_action));
                            }
                            return Err(
                                Error::parse(
                                    String::from_str("Dice tokens must precede action tokens"),
                                ),
                            );
                        }
                        proof {
                            assert(!tok_is_group(tk) && tk != "count"@ && dice_form(tk)
                                && dice_token_valid(tk));
                            assert(produces_fudge(tk) && !produces_numeric(tk) && !tok_is_action(
                                tk,
                            ));
                            assert(fudge_toks(toks.take(k + 1)) =~= fudge_toks(
                                toks.take(k as int),
                            ).push(tk));
                            assert(numeric_toks(toks.take(k + 1)) =~= numeric_toks(
                                toks.take(k as int),
                            ));
                            assert(action_toks(toks.take(k + 1)) =~= action_toks(
                                toks.take(k as int),
                            ));
                            assert(toks_accepted(toks.skip(k as int), seen_action)
                                == toks_accepted(toks.skip(k + 1), seen_action));
                        }
                        fudge_requests.push(rq);
                    },
                    Ok(ParsedDice::NotDice) => {
                        match parse_action(chunk.as_str()) {
                            Ok(a) => {
                                proof {
                                    assert(!tok_is_group(tk) && tk != "count"@ && !dice_form(tk));
                                    assert(tok_is_action(tk) && !produces_numeric(tk)
                                        && !produces_fudge(tk));
                                    assert(action_token_ok(tk));
                                    assert(action_toks(toks.take(k + 1)) =~= action_toks(
                                        toks.take(k as int),
                                    ).push(tk));
                                    assert(numeric_toks(toks.take(k + 1)) =~= numeric_toks(
                                        toks.take(k as int),
                                    ));
                                    assert(fudge_toks(toks.take(k + 1)) =~= fudge_toks(
                                        toks.take(k as int),
                                    ));
                                    assert(toks_accepted(toks.skip(k as int), seen_action)
                                        == toks_accepted(toks.skip(k + 1), true));
                                }
                                seen_action = true;
                                actions.push(a);
                            },
                            Err(e) => {
                                proof {
                                    assert(!tok_is_group(tk) && tk != "count"@ && !dice_form(tk));
                                    assert(!action_token_ok(tk));
                                    assert(!toks_accepted(toks.skip(k as int), seen_action));
                                }
                                return Err(e);
                            },
                        }
                    },
                    Err(e) => {
                        proof {
                            assert(!tok_is_group(tk) && tk != "count"@ && dice_form(tk));
                            assert(!dice_token_valid(tk));
                            assert(!toks_accepted(toks.skip(k as int), seen_action));
                        }
                        return Err(e);
                    },
                }
            }
            k = k + 1;
        }
        proof {
            assert(toks.take(toks.len() as int) =~= toks);
            if aggregation.is_some() {
                assert(toks.len() >= 1 && toks.last() == "count"@);
            } else {
                assert(toks.skip(toks.len() as int) =~= Seq::<Seq<char>>::empty());
                if has_count(toks) {
                    assert(toks[toks.len() - 1] == "count"@);
                    assert(false);
                }
            }
        }
        if numeric_requests.len() == 0 && fudge_requests.len() == 0 {
            return Err(Error::parse(String::from_str("A request needs at least one dice")));
        }
        Ok(ParsedRequest { numeric_requests, fudge_requests, actions, aggregation })
    }
}


/// Every numeric-contributing token is one of the tokens.
pub proof fn lemma_numeric_toks_membership(toks: Seq<Seq<char>>, i: int)
    requires
        0 <= i < numeric_toks(toks).len(),
    ensures
        toks.contains(numeric_toks(toks)[i]),
    decreases toks.len(),
{
    if toks.len() > 0 {
        let pre = numeric_toks(toks.drop_last());
        if i < pre.len() {
            lemma_numeric_toks_membership(toks.drop_last(), i);
            let w = choose|w: int|
                0 <= w < toks.drop_last().len() && toks.drop_last()[w] == pre[i];
            assert(toks[w] == numeric_toks(toks)[i]);
        } else {
            assert(numeric_toks(toks)[i] == toks.last());
            assert(toks[toks.len() - 1] == toks.last());
        }
    }
}

/// Every fudge-contributing token is one of the tokens.
pub proof fn lemma_fudge_toks_membership(toks: Seq<Seq<char>>, i: int)
    requires
        0 <= i < fudge_toks(toks).len(),
    ensures
        toks.contains(fudge_toks(toks)[i]),
    decreases toks.len(),
{
    if toks.len() > 0 {
        let pre = fudge_toks(toks.drop_last());
        if i < pre.len() {
            lemma_fudge_toks_membership(toks.drop_last(), i);
            let w = choose|w: int|
                0 <= w < toks.drop_last().len() && toks.drop_last()[w] == pre[i];
            assert(toks[w] == fudge_toks(toks)[i]);
        } else {
            assert(fudge_toks(toks)[i] == toks.last());
            assert(toks[toks.len() - 1] == toks.last());
        }
    }
}


/// What a numeric session's rolls are after the whole pipeline: some
/// initial roll of each request (with that request's own actions applied),
/// then the global actions denoted by the action tokens, in order.
pub open spec fn numeric_session_pipeline(
    reqs: Seq<NumericRollRequest>,
    atoks: Seq<Seq<char>>,
    rolls: Seq<crate::dice::NumericRolls>,
) -> bool {
    exists|mid: Seq<crate::dice::NumericRolls>, acts: Seq<Action>|
        #![auto]
        {
            &&& mid.len() == reqs.len()
            &&& forall|i: int|
                0 <= i < reqs.len() ==> crate::dice::num_request_roll_post(reqs[i], mid[i])
            &&& acts.len() == atoks.len()
            &&& forall|i: int| 0 <= i < acts.len() ==> action_denotes(atoks[i], acts[i])
            &&& crate::num_session_chain(mid, acts, rolls)
        }
}

/// What a fudge session's rolls are after the whole pipeline.
pub open spec fn fudge_session_pipeline(
    reqs: Seq<FudgeRollRequest>,
    atoks: Seq<Seq<char>>,
    rolls: Seq<crate::dice::FudgeRolls>,
) -> bool {
    exists|mid: Seq<crate::dice::FudgeRolls>, acts: Seq<Action>|
        #![auto]
        {
            &&& mid.len() == reqs.len()
            &&& forall|i: int|
                0 <= i < reqs.len() ==> crate::dice::fudge_request_roll_post(reqs[i], mid[i])
            &&& acts.len() == atoks.len()
            &&& forall|i: int| 0 <= i < acts.len() ==> action_denotes(atoks[i], acts[i])
            &&& crate::fudge_session_chain(mid, acts, rolls)
        }
}

/// Whether a request string matches the grammar and holds at least one dice.
pub open spec fn request_grammar_ok(s: Seq<char>) -> bool {
    scan_tokens(s) matches Some(toks) && toks_accepted(toks, false) && numeric_toks(toks).len()
        + fudge_toks(toks).len() >= 1
}

/// A dice denoted by a valid numeric dice token can be rolled.
pub proof fn lemma_numeric_fields_rollable(t: Seq<char>, number: DiceNumber, dice: NumericDice)
    requires
        numeric_dice_fields(t, number, dice),
    ensures
        dice.rollable(),
{
}

/// A dice denoted by a valid fudge dice token can be rolled.
pub proof fn lemma_fudge_fields_rollable(t: Seq<char>, number: DiceNumber, dice: FudgeDice)
    requires
        fudge_dice_fields(t, number, dice),
    ensures
        dice.rollable(),
{
}

fn too_many_to_count_error() -> (e: Error)
    ensures
        e.kind matches ErrorKind::BadActionParameter(_),
{
    Error::new(
        ErrorKind::BadActionParameter(
            String::from_str("Too many roll values to count the occurrences of"),
        ),
    )
}

/// Try to parse a roll request from an input string.
/// Roll sessions are created for each type of dice present (numeric and
/// fudge dice don't mix within one session).
///
/// # Arguments
/// * `s` Input string
/// * `default_total` If set to `true`, in the absence of a parsed
///   aggregation and of any global action, the `Total` action is applied to
///   numeric rolls. This allows users not to have to spell out the total
///   each time they do a classic roll.
pub fn parse_request(s: &str, default_total: bool) -> (res: Result<
    crate::MultiTypeSession,
    Error,
>)
    ensures
        res matches Ok(m) ==> (m.numeric_session is Some || m.fudge_session is Some),
        res is Ok ==> request_grammar_ok(s@),
        !request_grammar_ok(s@) ==> (res matches Err(e) && (e.kind matches ErrorKind::Parse(_)
            || e.kind matches ErrorKind::ParseDice(_))),
        res matches Err(e) ==> (request_grammar_ok(s@) ==> (e.kind matches ErrorKind::BadDice(_)
            || e.kind matches ErrorKind::IncompatibleAction(_) || e.kind
            matches ErrorKind::BadActionParameter(_))),
        scan_tokens(s@) matches Some(toks) ==> (res matches Ok(m) ==> {
            &&& (has_count(toks) ==> m.numeric_session is Some && m.fudge_session is None)
            &&& (!has_count(toks) ==> (m.numeric_session is Some <==> numeric_toks(toks).len()
                >= 1))
            &&& (!has_count(toks) ==> (m.fudge_session is Some <==> fudge_toks(toks).len() >= 1))
            &&& (!has_count(toks) ==> (m.numeric_session matches Some(ns) ==> ns.requests@.len()
                == numeric_toks(toks).len() && (forall|i: int|
                0 <= i < numeric_toks(toks).len() ==> numeric_tok_denotes(
                    #[trigger] numeric_toks(toks)[i],
                    ns.requests@[i],
                ))))
            &&& (!has_count(toks) ==> (m.fudge_session matches Some(fs) ==> fs.requests@.len()
                == fudge_toks(toks).len() && (forall|i: int|
                0 <= i < fudge_toks(toks).len() ==> fudge_tok_denotes(
                    #[trigger] fudge_toks(toks)[i],
                    fs.requests@[i],
                ))))
            &&& (!has_count(toks) && action_toks(toks).len() == 0 && !default_total ==> (
            m.numeric_session matches Some(ns) ==> ns.rolls@.len() == ns.requests@.len() && (
            forall|i: int|
                0 <= i < ns.requests@.len() ==> crate::dice::num_request_roll_post(
                    ns.requests@[i],
                    #[trigger] ns.rolls@[i],
                ))))
            &&& (!has_count(toks) && action_toks(toks).len() == 0 && !default_total ==> (
            m.fudge_session matches Some(fs) ==> fs.rolls@.len() == fs.requests@.len() && (
            forall|i: int|
                0 <= i < fs.requests@.len() ==> crate::dice::fudge_request_roll_post(
                    fs.requests@[i],
                    #[trigger] fs.rolls@[i],
                ))))
            &&& (!has_count(toks) && action_toks(toks).len() == 0 && default_total && numeric_toks(
                toks,
            ).len() >= 1 ==> (m.numeric_session matches Some(ns) ==> ns.rolls@.len() == 1
                && ns.rolls@[0].dice == NumericDice::AggregationResult && ns.rolls@[0].rolls@.len()
                == 1))
            &&& (!has_count(toks) && (!default_total || action_toks(toks).len() >= 1) ==> (
            m.numeric_session matches Some(ns) ==> numeric_session_pipeline(
                ns.requests@,
                action_toks(toks),
                ns.rolls@,
            )))
            &&& (!has_count(toks) && (!default_total || action_toks(toks).len() >= 1) ==> (
            m.fudge_session matches Some(fs) ==> fudge_session_pipeline(
                fs.requests@,
                action_toks(toks),
                fs.rolls@,
            )))
        }),
        scan_tokens(s@) matches Some(toks) ==> ((toks_accepted(toks, false) && numeric_toks(
            toks,
        ).len() + fudge_toks(toks).len() >= 1 && (forall|j: int|
            0 <= j < toks.len() ==> !tok_is_group(#[trigger] toks[j])) && action_toks(toks).len()
            == 0 && !has_count(toks) && !default_total) ==> res is Ok),
{
    let ghost grammar_ok = request_grammar_ok(s@);
    let parsed = match RequestParser::parse(s) {
        Ok(p) => p,
        Err(e) => {
            return Err(e);
        },
    };
    let ghost toks = scan_tokens(s@).unwrap();
    proof {
        assert(scan_tokens(s@) == Some(toks));
    }
    let ghost plain_case = toks_accepted(toks, false) && numeric_toks(toks).len() + fudge_toks(
        toks,
    ).len() >= 1 && (forall|j: int| 0 <= j < toks.len() ==> !tok_is_group(#[trigger] toks[j]))
        && action_toks(toks).len() == 0 && !has_count(toks) && !default_total;
    proof {
        if plain_case {
            assert forall|i: int|
                0 <= i < parsed.numeric_requests@.len() implies !crate::dice::num_request_roll_fails(
                #[trigger] parsed.numeric_requests@[i],
            ) by {
                let rq = parsed.numeric_requests@[i];
                assert(numeric_tok_denotes(numeric_toks(toks)[i], rq));
                assert(!tok_is_group(numeric_toks(toks)[i])) by {
                    lemma_numeric_toks_membership(toks, i);
                    let w = choose|w: int|
                        0 <= w < toks.len() && toks[w] == numeric_toks(toks)[i];
                    assert(!tok_is_group(toks[w]));
                }
                lemma_numeric_fields_rollable(numeric_toks(toks)[i], rq.number, rq.dice);
                if crate::dice::num_request_roll_fails(rq) {
                    let initial = choose|initial: crate::dice::NumericRolls|
                        #![auto]
                        crate::dice::num_initial_roll(rq, initial)
                            && crate::actions::num_rolls_chain_fails(initial, rq.actions@);
                    assert(!crate::actions::num_rolls_chain_fails(initial, rq.actions@));
                }
            }
            assert forall|i: int|
                0 <= i < parsed.fudge_requests@.len() implies !crate::dice::fudge_request_roll_fails(
                #[trigger] parsed.fudge_requests@[i],
            ) by {
                let rq = parsed.fudge_requests@[i];
                assert(fudge_tok_denotes(fudge_toks(toks)[i], rq));
                assert(!tok_is_group(fudge_toks(toks)[i])) by {
                    lemma_fudge_toks_membership(toks, i);
                    let w = choose|w: int|
                        0 <= w < toks.len() && toks[w] == fudge_toks(toks)[i];
                    assert(!tok_is_group(toks[w]));
                }
                lemma_fudge_fields_rollable(fudge_toks(toks)[i], rq.number, rq.dice);
                if crate::dice::fudge_request_roll_fails(rq) {
                    let initial = choose|initial: crate::dice::FudgeRolls|
                        #![auto]
                        crate::dice::fudge_initial_roll(rq, initial)
                            && crate::actions::fudge_rolls_chain_fails(initial, rq.actions@);
                    assert(!crate::actions::fudge_rolls_chain_fails(initial, rq.actions@));
                }
            }
        }
    }
    let mut result = crate::MultiTypeSession { numeric_session: None, fudge_session: None };
    let has_numeric = parsed.numeric_requests.len() > 0;
    let has_fudge = parsed.fudge_requests.len() > 0;
    if has_numeric {
        let mut session = match crate::NumericSession::build_with_actions(
            parsed.numeric_requests,
        ) {
            Ok(session) => session,
            Err(e) => {
                proof {
                    if plain_case {
                        assert(false);
                    }
                }
                return Err(e);
            },
        };
        let ghost built_rolls = session.rolls@;
        match crate::TransformableSession::add_actions(&mut session, &parsed.actions) {
            Ok(()) => {},
            Err(e) => {
                proof {
                    if plain_case {
                        assert(false);
                    }
                }
                return Err(e);
            },
        }
        proof {
            assert(crate::num_session_chain(built_rolls, parsed.actions@, session.rolls@));
        }
        match &parsed.aggregation {
            Some(aggregation) => {
                if !crate::actions::num_countable(&session.rolls) {
                    return Err(too_many_to_count_error());
                }
                session = crate::AggregatableSession::aggregate(session, aggregation);
            },
            None => {
                if default_total && parsed.actions.len() == 0 {
                    match crate::TransformableSession::add_transformation(
                        &mut session,
                        &Action::Total,
                    ) {
                        Ok(()) => {},
                        Err(e) => {
                            return Err(e);
                        },
                    }
                } else {
                    proof {
                        assert(numeric_session_pipeline(
                            session.requests@,
                            action_toks(toks),
                            session.rolls@,
                        )) by {
                            assert(built_rolls.len() == session.requests@.len());
                            assert(parsed.actions@.len() == action_toks(toks).len());
                            assert(crate::num_session_chain(
                                built_rolls,
                                parsed.actions@,
                                session.rolls@,
                            ));
                        }
                    }
                }
            },
        }
        result.numeric_session = Some(session);
    }
    if has_fudge {
        let mut session = match crate::FudgeSession::build_with_actions(parsed.fudge_requests) {
            Ok(session) => session,
            Err(e) => {
                proof {
                    if plain_case {
                        assert(false);
                    }
                }
                return Err(e);
            },
        };
        let ghost built_rolls = session.rolls@;
        match crate::TransformableSession::add_actions(&mut session, &parsed.actions) {
            Ok(()) => {},
            Err(e) => {
                proof {
                    if plain_case {
                        assert(false);
                    }
                }
                return Err(e);
            },
        }
        proof {
            assert(crate::fudge_session_chain(built_rolls, parsed.actions@, session.rolls@));
        }
        match &parsed.aggregation {
            Some(aggregation) => {
                if !crate::actions::fudge_countable(&session.rolls) {
                    return Err(too_many_to_count_error());
                }
                let mut num_session = crate::AggregatableSession::aggregate(session, aggregation);
                match &mut result.numeric_session {
                    Some(existing) => {
                        existing.rolls.append(&mut num_session.rolls);
                    },
                    None => {
                        result.numeric_session = Some(num_session);
                    },
                }
            },
            None => {
                proof {
                    assert(fudge_session_pipeline(
                        session.requests@,
                        action_toks(toks),
                        session.rolls@,
                    )) by {
                        assert(built_rolls.len() == session.requests@.len());
                        assert(parsed.actions@.len() == action_toks(toks).len());
                        assert(crate::fudge_session_chain(
                            built_rolls,
                            parsed.actions@,
                            session.rolls@,
                        ));
                    }
                }
                result.fudge_session = Some(session);
            },
        }
    }
    Ok(result)
}

impl core::str::FromStr for FudgeRoll {
    type Err = Error;

    fn from_str(s: &str) -> Result<Self, Error> {
        if str_eq_chars(s, "+") {
            Ok(FudgeRoll::Plus)
        } else if str_eq_chars(s, "-") {
            Ok(FudgeRoll::Minus)
        } else if str_eq_chars(s, "0") {
            Ok(FudgeRoll::Blank)
        } else {
            let mut m = <String as vstd::string::StringExecFns>::from_str("Can't read \"");
            m.append(s);
            m.append("\" as a fudge roll value");
            Err(Error::parse(m))
        }
    }
}

impl core::str::FromStr for crate::NumericSession {
    type Err = Error;

    fn from_str(s: &str) -> (res: Result<Self, Error>)
        ensures
            res is Ok ==> request_grammar_ok(s@),
            !request_grammar_ok(s@) ==> res is Err,
            scan_tokens(s@) matches Some(toks) ==> ((toks_accepted(toks, false) && (forall|j: int|
                0 <= j < toks.len() ==> !tok_is_group(#[trigger] toks[j])) && action_toks(
                toks,
            ).len() == 0 && !has_count(toks) && numeric_toks(toks).len() >= 1) ==> res is Ok),
            res matches Ok(ns) ==> (scan_tokens(s@) matches Some(toks) ==> (!has_count(toks)
                ==> numeric_toks(toks).len() >= 1 && ns.requests@.len() == numeric_toks(
                toks,
            ).len() && (forall|i: int|
                0 <= i < numeric_toks(toks).len() ==> numeric_tok_denotes(
                    #[trigger] numeric_toks(toks)[i],
                    ns.requests@[i],
                )))),
    {
        match parse_request(s, false) {
            Ok(m) => match m.numeric_session {
                Some(session) => Ok(session),
                None => Err(
                    Error::parse(<String as vstd::string::StringExecFns>::from_str("Could not parse numeric roll request")),
                ),
            },
            Err(e) => Err(e),
        }
    }
}

impl core::str::FromStr for crate::FudgeSession {
    type Err = Error;

    fn from_str(s: &str) -> (res: Result<Self, Error>)
        ensures
            res is Ok ==> request_grammar_ok(s@),
            !request_grammar_ok(s@) ==> res is Err,
            scan_tokens(s@) matches Some(toks) ==> ((toks_accepted(toks, false) && (forall|j: int|
                0 <= j < toks.len() ==> !tok_is_group(#[trigger] toks[j])) && action_toks(
                toks,
            ).len() == 0 && !has_count(toks) && fudge_toks(toks).len() >= 1) ==> res is Ok),
            res matches Ok(fs) ==> (scan_tokens(s@) matches Some(toks) ==> (!has_count(toks)
                && fudge_toks(toks).len() >= 1 && fs.requests@.len() == fudge_toks(toks).len() && (
            forall|i: int|
                0 <= i < fudge_toks(toks).len() ==> fudge_tok_denotes(
                    #[trigger] fudge_toks(toks)[i],
                    fs.requests@[i],
                )))),
    {
        match parse_request(s, false) {
            Ok(m) => match m.fudge_session {
                Some(session) => Ok(session),
                None => Err(
                    Error::parse(<String as vstd::string::StringExecFns>::from_str("Could not parse fudge roll request")),
                ),
            },
            Err(e) => Err(e),
        }
    }
}

} // verus!
