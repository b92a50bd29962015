//! Small verified text-building utilities: decimal rendering of numbers and
//! joining string pieces with a separator.

use vstd::prelude::*;

verus! {

/// Relies on `String::push`: appends exactly the given character at the end.
pub assume_specification[ String::push ](s: &mut String, ch: char)
    ensures
        final(s)@ == old(s)@.push(ch),
;

/// The character for one decimal digit.
pub open spec fn dec_digit(d: int) -> char {
    ((d + 48) as u8) as char
}

/// The decimal digit string of a non-negative number, most significant digit
/// first (`0` is rendered as `"0"`).
pub open spec fn dec_str(n: int) -> Seq<char>
    decreases n,
{
    if n < 10 {
        seq![dec_digit(n)]
    } else {
        dec_str(n / 10).push(dec_digit(n % 10))
    }
}

/// Appends the decimal rendering of `n` to `s`.
pub fn push_dec(s: &mut String, n: u32)
    ensures
        final(s)@ == old(s)@ + dec_str(n as int),
    decreases n,
{
    if n >= 10 {
        push_dec(s, n / 10);
    }
    let d: u8 = (n % 10) as u8;
    s.push((48 + d) as char);
    proof {
        assert(s@ =~= old(s)@ + dec_str(n as int));
    }
}

/// Appends the decimal rendering of a wide number to `s`.
pub fn push_dec64(s: &mut String, n: u64)
    ensures
        final(s)@ == old(s)@ + dec_str(n as int),
    decreases n,
{
    if n >= 10 {
        push_dec64(s, n / 10);
    }
    let d: u8 = (n % 10) as u8;
    s.push((48 + d) as char);
    proof {
        assert(s@ =~= old(s)@ + dec_str(n as int));
    }
}

/// The decimal rendering of a number as a fresh string.
pub fn u32_to_string(n: u32) -> (s: String)
    ensures
        s@ == dec_str(n as int),
{
    let mut s = String::new();
    push_dec(&mut s, n);
    proof {
        assert(s@ =~= dec_str(n as int));
    }
    s
}

/// The pieces of `parts` joined with `sep` between consecutive pieces.
pub open spec fn join_seq(parts: Seq<Seq<char>>, sep: Seq<char>) -> Seq<char>
    decreases parts.len(),
{
    if parts.len() == 0 {
        Seq::empty()
    } else if parts.len() == 1 {
        parts[0]
    } else {
        parts[0] + sep + join_seq(parts.drop_first(), sep)
    }
}

/// Joining one more piece extends the joined text by a separator and the piece
/// (or is the piece itself for the first one).
pub proof fn lemma_join_push(parts: Seq<Seq<char>>, sep: Seq<char>, piece: Seq<char>)
    ensures
        parts.len() == 0 ==> join_seq(parts.push(piece), sep) == piece,
        parts.len() > 0 ==> join_seq(parts.push(piece), sep) == join_seq(parts, sep) + sep
            + piece,
    decreases parts.len(),
{
    if parts.len() == 0 {
        assert(parts.push(piece)[0] == piece);
        assert(join_seq(parts.push(piece), sep) == piece);
    } else if parts.len() == 1 {
        assert(parts.push(piece).drop_first() =~= seq![piece]);
        assert(parts.push(piece)[0] == parts[0]);
        assert(join_seq(seq![piece], sep) == seq![piece][0]);
        assert(seq![piece][0] == piece);
        assert(join_seq(parts.push(piece), sep) == parts[0] + sep + piece);
        assert(join_seq(parts, sep) + sep + piece == parts[0] + sep + piece);
    } else {
        lemma_join_push(parts.drop_first(), sep, piece);
        assert(parts.push(piece).drop_first() =~= parts.drop_first().push(piece));
        assert(join_seq(parts, sep) + sep + piece =~= parts[0] + sep + (join_seq(
            parts.drop_first(),
            sep,
        ) + sep + piece));
        assert(join_seq(parts.push(piece), sep) == parts[0] + sep + join_seq(
            parts.drop_first().push(piece),
            sep,
        ));
    }
}

/// Appends `piece` to a join under construction, with `sep` first unless this
/// is the first piece.
pub fn join_step(acc: &mut String, sep: &str, piece: &str, first: bool)
    ensures
        final(acc)@ == old(acc)@ + (if first {
            piece@
        } else {
            sep@ + piece@
        }),
{
    if !first {
        acc.append(sep);
    }
    acc.append(piece);
    proof {
        if !first {
            assert(acc@ =~= old(acc)@ + (sep@ + piece@));
        }
    }
}

} // verus!
