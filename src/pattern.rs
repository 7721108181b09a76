//! The line grammar of the geometry log and of the force output: a pattern
//! is a sequence of pieces, each a character class taken once, at most once
//! or at least once, matched against the start of a line.

use crate::text::{is_digit, is_digit_char, is_space, is_space_char, views};
use vstd::prelude::*;

verus! {

#[derive(Clone, Copy, Debug, PartialEq, Eq)]
pub enum CharClass {
    /// Unicode white space.
    Space,
    /// An ASCII decimal digit.
    Digit,
    /// The minus sign `-`.
    Minus,
    /// Any character.
    AnyChar,
}

/// A character class taken once, at most once, or at least once.
#[derive(Clone, Copy, Debug, PartialEq, Eq)]
pub enum Piece {
    One(CharClass),
    Opt(CharClass),
    Plus(CharClass),
}

pub open spec fn class_has(c: CharClass, ch: char) -> bool {
    match c {
        CharClass::Space => is_space(ch),
        CharClass::Digit => is_digit(ch),
        CharClass::Minus => ch == '-',
        CharClass::AnyChar => true,
    }
}

fn class_has_char(c: CharClass, ch: char) -> (r: bool)
    ensures
        r == class_has(c, ch),
{
    match c {
        CharClass::Space => is_space_char(ch),
        CharClass::Digit => is_digit_char(ch),
        CharClass::Minus => ch == '-',
        CharClass::AnyChar => true,
    }
}

/// Whether the pieces from `k` on match a prefix of `s[i..]`. `repeat` says
/// that piece `k` is a `Plus` that has already taken one character.
pub open spec fn matches_from(p: Seq<Piece>, k: int, s: Seq<char>, i: int, repeat: bool) -> bool
    decreases p.len() - k, s.len() - i,
{
    if k < 0 || k >= p.len() {
        true
    } else if i < 0 || i > s.len() {
        false
    } else {
        match p[k] {
            Piece::One(c) => i < s.len() && class_has(c, s[i]) && matches_from(
                p,
                k + 1,
                s,
                i + 1,
                false,
            ),
            Piece::Opt(c) => matches_from(p, k + 1, s, i, false) || (i < s.len() && class_has(
                c,
                s[i],
            ) && matches_from(p, k + 1, s, i + 1, false)),
            Piece::Plus(c) => if repeat {
                matches_from(p, k + 1, s, i, false) || (i < s.len() && class_has(c, s[i])
                    && matches_from(p, k, s, i + 1, true))
            } else {
                i < s.len() && class_has(c, s[i]) && matches_from(p, k, s, i + 1, true)
            },
        }
    }
}

/// Whether some prefix of `s` matches the whole pattern `p`.
pub open spec fn matches_prefix(p: Seq<Piece>, s: Seq<char>) -> bool {
    matches_from(p, 0, s, 0, false)
}

fn match_from(p: &[Piece], k: usize, s: &[char], i: usize, repeat: bool) -> (r: bool)
    requires
        i <= s@.len(),
        k <= p@.len(),
    ensures
        r == matches_from(p@, k as int, s@, i as int, repeat),
    decreases p@.len() - k, s@.len() - i,
{
    if k >= p.len() {
        return true;
    }
    match p[k] {
        Piece::One(c) => i < s.len() && class_has_char(c, s[i]) && match_from(
            p,
            k + 1,
            s,
            i + 1,
            false,
        ),
        Piece::Opt(c) => match_from(p, k + 1, s, i, false) || (i < s.len() && class_has_char(
            c,
            s[i],
        ) && match_from(p, k + 1, s, i + 1, false)),
        Piece::Plus(c) => if repeat {
            match_from(p, k + 1, s, i, false) || (i < s.len() && class_has_char(c, s[i])
                && match_from(p, k, s, i + 1, true))
        } else {
            i < s.len() && class_has_char(c, s[i]) && match_from(p, k, s, i + 1, true)
        },
    }
}

/// Whether some prefix of `s` matches the pattern `p`.
pub fn match_prefix(p: &[Piece], s: &[char]) -> (r: bool)
    ensures
        r == matches_prefix(p@, s@),
{
    match_from(p, 0, s, 0, false)
}

/// White space, then a decimal number with an optional minus sign: digits,
/// any one character, digits.
pub open spec fn coordinate_spec() -> Seq<Piece> {
    seq![
        Piece::Plus(CharClass::Space),
        Piece::Opt(CharClass::Minus),
        Piece::Plus(CharClass::Digit),
        Piece::One(CharClass::AnyChar),
        Piece::Plus(CharClass::Digit),
    ]
}

/// White space, then an unsigned integer.
pub open spec fn unsigned_field_spec() -> Seq<Piece> {
    seq![Piece::Plus(CharClass::Space), Piece::Plus(CharClass::Digit)]
}

/// A geometry record: index, atomic number and type code, then x, y, z.
pub open spec fn geometry_pattern_spec() -> Seq<Piece> {
    unsigned_field_spec() + unsigned_field_spec() + unsigned_field_spec() + coordinate_spec()
        + coordinate_spec() + coordinate_spec()
}

/// A force record: index and atomic number, then the three components.
pub open spec fn force_pattern_spec() -> Seq<Piece> {
    unsigned_field_spec() + unsigned_field_spec() + coordinate_spec() + coordinate_spec()
        + coordinate_spec()
}

fn push_unsigned_field(v: &mut Vec<Piece>)
    ensures
        final(v)@ == old(v)@ + unsigned_field_spec(),
{
    v.push(Piece::Plus(CharClass::Space));
    v.push(Piece::Plus(CharClass::Digit));
    assert(final(v)@ =~= old(v)@ + unsigned_field_spec());
}

fn push_coordinate(v: &mut Vec<Piece>)
    ensures
        final(v)@ == old(v)@ + coordinate_spec(),
{
    v.push(Piece::Plus(CharClass::Space));
    v.push(Piece::Opt(CharClass::Minus));
    v.push(Piece::Plus(CharClass::Digit));
    v.push(Piece::One(CharClass::AnyChar));
    v.push(Piece::Plus(CharClass::Digit));
    assert(final(v)@ =~= old(v)@ + coordinate_spec());
}

/// The geometry record grammar.
pub fn geometry_pattern() -> (r: Vec<Piece>)
    ensures
        r@ == geometry_pattern_spec(),
{
    let mut v: Vec<Piece> = Vec::new();
    push_unsigned_field(&mut v);
    push_unsigned_field(&mut v);
    push_unsigned_field(&mut v);
    push_coordinate(&mut v);
    push_coordinate(&mut v);
    push_coordinate(&mut v);
    assert(v@ =~= geometry_pattern_spec());
    v
}

/// The force record grammar.
pub fn force_pattern() -> (r: Vec<Piece>)
    ensures
        r@ == force_pattern_spec(),
{
    let mut v: Vec<Piece> = Vec::new();
    push_unsigned_field(&mut v);
    push_unsigned_field(&mut v);
    push_coordinate(&mut v);
    push_coordinate(&mut v);
    push_coordinate(&mut v);
    assert(v@ =~= force_pattern_spec());
    v
}

/// The lines of `lines` that `p` matches, in order.
pub open spec fn matching_lines(p: Seq<Piece>, lines: Seq<Seq<char>>) -> Seq<Seq<char>>
    decreases lines.len(),
{
    if lines.len() == 0 {
        Seq::empty()
    } else {
        let r = matching_lines(p, lines.drop_last());
        if matches_prefix(p, lines.last()) {
            r.push(lines.last())
        } else {
            r
        }
    }
}

/// Keeps the lines that `p` matches.
pub fn select_matching(p: &[Piece], lines: &Vec<Vec<char>>) -> (r: Vec<Vec<char>>)
    ensures
        views(r@) == matching_lines(p@, views(lines@)),
{
    let ghost ls = views(lines@);
    let mut r: Vec<Vec<char>> = Vec::new();
    let mut i: usize = 0;
    while i < lines.len()
        invariant
            i <= lines@.len(),
            ls == views(lines@),
            views(r@) == matching_lines(p@, ls.take(i as int)),
        decreases lines@.len() - i,
    {
        assert(ls.take(i as int + 1).drop_last() =~= ls.take(i as int));
        assert(ls.take(i as int + 1).last() == lines@[i as int]@);
        let ghost before = views(r@);
        if match_prefix(p, lines[i].as_slice()) {
            r.push(lines[i].clone());
            assert(views(r@) =~= before.push(lines@[i as int]@));
        }
        i = i + 1;
    }
    assert(ls.take(lines@.len() as int) =~= ls);
    r
}

} // verus!
