//! The cell grammar of the spreadsheet: cell coordinates such as `B12`,
//! numbers, ranges such as `A1:C3`, and function applications such as
//! `sum(A1, prod(B1:B3))`.
//!
//! The grammar is given twice: as spec functions over the characters of the
//! input (the meaning), and as executable parsers proved equal to them.
//! Each parser reports one of four outcomes: a match ending at a position, a
//! mismatch (another alternative may still be tried), a failure (no
//! alternative is tried any more), or an overflow (a column or row number
//! too large for `usize`).
use vstd::prelude::*;
use crate::text::{chars_of, string_of};
use vstd::string::StrSliceExecFns;

verus! {

/// A cell position; `row` and `col` count from zero.
#[derive(Debug, PartialEq, Eq, Hash, Copy, Clone, Structural)]
pub struct Coord {
    pub row: usize,
    pub col: usize,
}

/// The meaning of a cell's text.
pub enum SpecFormula {
    Empty,
    Coord(Coord),
    Range(Coord, Coord),
    /// A number, kept as the exact text that spells it.
    Number(Seq<char>),
    Label(Seq<char>),
    Application(Seq<char>, Seq<SpecFormula>),
    Invalid,
}

/// The outcome of a parser that started at some position of the input.
pub enum Outcome<T> {
    /// Matched; the match ends before the given position.
    Done(int, T),
    /// Did not match; the next alternative may be tried.
    Mismatch,
    /// Did not match, and no further alternative is tried.
    Failure,
    /// A column or row number does not fit in `usize`.
    Overflow,
}

// ---------------------------------------------------------------------
// Character classes

pub open spec fn is_letter(c: char) -> bool {
    ('a' <= c && c <= 'z') || ('A' <= c && c <= 'Z')
}

pub open spec fn is_digit(c: char) -> bool {
    '0' <= c && c <= '9'
}

pub open spec fn is_space(c: char) -> bool {
    c == ' ' || c == '\t' || c == '\r' || c == '\n'
}

pub open spec fn is_sign(c: char) -> bool {
    c == '+' || c == '-'
}

/// Position of the first character at or after `i` that is not a letter.
pub open spec fn letters_end(s: Seq<char>, i: int) -> int
    decreases s.len() - i,
{
    if 0 <= i < s.len() && is_letter(s[i]) {
        letters_end(s, i + 1)
    } else {
        i
    }
}

/// Position of the first character at or after `i` that is not a digit.
pub open spec fn digits_end(s: Seq<char>, i: int) -> int
    decreases s.len() - i,
{
    if 0 <= i < s.len() && is_digit(s[i]) {
        digits_end(s, i + 1)
    } else {
        i
    }
}

/// Position of the first character at or after `i` that is not white space.
pub open spec fn spaces_end(s: Seq<char>, i: int) -> int
    decreases s.len() - i,
{
    if 0 <= i < s.len() && is_space(s[i]) {
        spaces_end(s, i + 1)
    } else {
        i
    }
}

pub open spec fn char_at(s: Seq<char>, i: int, c: char) -> bool {
    0 <= i < s.len() && s[i] == c
}

// ---------------------------------------------------------------------
// Numbers written in letters (base 36) and in digits (base 10)

/// Value of a letter as a base-36 digit: `a`/`A` is 10, `z`/`Z` is 35.
pub open spec fn letter_digit(c: char) -> int {
    if 'a' <= c <= 'z' {
        (c as int) - ('a' as int) + 10
    } else {
        (c as int) - ('A' as int) + 10
    }
}

pub open spec fn base36(t: Seq<char>) -> int
    decreases t.len(),
{
    if t.len() == 0 {
        0
    } else {
        base36(t.drop_last()) * 36 + letter_digit(t.last())
    }
}

pub open spec fn base10(t: Seq<char>) -> int
    decreases t.len(),
{
    if t.len() == 0 {
        0
    } else {
        base10(t.drop_last()) * 10 + ((t.last() as int) - ('0' as int))
    }
}

// ---------------------------------------------------------------------
// Coordinates: letters for the column, a positive number for the row.

/// A coordinate at position `i`: `a1` and `A1` are row 0, column 0; `AA1`
/// is column 36 * 10 + 10 - 10. The column letters are read as a base-36
/// number minus 10; the row number must be positive.
pub open spec fn coord_at(s: Seq<char>, i: int) -> Outcome<Coord> {
    let a = letters_end(s, i);
    if a == i {
        Outcome::Mismatch
    } else if base36(s.subrange(i, a)) > usize::MAX {
        Outcome::Overflow
    } else {
        let b = digits_end(s, a);
        if b == a {
            Outcome::Mismatch
        } else if base10(s.subrange(a, b)) > usize::MAX {
            Outcome::Overflow
        } else if base10(s.subrange(a, b)) == 0 {
            Outcome::Mismatch
        } else {
            Outcome::Done(
                b,
                Coord {
                    row: (base10(s.subrange(a, b)) - 1) as usize,
                    col: (base36(s.subrange(i, a)) - 10) as usize,
                },
            )
        }
    }
}

// ---------------------------------------------------------------------
// Numbers

/// `nan` or `inf` at position `i`, in any letter case.
pub open spec fn word_at(s: Seq<char>, i: int, w: Seq<char>) -> bool {
    0 <= i && i + w.len() <= s.len() && forall|k: int|
        0 <= k < w.len() ==> #[trigger] crate::text::ascii_lower(s[i + k]) == w[k]
}

/// End of the mantissa of a number whose optional sign ends at `k`:
/// digits with an optional point and optional fraction digits, or a point
/// followed by digits. `-1` when there is no mantissa.
pub open spec fn mantissa_end(s: Seq<char>, k: int) -> int {
    let d = digits_end(s, k);
    if d > k {
        if char_at(s, d, '.') {
            digits_end(s, d + 1)
        } else {
            d
        }
    } else if char_at(s, k, '.') && digits_end(s, k + 1) > k + 1 {
        digits_end(s, k + 1)
    } else {
        -1
    }
}

/// A number at position `i`: an optional sign, a mantissa, and an optional
/// exponent; or one of the words `nan` and `inf` in any letter case.
/// An exponent letter that is not followed by digits is a failure.
pub open spec fn number_at(s: Seq<char>, i: int) -> Outcome<()> {
    let k = if 0 <= i < s.len() && is_sign(s[i]) {
        i + 1
    } else {
        i
    };
    let m = mantissa_end(s, k);
    if m < 0 {
        if word_at(s, i, seq!['n', 'a', 'n']) || word_at(s, i, seq!['i', 'n', 'f']) {
            Outcome::Done(i + 3, ())
        } else {
            Outcome::Mismatch
        }
    } else if char_at(s, m, 'e') || char_at(s, m, 'E') {
        let p = if 0 <= m + 1 < s.len() && is_sign(s[m + 1]) {
            m + 2
        } else {
            m + 1
        };
        let q = digits_end(s, p);
        if q == p {
            Outcome::Failure
        } else {
            Outcome::Done(q, ())
        }
    } else {
        Outcome::Done(m, ())
    }
}

// ---------------------------------------------------------------------
// Expressions

/// An expression at position `i`. Tried in order: a range `A1:B2`, a
/// coordinate, a number, an application `name ( expr , ... )`.
pub open spec fn expr_at(s: Seq<char>, i: int) -> Outcome<SpecFormula>
    decreases 2 * (s.len() - i) + 1, 0int,
{
    match coord_at(s, i) {
        Outcome::Overflow => Outcome::Overflow,
        Outcome::Done(j, c1) => {
            if char_at(s, j, ':') {
                match coord_at(s, j + 1) {
                    Outcome::Done(k, c2) => Outcome::Done(k, SpecFormula::Range(c1, c2)),
                    Outcome::Overflow => Outcome::Overflow,
                    _ => Outcome::Done(j, SpecFormula::Coord(c1)),
                }
            } else {
                Outcome::Done(j, SpecFormula::Coord(c1))
            }
        },
        _ => match number_at(s, i) {
            Outcome::Done(j, _) => Outcome::Done(j, SpecFormula::Number(s.subrange(i, j))),
            Outcome::Failure => Outcome::Failure,
            _ => if 0 <= i <= s.len() {
                application_at(s, i)
            } else {
                Outcome::Mismatch
            },
        },
    }
}

/// An application `name ( expr , expr ... )` at position `i`, followed by
/// optional white space. White space may precede the parenthesis, each
/// argument, each comma and the closing parenthesis.
pub open spec fn application_at(s: Seq<char>, i: int) -> Outcome<SpecFormula>
    decreases 2 * (s.len() - i), 1int,
{
    let a = letters_end(s, i);
    let p = spaces_end(s, a);
    if a == i || !char_at(s, p, '(') || !(i < p + 1 <= s.len()) {
        Outcome::Mismatch
    } else {
        match arguments_at(s, p + 1) {
            Outcome::Done(j, args) => {
                let r = spaces_end(s, j);
                if char_at(s, r, ')') {
                    Outcome::Done(
                        spaces_end(s, r + 1),
                        SpecFormula::Application(s.subrange(i, a), args),
                    )
                } else {
                    Outcome::Mismatch
                }
            },
            Outcome::Mismatch => Outcome::Mismatch,
            Outcome::Failure => Outcome::Failure,
            Outcome::Overflow => Outcome::Overflow,
        }
    }
}

/// One or more arguments separated by commas, starting at position `p`.
pub open spec fn arguments_at(s: Seq<char>, p: int) -> Outcome<Seq<SpecFormula>>
    decreases 2 * (s.len() - p) + 1, 1int,
{
    let q = spaces_end(s, p);
    if !(p <= q <= s.len()) {
        Outcome::Mismatch
    } else {
        match expr_at(s, q) {
            Outcome::Done(j, f) => if q < j <= s.len() {
                more_arguments(s, j, seq![f])
            } else {
                Outcome::Mismatch
            },
            Outcome::Mismatch => Outcome::Mismatch,
            Outcome::Failure => Outcome::Failure,
            Outcome::Overflow => Outcome::Overflow,
        }
    }
}

/// Further arguments `, expr` after the ones in `acc`, from position `j`.
/// A comma that is not followed by an expression ends the list before the
/// comma.
pub open spec fn more_arguments(s: Seq<char>, j: int, acc: Seq<SpecFormula>) -> Outcome<
    Seq<SpecFormula>,
>
    decreases 2 * (s.len() - j), 2int,
{
    let r = spaces_end(s, j);
    if !char_at(s, r, ',') || !(j <= r) {
        Outcome::Done(j, acc)
    } else {
        let q = spaces_end(s, r + 1);
        if !(r + 1 <= q && q <= s.len()) {
            Outcome::Done(j, acc)
        } else {
            match expr_at(s, q) {
                Outcome::Done(k, f) => if q < k <= s.len() {
                    more_arguments(s, k, acc.push(f))
                } else {
                    Outcome::Done(j, acc)
                },
                Outcome::Mismatch => Outcome::Done(j, acc),
                Outcome::Failure => Outcome::Failure,
                Outcome::Overflow => Outcome::Overflow,
            }
        }
    }
}

/// True when the text holds no line break (`\r` or `\n`).
pub open spec fn single_line(s: Seq<char>) -> bool {
    forall|k: int| 0 <= k < s.len() ==> s[k] != '\r' && s[k] != '\n'
}

/// The meaning of a cell's whole text:
/// - `=` followed by optional white space and one expression that reaches the
///   end of the text; anything else after `=` is a failure;
/// - the empty text;
/// - a number that spans the whole text;
/// - otherwise, any text on a single line is a label.
pub open spec fn formula_of(s: Seq<char>) -> Outcome<SpecFormula> {
    if char_at(s, 0, '=') {
        match expr_at(s, spaces_end(s, 1)) {
            Outcome::Done(j, f) => if j == s.len() {
                Outcome::Done(j, f)
            } else {
                Outcome::Failure
            },
            Outcome::Overflow => Outcome::Overflow,
            _ => Outcome::Failure,
        }
    } else if s.len() == 0 {
        Outcome::Done(0, SpecFormula::Empty)
    } else {
        match number_at(s, 0) {
            Outcome::Done(j, _) => if j == s.len() {
                Outcome::Done(j, SpecFormula::Number(s))
            } else if single_line(s) {
                Outcome::Done(s.len() as int, SpecFormula::Label(s))
            } else {
                Outcome::Mismatch
            },
            Outcome::Failure => Outcome::Failure,
            _ => if single_line(s) {
                Outcome::Done(s.len() as int, SpecFormula::Label(s))
            } else {
                Outcome::Mismatch
            },
        }
    }
}

/// A cell's text is read whole and never as `Invalid`. A text that does
/// not start with `=` and holds no line break is empty, a number when all
/// of it spells one, and a label otherwise; the exception is a text on
/// which the number reader fails partway (such as `1e`).
pub proof fn law_cell_text_is_read_whole(s: Seq<char>)
    ensures
        formula_of(s) matches Outcome::Done(j, f) ==> j == s.len() && f != SpecFormula::Invalid,
        !char_at(s, 0, '=') && single_line(s) && !(number_at(s, 0) is Failure) ==> formula_of(s)
            == if s.len() == 0 {
            Outcome::Done(0, SpecFormula::Empty)
        } else if number_at(s, 0) == Outcome::Done(s.len() as int, ()) {
            Outcome::Done(s.len() as int, SpecFormula::Number(s))
        } else {
            Outcome::Done(s.len() as int, SpecFormula::Label(s))
        },
{
    if char_at(s, 0, '=') {
        let q = spaces_end(s, 1);
        match coord_at(s, q) {
            Outcome::Done(_, _) | Outcome::Overflow => {},
            _ => match number_at(s, q) {
                Outcome::Done(_, _) | Outcome::Failure => {},
                _ => {
                    if 0 <= q <= s.len() {
                        assert(application_at(s, q) matches Outcome::Done(_, f) ==> f is Application);
                    }
                },
            },
        }
    }
}

} // verus!

verus! {

/// The parsed form of a cell's text.
#[derive(Debug, PartialEq)]
pub enum Formula {
    Empty,
    Coord(Coord),
    Range(Coord, Coord),
    /// A number, kept as the exact text that spells it.
    Number(String),
    Label(String),
    Application(String, Vec<Formula>),
    Invalid,
}

impl Formula {
    pub open spec fn spec_view(&self) -> SpecFormula
        decreases self,
    {
        match self {
            Formula::Empty => SpecFormula::Empty,
            Formula::Coord(c) => SpecFormula::Coord(*c),
            Formula::Range(a, b) => SpecFormula::Range(*a, *b),
            Formula::Number(n) => SpecFormula::Number(n@),
            Formula::Label(l) => SpecFormula::Label(l@),
            Formula::Application(name, args) => SpecFormula::Application(
                name@,
                Seq::new(
                    args@.len(),
                    |k: int|
                        if 0 <= k < args@.len() {
                            args@[k].spec_view()
                        } else {
                            SpecFormula::Invalid
                        },
                ),
            ),
            Formula::Invalid => SpecFormula::Invalid,
        }
    }
}

pub open spec fn views(v: Seq<Formula>) -> Seq<SpecFormula> {
    Seq::new(v.len(), |k: int| v[k].spec_view())
}

} // verus!
