//! Executable parsers for the cell grammar, each proved equal to its
//! meaning in `grammar`.
use vstd::prelude::*;
use crate::grammar::{
    Coord, SpecFormula, Outcome, Formula, views, is_letter, is_digit, is_space, letters_end,
    digits_end, spaces_end, char_at, letter_digit, base36, base10, coord_at, word_at,
    mantissa_end, number_at, expr_at, application_at, arguments_at, more_arguments,
    single_line, formula_of,
};
use crate::text::{chars_of, string_of, lower_ascii, ascii_lower};
use vstd::string::StrSliceExecFns;

verus! {

/// The outcome of an executable parser.
pub enum Parsed<T> {
    Done(usize, T),
    Mismatch,
    Failure,
    Overflow,
}

/// Why a text could not be parsed: `Error` when an alternative did not
/// match, `Failure` when the grammar rules out any other reading.
#[derive(Debug, PartialEq, Eq, Clone, Copy, Structural)]
pub enum ParseError {
    Error,
    Failure,
}

pub open spec fn same_coord(r: Parsed<Coord>, o: Outcome<Coord>) -> bool {
    match r {
        Parsed::Done(j, c) => o == Outcome::Done(j as int, c),
        Parsed::Mismatch => o == Outcome::<Coord>::Mismatch,
        Parsed::Failure => o == Outcome::<Coord>::Failure,
        Parsed::Overflow => o == Outcome::<Coord>::Overflow,
    }
}

pub open spec fn same_unit(r: Parsed<()>, o: Outcome<()>) -> bool {
    match r {
        Parsed::Done(j, c) => o == Outcome::Done(j as int, ()),
        Parsed::Mismatch => o == Outcome::<()>::Mismatch,
        Parsed::Failure => o == Outcome::<()>::Failure,
        Parsed::Overflow => o == Outcome::<()>::Overflow,
    }
}

pub open spec fn same_formula(r: Parsed<Formula>, o: Outcome<SpecFormula>) -> bool {
    match r {
        Parsed::Done(j, f) => o == Outcome::Done(j as int, f.spec_view()),
        Parsed::Mismatch => o == Outcome::<SpecFormula>::Mismatch,
        Parsed::Failure => o == Outcome::<SpecFormula>::Failure,
        Parsed::Overflow => o == Outcome::<SpecFormula>::Overflow,
    }
}

pub open spec fn same_args(r: Parsed<Vec<Formula>>, o: Outcome<Seq<SpecFormula>>) -> bool {
    match r {
        Parsed::Done(j, v) => o == Outcome::Done(j as int, views(v@)),
        Parsed::Mismatch => o == Outcome::<Seq<SpecFormula>>::Mismatch,
        Parsed::Failure => o == Outcome::<Seq<SpecFormula>>::Failure,
        Parsed::Overflow => o == Outcome::<Seq<SpecFormula>>::Overflow,
    }
}

// ---------------------------------------------------------------------
// Runs of characters

proof fn lemma_letters_end(s: Seq<char>, i: int)
    requires
        0 <= i <= s.len(),
    ensures
        i <= letters_end(s, i) <= s.len(),
        forall|k: int| i <= k < letters_end(s, i) ==> is_letter(#[trigger] s[k]),
        letters_end(s, i) < s.len() ==> !is_letter(s[letters_end(s, i)]),
    decreases s.len() - i,
{
    if i < s.len() && is_letter(s[i]) {
        lemma_letters_end(s, i + 1);
    }
}

proof fn lemma_digits_end(s: Seq<char>, i: int)
    requires
        0 <= i <= s.len(),
    ensures
        i <= digits_end(s, i) <= s.len(),
        forall|k: int| i <= k < digits_end(s, i) ==> is_digit(#[trigger] s[k]),
        digits_end(s, i) < s.len() ==> !is_digit(s[digits_end(s, i)]),
    decreases s.len() - i,
{
    if i < s.len() && is_digit(s[i]) {
        lemma_digits_end(s, i + 1);
    }
}

proof fn lemma_spaces_end(s: Seq<char>, i: int)
    requires
        0 <= i <= s.len(),
    ensures
        i <= spaces_end(s, i) <= s.len(),
        forall|k: int| i <= k < spaces_end(s, i) ==> is_space(#[trigger] s[k]),
        spaces_end(s, i) < s.len() ==> !is_space(s[spaces_end(s, i)]),
    decreases s.len() - i,
{
    if i < s.len() && is_space(s[i]) {
        lemma_spaces_end(s, i + 1);
    }
}

fn is_letter_exec(c: char) -> (b: bool)
    ensures
        b == is_letter(c),
{
    ('a' <= c && c <= 'z') || ('A' <= c && c <= 'Z')
}

fn is_digit_exec(c: char) -> (b: bool)
    ensures
        b == is_digit(c),
{
    '0' <= c && c <= '9'
}

fn is_space_exec(c: char) -> (b: bool)
    ensures
        b == is_space(c),
{
    c == ' ' || c == '\t' || c == '\r' || c == '\n'
}

fn letters_end_exec(s: &Vec<char>, i: usize) -> (e: usize)
    requires
        i <= s.len(),
    ensures
        e == letters_end(s@, i as int),
{
    let mut j = i;
    while j < s.len() && is_letter_exec(s[j])
        invariant
            i <= j <= s.len(),
            letters_end(s@, i as int) == letters_end(s@, j as int),
        decreases s.len() - j,
    {
        j = j + 1;
    }
    j
}

fn digits_end_exec(s: &Vec<char>, i: usize) -> (e: usize)
    requires
        i <= s.len(),
    ensures
        e == digits_end(s@, i as int),
{
    let mut j = i;
    while j < s.len() && is_digit_exec(s[j])
        invariant
            i <= j <= s.len(),
            digits_end(s@, i as int) == digits_end(s@, j as int),
        decreases s.len() - j,
    {
        j = j + 1;
    }
    j
}

fn spaces_end_exec(s: &Vec<char>, i: usize) -> (e: usize)
    requires
        i <= s.len(),
    ensures
        e == spaces_end(s@, i as int),
{
    let mut j = i;
    while j < s.len() && is_space_exec(s[j])
        invariant
            i <= j <= s.len(),
            spaces_end(s@, i as int) == spaces_end(s@, j as int),
        decreases s.len() - j,
    {
        j = j + 1;
    }
    j
}

fn char_at_exec(s: &Vec<char>, i: usize, c: char) -> (b: bool)
    ensures
        b == char_at(s@, i as int, c),
{
    i < s.len() && s[i] == c
}

// ---------------------------------------------------------------------
// Positional numbers

proof fn lemma_base36_prefix(t: Seq<char>, k: int)
    requires
        0 <= k <= t.len(),
        forall|m: int| 0 <= m < t.len() ==> is_letter(#[trigger] t[m]),
    ensures
        0 <= base36(t.subrange(0, k)) <= base36(t),
    decreases t.len(),
{
    if k < t.len() {
        let u = t.drop_last();
        assert forall|m: int| 0 <= m < u.len() implies is_letter(#[trigger] u[m]) by {
            assert(u[m] == t[m]);
        }
        lemma_base36_prefix(u, k);
        assert(u.subrange(0, k) =~= t.subrange(0, k));
        assert(is_letter(t.last()));
    } else {
        assert(t.subrange(0, k) =~= t);
        lemma_base36_prefix_nonneg(t);
    }
}

proof fn lemma_base36_prefix_nonneg(t: Seq<char>)
    requires
        forall|m: int| 0 <= m < t.len() ==> is_letter(#[trigger] t[m]),
    ensures
        base36(t) >= 0,
    decreases t.len(),
{
    if t.len() > 0 {
        let u = t.drop_last();
        assert forall|m: int| 0 <= m < u.len() implies is_letter(#[trigger] u[m]) by {
            assert(u[m] == t[m]);
        }
        lemma_base36_prefix_nonneg(u);
        assert(is_letter(t.last()));
    }
}

proof fn lemma_base36_least(t: Seq<char>)
    requires
        t.len() > 0,
        forall|m: int| 0 <= m < t.len() ==> is_letter(#[trigger] t[m]),
    ensures
        base36(t) >= 10,
    decreases t.len(),
{
    let u = t.drop_last();
    assert forall|m: int| 0 <= m < u.len() implies is_letter(#[trigger] u[m]) by {
        assert(u[m] == t[m]);
    }
    lemma_base36_prefix_nonneg(u);
    assert(is_letter(t.last()));
}

proof fn lemma_base10_prefix(t: Seq<char>, k: int)
    requires
        0 <= k <= t.len(),
        forall|m: int| 0 <= m < t.len() ==> is_digit(#[trigger] t[m]),
    ensures
        0 <= base10(t.subrange(0, k)) <= base10(t),
    decreases t.len(),
{
    if k < t.len() {
        let u = t.drop_last();
        assert forall|m: int| 0 <= m < u.len() implies is_digit(#[trigger] u[m]) by {
            assert(u[m] == t[m]);
        }
        lemma_base10_prefix(u, k);
        assert(u.subrange(0, k) =~= t.subrange(0, k));
        assert(is_digit(t.last()));
    } else {
        assert(t.subrange(0, k) =~= t);
        lemma_base10_nonneg(t);
    }
}

proof fn lemma_base10_nonneg(t: Seq<char>)
    requires
        forall|m: int| 0 <= m < t.len() ==> is_digit(#[trigger] t[m]),
    ensures
        base10(t) >= 0,
    decreases t.len(),
{
    if t.len() > 0 {
        let u = t.drop_last();
        assert forall|m: int| 0 <= m < u.len() implies is_digit(#[trigger] u[m]) by {
            assert(u[m] == t[m]);
        }
        lemma_base10_nonneg(u);
        assert(is_digit(t.last()));
    }
}

fn letter_digit_exec(c: char) -> (d: usize)
    requires
        is_letter(c),
    ensures
        d == letter_digit(c),
        10 <= d <= 35,
{
    if 'a' <= c && c <= 'z' {
        ((c as u32) - ('a' as u32) + 10) as usize
    } else {
        ((c as u32) - ('A' as u32) + 10) as usize
    }
}

/// Base-36 value of `s[i..a]`, or `None` when it exceeds `usize::MAX`.
fn base36_exec(s: &Vec<char>, i: usize, a: usize) -> (r: Option<usize>)
    requires
        i <= a <= s.len(),
        forall|m: int| i <= m < a ==> is_letter(#[trigger] s@[m]),
    ensures
        match r {
            Some(v) => v == base36(s@.subrange(i as int, a as int)),
            None => base36(s@.subrange(i as int, a as int)) > usize::MAX,
        },
{
    let ghost t = s@.subrange(i as int, a as int);
    assert forall|m: int| 0 <= m < t.len() implies is_letter(#[trigger] t[m]) by {
        assert(t[m] == s@[i + m]);
    }
    let mut acc: usize = 0;
    let mut k = i;
    assert(s@.subrange(i as int, i as int) =~= Seq::<char>::empty());
    while k < a
        invariant
            i <= k <= a <= s.len(),
            t == s@.subrange(i as int, a as int),
            forall|m: int| 0 <= m < t.len() ==> is_letter(#[trigger] t[m]),
            acc == base36(s@.subrange(i as int, k as int)),
        decreases a - k,
    {
        assert(t[k - i] == s@[k as int]);
        let d = letter_digit_exec(s[k]);
        let ghost next = s@.subrange(i as int, k + 1);
        assert(next.drop_last() =~= s@.subrange(i as int, k as int));
        assert(next.last() == s@[k as int]);
        assert(t.subrange(0, k + 1 - i) =~= next);
        proof {
            lemma_base36_prefix(t, k + 1 - i);
        }
        match acc.checked_mul(36) {
            Some(m) => match m.checked_add(d) {
                Some(v) => {
                    acc = v;
                },
                None => {
                    return None;
                },
            },
            None => {
                return None;
            },
        }
        k = k + 1;
    }
    assert(s@.subrange(i as int, k as int) =~= t);
    Some(acc)
}

/// Base-10 value of `s[i..a]`, or `None` when it exceeds `usize::MAX`.
fn base10_exec(s: &Vec<char>, i: usize, a: usize) -> (r: Option<usize>)
    requires
        i <= a <= s.len(),
        forall|m: int| i <= m < a ==> is_digit(#[trigger] s@[m]),
    ensures
        match r {
            Some(v) => v == base10(s@.subrange(i as int, a as int)),
            None => base10(s@.subrange(i as int, a as int)) > usize::MAX,
        },
{
    let ghost t = s@.subrange(i as int, a as int);
    assert forall|m: int| 0 <= m < t.len() implies is_digit(#[trigger] t[m]) by {
        assert(t[m] == s@[i + m]);
    }
    let mut acc: usize = 0;
    let mut k = i;
    assert(s@.subrange(i as int, i as int) =~= Seq::<char>::empty());
    while k < a
        invariant
            i <= k <= a <= s.len(),
            t == s@.subrange(i as int, a as int),
            forall|m: int| 0 <= m < t.len() ==> is_digit(#[trigger] t[m]),
            acc == base10(s@.subrange(i as int, k as int)),
        decreases a - k,
    {
        let c = s[k];
        assert(t[k - i] == s@[k as int]);
        let d = ((c as u32) - ('0' as u32)) as usize;
        let ghost next = s@.subrange(i as int, k + 1);
        assert(next.drop_last() =~= s@.subrange(i as int, k as int));
        assert(next.last() == s@[k as int]);
        assert(t.subrange(0, k + 1 - i) =~= next);
        proof {
            lemma_base10_prefix(t, k + 1 - i);
        }
        match acc.checked_mul(10) {
            Some(m) => match m.checked_add(d) {
                Some(v) => {
                    acc = v;
                },
                None => {
                    return None;
                },
            },
            None => {
                return None;
            },
        }
        k = k + 1;
    }
    assert(s@.subrange(i as int, k as int) =~= t);
    Some(acc)
}

// ---------------------------------------------------------------------
// Coordinates and numbers

fn coord_exec(s: &Vec<char>, i: usize) -> (r: Parsed<Coord>)
    requires
        i <= s.len(),
    ensures
        same_coord(r, coord_at(s@, i as int)),
        r matches Parsed::Done(j, _) ==> i < j <= s.len(),
{
    let a = letters_end_exec(s, i);
    proof {
        lemma_letters_end(s@, i as int);
    }
    if a == i {
        return Parsed::Mismatch;
    }
    let col = match base36_exec(s, i, a) {
        Some(v) => v,
        None => {
            return Parsed::Overflow;
        },
    };
    let b = digits_end_exec(s, a);
    proof {
        lemma_digits_end(s@, a as int);
        let t = s@.subrange(i as int, a as int);
        assert forall|m: int| 0 <= m < t.len() implies is_letter(#[trigger] t[m]) by {
            assert(t[m] == s@[i + m]);
        }
        lemma_base36_least(t);
    }
    if b == a {
        return Parsed::Mismatch;
    }
    let row = match base10_exec(s, a, b) {
        Some(v) => v,
        None => {
            return Parsed::Overflow;
        },
    };
    if row == 0 {
        return Parsed::Mismatch;
    }
    Parsed::Done(b, Coord { row: row - 1, col: col - 10 })
}

fn word_exec(s: &Vec<char>, i: usize, w0: char, w1: char, w2: char) -> (b: bool)
    requires
        i <= s.len(),
    ensures
        b == word_at(s@, i as int, seq![w0, w1, w2]),
{
    let ghost w = seq![w0, w1, w2];
    if s.len() >= 3 && i <= s.len() - 3 && lower_ascii(s[i]) == w0 && lower_ascii(s[i + 1]) == w1 && lower_ascii(
        s[i + 2],
    ) == w2 {
        assert forall|k: int| 0 <= k < w.len() implies #[trigger] ascii_lower(s@[i + k]) == w[k] by {
            if k == 0 {
            } else if k == 1 {
            } else {
            }
        }
        true
    } else {
        if s.len() >= 3 && i <= s.len() - 3 {
            if lower_ascii(s[i]) != w0 {
                assert(ascii_lower(s@[i + 0]) != w[0]);
            } else if lower_ascii(s[i + 1]) != w1 {
                assert(ascii_lower(s@[i + 1]) != w[1]);
            } else {
                assert(ascii_lower(s@[i + 2]) != w[2]);
            }
        }
        false
    }
}

fn mantissa_exec(s: &Vec<char>, k: usize) -> (m: Option<usize>)
    requires
        k <= s.len(),
    ensures
        match m {
            Some(e) => e == mantissa_end(s@, k as int) && k < e <= s.len(),
            None => mantissa_end(s@, k as int) == -1,
        },
{
    let d = digits_end_exec(s, k);
    proof {
        lemma_digits_end(s@, k as int);
    }
    if d > k {
        if char_at_exec(s, d, '.') {
            let e = digits_end_exec(s, d + 1);
            proof {
                lemma_digits_end(s@, d + 1);
            }
            Some(e)
        } else {
            Some(d)
        }
    } else if char_at_exec(s, k, '.') {
        let e = digits_end_exec(s, k + 1);
        proof {
            lemma_digits_end(s@, k + 1);
        }
        if e > k + 1 {
            Some(e)
        } else {
            None
        }
    } else {
        None
    }
}

fn number_exec(s: &Vec<char>, i: usize) -> (r: Parsed<()>)
    requires
        i <= s.len(),
    ensures
        same_unit(r, number_at(s@, i as int)),
        r matches Parsed::Done(j, _) ==> i < j <= s.len(),
{
    let k = if i < s.len() && (s[i] == '+' || s[i] == '-') {
        i + 1
    } else {
        i
    };
    match mantissa_exec(s, k) {
        None => {
            if word_exec(s, i, 'n', 'a', 'n') || word_exec(s, i, 'i', 'n', 'f') {
                Parsed::Done(i + 3, ())
            } else {
                Parsed::Mismatch
            }
        },
        Some(m) => {
            if char_at_exec(s, m, 'e') || char_at_exec(s, m, 'E') {
                let p = if m + 1 < s.len() && (s[m + 1] == '+' || s[m + 1] == '-') {
                    m + 2
                } else {
                    m + 1
                };
                let q = digits_end_exec(s, p);
                proof {
                    lemma_digits_end(s@, p as int);
                }
                if q == p {
                    Parsed::Failure
                } else {
                    Parsed::Done(q, ())
                }
            } else {
                Parsed::Done(m, ())
            }
        },
    }
}


// ---------------------------------------------------------------------
// Expressions

proof fn lemma_application_view(name: String, args: Vec<Formula>)
    ensures
        Formula::Application(name, args).spec_view() == SpecFormula::Application(
            name@,
            views(args@),
        ),
{
    let f = Formula::Application(name, args);
    let v = f.spec_view();
    match v {
        SpecFormula::Application(n, a) => {
            assert(n == name@);
            assert(a =~= views(args@));
        },
        _ => {},
    }
}

fn expr_exec(s: &Vec<char>, i: usize) -> (r: Parsed<Formula>)
    requires
        i <= s.len(),
    ensures
        same_formula(r, expr_at(s@, i as int)),
    decreases 2 * (s.len() - i) + 1, 0int,
{
    match coord_exec(s, i) {
        Parsed::Overflow => Parsed::Overflow,
        Parsed::Done(j, c1) => {
            if char_at_exec(s, j, ':') {
                match coord_exec(s, j + 1) {
                    Parsed::Done(k, c2) => Parsed::Done(k, Formula::Range(c1, c2)),
                    Parsed::Overflow => Parsed::Overflow,
                    _ => Parsed::Done(j, Formula::Coord(c1)),
                }
            } else {
                Parsed::Done(j, Formula::Coord(c1))
            }
        },
        _ => match number_exec(s, i) {
            Parsed::Done(j, _) => {
                let text = string_of(s, i, j);
                Parsed::Done(j, Formula::Number(text))
            },
            Parsed::Failure => Parsed::Failure,
            _ => application_exec(s, i),
        },
    }
}

fn application_exec(s: &Vec<char>, i: usize) -> (r: Parsed<Formula>)
    requires
        i <= s.len(),
    ensures
        same_formula(r, application_at(s@, i as int)),
    decreases 2 * (s.len() - i), 1int,
{
    let a = letters_end_exec(s, i);
    proof {
        lemma_letters_end(s@, i as int);
    }
    let p = spaces_end_exec(s, a);
    proof {
        lemma_spaces_end(s@, a as int);
    }
    if a == i || !char_at_exec(s, p, '(') {
        return Parsed::Mismatch;
    }
    match arguments_exec(s, p + 1) {
        Parsed::Done(j, args) => {
            let r = spaces_end_exec(s, j);
            proof {
                lemma_spaces_end(s@, j as int);
            }
            if char_at_exec(s, r, ')') {
                let e = spaces_end_exec(s, r + 1);
                let name = string_of(s, i, a);
                proof {
                    lemma_application_view(name, args);
                }
                Parsed::Done(e, Formula::Application(name, args))
            } else {
                Parsed::Mismatch
            }
        },
        Parsed::Mismatch => Parsed::Mismatch,
        Parsed::Failure => Parsed::Failure,
        Parsed::Overflow => Parsed::Overflow,
    }
}

fn arguments_exec(s: &Vec<char>, p: usize) -> (r: Parsed<Vec<Formula>>)
    requires
        p <= s.len(),
    ensures
        same_args(r, arguments_at(s@, p as int)),
        r matches Parsed::Done(j, _) ==> p < j <= s.len(),
    decreases 2 * (s.len() - p) + 1, 1int,
{
    let q = spaces_end_exec(s, p);
    proof {
        lemma_spaces_end(s@, p as int);
    }
    match expr_exec(s, q) {
        Parsed::Done(j0, f0) => {
            if !(q < j0 && j0 <= s.len()) {
                return Parsed::Mismatch;
            }
            let ghost first = f0.spec_view();
            let mut acc: Vec<Formula> = Vec::new();
            acc.push(f0);
            assert(views(acc@) =~= seq![first]);
            let mut j = j0;
            loop
                invariant
                    p < j <= s.len(),
                    arguments_at(s@, p as int) == more_arguments(s@, j0 as int, seq![first]),
                    more_arguments(s@, j0 as int, seq![first]) == more_arguments(
                        s@,
                        j as int,
                        views(acc@),
                    ),
                decreases s.len() - j,
            {
                let r = spaces_end_exec(s, j);
                proof {
                    lemma_spaces_end(s@, j as int);
                }
                if !char_at_exec(s, r, ',') {
                    return Parsed::Done(j, acc);
                }
                let q2 = spaces_end_exec(s, r + 1);
                proof {
                    lemma_spaces_end(s@, r + 1);
                }
                match expr_exec(s, q2) {
                    Parsed::Done(k, f) => {
                        if q2 < k && k <= s.len() {
                            let ghost before = views(acc@);
                            let ghost fv = f.spec_view();
                            acc.push(f);
                            assert(views(acc@) =~= before.push(fv));
                            j = k;
                        } else {
                            return Parsed::Done(j, acc);
                        }
                    },
                    Parsed::Mismatch => {
                        return Parsed::Done(j, acc);
                    },
                    Parsed::Failure => {
                        return Parsed::Failure;
                    },
                    Parsed::Overflow => {
                        return Parsed::Overflow;
                    },
                }
            }
        },
        Parsed::Mismatch => Parsed::Mismatch,
        Parsed::Failure => Parsed::Failure,
        Parsed::Overflow => Parsed::Overflow,
    }
}


// ---------------------------------------------------------------------
// Whole texts

fn single_line_exec(s: &Vec<char>) -> (b: bool)
    ensures
        b == single_line(s@),
{
    let mut k: usize = 0;
    while k < s.len()
        invariant
            k <= s.len(),
            forall|m: int| 0 <= m < k ==> s@[m] != '\r' && s@[m] != '\n',
        decreases s.len() - k,
    {
        if s[k] == '\r' || s[k] == '\n' {
            return false;
        }
        k = k + 1;
    }
    true
}

fn formula_exec(s: &Vec<char>) -> (r: Parsed<Formula>)
    ensures
        same_formula(r, formula_of(s@)),
{
    if char_at_exec(s, 0, '=') {
        let q = spaces_end_exec(s, 1);
        proof {
            lemma_spaces_end(s@, 1);
        }
        match expr_exec(s, q) {
            Parsed::Done(j, f) => if j == s.len() {
                Parsed::Done(j, f)
            } else {
                Parsed::Failure
            },
            Parsed::Overflow => Parsed::Overflow,
            _ => Parsed::Failure,
        }
    } else if s.len() == 0 {
        Parsed::Done(0, Formula::Empty)
    } else {
        match number_exec(s, 0) {
            Parsed::Done(j, _) => if j == s.len() {
                let text = string_of(s, 0, j);
                assert(s@.subrange(0, j as int) =~= s@);
                Parsed::Done(j, Formula::Number(text))
            } else if single_line_exec(s) {
                let text = string_of(s, 0, s.len());
                assert(s@.subrange(0, s.len() as int) =~= s@);
                Parsed::Done(s.len(), Formula::Label(text))
            } else {
                Parsed::Mismatch
            },
            Parsed::Failure => Parsed::Failure,
            _ => if single_line_exec(s) {
                let text = string_of(s, 0, s.len());
                assert(s@.subrange(0, s.len() as int) =~= s@);
                Parsed::Done(s.len(), Formula::Label(text))
            } else {
                Parsed::Mismatch
            },
        }
    }
}

impl Coord {
    pub fn new(row: usize, col: usize) -> (c: Coord)
        ensures
            c == (Coord { row, col }),
    {
        Coord { row, col }
    }

    /// True when reading a coordinate at the start of `input` would meet a
    /// column or row number too large for `usize`.
    pub fn parse_overflows(input: &str) -> (b: bool)
        ensures
            b == (coord_at(input@, 0) is Overflow),
    {
        let s = chars_of(input);
        match coord_exec(&s, 0) {
            Parsed::Overflow => true,
            _ => false,
        }
    }

    /// Reads a coordinate at the start of `input`: letters for the column,
    /// then a positive row number. Returns the rest of the input.
    pub fn parse(input: &str) -> (r: Result<(&str, Coord), ParseError>)
        requires
            !(coord_at(input@, 0) is Overflow),
        ensures
            match r {
                Ok((rest, c)) => exists|j: int|
                    coord_at(input@, 0) == Outcome::Done(j, c) && rest@ == input@.subrange(
                        j,
                        input@.len() as int,
                    ),
                Err(e) => e == ParseError::Error && coord_at(input@, 0) is Mismatch,
            },
    {
        let s = chars_of(input);
        match coord_exec(&s, 0) {
            Parsed::Done(j, c) => {
                let rest = input.substring_char(j, s.len());
                Ok((rest, c))
            },
            _ => Err(ParseError::Error),
        }
    }
}

impl Formula {
    /// True when parsing `input` would meet a column or row number too
    /// large for `usize`.
    pub fn parse_overflows(input: &str) -> (b: bool)
        ensures
            b == (formula_of(input@) is Overflow),
    {
        let s = chars_of(input);
        match formula_exec(&s) {
            Parsed::Overflow => true,
            _ => false,
        }
    }

    /// Parses the whole text of a cell (see `grammar::formula_of`). On
    /// success the rest of the input is empty.
    pub fn parse(input: &str) -> (r: Result<(&str, Formula), ParseError>)
        requires
            !(formula_of(input@) is Overflow),
        ensures
            match r {
                Ok((rest, f)) => formula_of(input@) == Outcome::Done(
                    input@.len() as int,
                    f.spec_view(),
                ) && rest@ == Seq::<char>::empty(),
                Err(ParseError::Failure) => formula_of(input@) is Failure,
                Err(ParseError::Error) => formula_of(input@) is Mismatch,
            },
    {
        let s = chars_of(input);
        match formula_exec(&s) {
            Parsed::Done(j, f) => {
                let rest = input.substring_char(s.len(), s.len());
                assert(rest@ =~= Seq::<char>::empty());
                Ok((rest, f))
            },
            Parsed::Failure => Err(ParseError::Failure),
            _ => Err(ParseError::Error),
        }
    }
}

} // verus!
