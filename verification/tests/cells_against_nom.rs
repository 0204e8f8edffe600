//! The cell grammar compared with a parser written with nom's combinators.
use fldemos::grammar::{Coord, Formula};
use nom::branch::alt;
use nom::bytes::complete::tag;
use nom::character::complete::{alpha1, digit1, multispace0, not_line_ending};
use nom::combinator;
use nom::combinator::{all_consuming, cut, eof, verify};
use nom::multi::separated_list1;
use nom::number::complete::float;
use nom::sequence::{delimited, pair, preceded, separated_pair, terminated, tuple};
use std::str::FromStr;

#[derive(Debug, PartialEq)]
enum Reference {
    Empty,
    Coord(usize, usize),
    Range((usize, usize), (usize, usize)),
    Number(f32),
    Label(String),
    Application(String, Vec<Reference>),
}

fn coord_ref(input: &str) -> nom::IResult<&str, (usize, usize)> {
    let alpha = combinator::map(alpha1, |s| {
        usize::from_str_radix(s, 36).unwrap() - usize::from_str_radix("A", 36).unwrap()
    });
    let num = verify(combinator::map(digit1, |s| usize::from_str(s).unwrap()), |num| *num > 0);
    combinator::map(tuple((alpha, num)), |(col, row)| (row - 1, col))(input)
}

fn formula_ref(input: &str) -> nom::IResult<&str, Reference> {
    alt((
        preceded(tag("="), cut(all_consuming(preceded(multispace0, expr_ref)))),
        combinator::map(eof, |_| Reference::Empty),
        combinator::map(all_consuming(float), Reference::Number),
        combinator::map(all_consuming(not_line_ending), |s: &str| {
            Reference::Label(s.to_string())
        }),
    ))(input)
}

fn expr_ref(input: &str) -> nom::IResult<&str, Reference> {
    alt((
        combinator::map(separated_pair(coord_ref, tag(":"), coord_ref), |(a, b)| {
            Reference::Range(a, b)
        }),
        combinator::map(coord_ref, |(r, c)| Reference::Coord(r, c)),
        combinator::map(float, Reference::Number),
        combinator::map(
            pair(
                alpha1,
                terminated(
                    delimited(
                        preceded(multispace0, tag("(")),
                        separated_list1(
                            preceded(multispace0, tag(",")),
                            preceded(multispace0, expr_ref),
                        ),
                        preceded(multispace0, tag(")")),
                    ),
                    multispace0,
                ),
            ),
            |(name, args)| Reference::Application(name.to_string(), args),
        ),
    ))(input)
}

fn convert(f: &Formula) -> Reference {
    match f {
        Formula::Empty => Reference::Empty,
        Formula::Coord(c) => Reference::Coord(c.row, c.col),
        Formula::Range(a, b) => Reference::Range((a.row, a.col), (b.row, b.col)),
        Formula::Number(t) => Reference::Number(t.parse().unwrap()),
        Formula::Label(l) => Reference::Label(l.clone()),
        Formula::Application(n, args) => {
            Reference::Application(n.clone(), args.iter().map(convert).collect())
        }
        Formula::Invalid => panic!("no invalid formula comes out of a parse"),
    }
}

fn same(a: &Reference, b: &Reference) -> bool {
    match (a, b) {
        (Reference::Number(x), Reference::Number(y)) => {
            (x.is_nan() && y.is_nan()) || x == y
        }
        (Reference::Application(n, xs), Reference::Application(m, ys)) => {
            n == m && xs.len() == ys.len() && xs.iter().zip(ys).all(|(x, y)| same(x, y))
        }
        _ => a == b,
    }
}

fn check(input: &str) {
    if Formula::parse_overflows(input) {
        return;
    }
    let ours = Formula::parse(input);
    let theirs = formula_ref(input);
    match (&ours, &theirs) {
        (Ok((r1, f)), Ok((r2, g))) => {
            assert_eq!(r1, r2, "rest differs on {:?}", input);
            assert!(same(&convert(f), g), "{:?}: {:?} vs {:?}", input, f, g);
        }
        (Err(e), Err(nom::Err::Failure(_))) => {
            assert_eq!(*e, fldemos::cell_parser::ParseError::Failure, "{:?}", input)
        }
        (Err(e), Err(nom::Err::Error(_))) => {
            assert_eq!(*e, fldemos::cell_parser::ParseError::Error, "{:?}", input)
        }
        _ => panic!("{:?}: {:?} vs {:?}", input, ours, theirs),
    }
}

#[test]
fn agrees_with_combinator_parser() {
    let pieces = [
        "=", " ", "A", "b", "1", "0", "9", ":", ",", "(", ")", ".", "e", "E", "+", "-", "sum",
        "nan", "INF", "\n", "\r", "x", "Z", "12", "\t",
    ];
    let mut seed: u64 = 0x2545f4914f6cdd1d;
    for _ in 0..40000 {
        seed ^= seed << 13;
        seed ^= seed >> 7;
        seed ^= seed << 17;
        let len = (seed % 9) as usize;
        let mut input = String::new();
        let mut k = seed;
        for _ in 0..len {
            k = k.wrapping_mul(6364136223846793005).wrapping_add(1442695040888963407);
            input.push_str(pieces[((k >> 33) as usize) % pieces.len()]);
        }
        check(&input);
        check(&format!("={}", input));
    }
    for input in [
        "=sum(A1,sub(A2,1.0))",
        "= sum ( A1 , A2 ) ",
        "=prod(A1, )",
        "=f(1,",
        "=inf(1)",
        "=A1:B",
        "1.",
        ".5",
        "+.5e-3",
        "=1e",
        "=nanx(1)",
    ] {
        check(input);
    }
}

#[test]
fn coordinates_agree_with_combinator_parser() {
    for input in ["A0", "a1", "Z99", "AA10x", "a", "1", "", "b007", "B2:C3"] {
        if Coord::parse_overflows(input) {
            continue;
        }
        let ours = Coord::parse(input).map(|(r, c)| (r, (c.row, c.col)));
        let theirs = coord_ref(input);
        assert_eq!(ours.is_ok(), theirs.is_ok(), "{:?}", input);
        if let (Ok(a), Ok(b)) = (ours, theirs) {
            assert_eq!(a, b);
        }
    }
}
