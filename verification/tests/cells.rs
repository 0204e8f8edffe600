use fldemos::cell_parser::ParseError;
use fldemos::functions::Function;
use fldemos::grammar::{Coord, Formula};
use fldemos::sheet::Spreadsheet;

fn coord(s: &str) -> Coord {
    Coord::parse(s).unwrap().1
}

fn number(f: &Formula) -> f32 {
    match f {
        Formula::Number(text) => text.parse().unwrap(),
        _ => panic!("not a number: {:?}", f),
    }
}

fn parsed(s: &str) -> Formula {
    let (rest, f) = Formula::parse(s).unwrap();
    assert_eq!(rest, "");
    f
}

fn sheet(cells: &[(&str, &str)]) -> Spreadsheet {
    let mut s = Spreadsheet::new();
    for (key, value) in cells {
        s.set_text(coord(key), value);
    }
    s
}

#[test]
fn coord_parsing_works() {
    assert!(Coord::parse("A0").is_err());
    assert_eq!(Coord::parse("a1"), Ok(("", Coord::new(0, 0))));
    assert_eq!(Coord::parse("A1"), Ok(("", Coord::new(0, 0))));
    assert_eq!(Coord::parse("B2"), Ok(("", Coord::new(1, 1))));
    assert_eq!(Coord::parse("Z99"), Ok(("", Coord::new(98, 25))));
}

#[test]
fn formula_references_works() {
    assert_eq!(Formula::Number("1.0".to_string()).references(), []);
    assert_eq!(Formula::Coord(coord("A1")).references(), [coord("A1")]);
    assert_eq!(
        Formula::Range(coord("A1"), coord("B2")).references(),
        [coord("A1"), coord("A2"), coord("B1"), coord("B2")]
    );
    assert_eq!(
        Formula::Range(coord("B2"), coord("A1")).references(),
        [coord("A1"), coord("A2"), coord("B1"), coord("B2")]
    );
    assert_eq!(
        Formula::Application(
            "sum".to_string(),
            vec![
                Formula::Coord(coord("A1")),
                Formula::Range(coord("B1"), coord("C1"))
            ]
        )
        .references(),
        [coord("A1"), coord("B1"), coord("C1")]
    );
}

#[test]
fn formula_parsing_works() {
    assert_eq!(number(&parsed("1.0")), 1.0);
    assert_eq!(number(&parsed("1.1")), 1.1);
    assert_eq!(number(&parsed("10")), 10.0);
    assert_eq!(parsed("1.0foo"), Formula::Label("1.0foo".to_string()));
    assert_eq!(parsed("foo"), Formula::Label("foo".to_string()));
    assert_eq!(parsed(""), Formula::Empty);
    assert_eq!(number(&parsed("=1.0")), 1.0);
    assert!(Formula::parse("=1.0foo").is_err());
    assert_eq!(parsed("=A1"), Formula::Coord(coord("A1")));
    assert_eq!(parsed("=A2"), Formula::Coord(coord("A2")));
    assert_eq!(parsed("=A2:C4"), Formula::Range(coord("A2"), coord("C4")));
    let f = parsed("=sum(A1,sub(A2,1.0))");
    assert_eq!(
        f,
        Formula::Application(
            "sum".to_string(),
            vec![
                Formula::Coord(coord("A1")),
                Formula::Application(
                    "sub".to_string(),
                    vec![Formula::Coord(coord("A2")), Formula::Number("1.0".to_string())],
                )
            ],
        )
    );
    match &f {
        Formula::Application(_, args) => match &args[1] {
            Formula::Application(_, inner) => assert_eq!(number(&inner[1]), 1.0),
            _ => panic!(),
        },
        _ => panic!(),
    }
    assert_eq!(
        parsed("= sum ( A1 , A2 ) "),
        Formula::Application(
            "sum".to_string(),
            vec![Formula::Coord(coord("A1")), Formula::Coord(coord("A2"))]
        )
    );
}

#[test]
fn old_cell_references_are_removed() {
    let mut sheet = sheet(&[("A1", "1"), ("B1", "=A1")]);
    sheet.set_text(coord("B1"), "2");
    assert!(sheet.get(coord("A1")).unwrap().subscribers.is_empty())
}

#[test]
fn new_references_subscribe() {
    let sheet = sheet(&[("A1", "1"), ("B1", "=sum(A1:A2, C3)")]);
    assert_eq!(sheet.cell(coord("A1")).subscribers, vec![coord("B1")]);
    assert_eq!(sheet.cell(coord("A2")).subscribers, vec![coord("B1")]);
    assert_eq!(sheet.cell(coord("C3")).subscribers, vec![coord("B1")]);
    assert!(sheet.cell(coord("B1")).subscribers.is_empty());
    assert_eq!(sheet.cell(coord("B1")).text, "=sum(A1:A2, C3)");
    assert!(sheet.get(coord("D4")).is_none());
    assert_eq!(sheet.cell(coord("D4")).formula, Formula::Empty);
}

#[test]
fn unparsable_text_is_invalid() {
    let sheet = sheet(&[("A1", "=1e"), ("A2", "=A1:"), ("A3", "two\nlines"), ("A4", "1e")]);
    assert_eq!(sheet.cell(coord("A1")).formula, Formula::Invalid);
    assert_eq!(sheet.cell(coord("A2")).formula, Formula::Invalid);
    assert_eq!(sheet.cell(coord("A3")).formula, Formula::Invalid);
    assert_eq!(sheet.cell(coord("A4")).formula, Formula::Invalid);
}

#[test]
fn parse_errors_are_classified() {
    assert_eq!(Formula::parse("=1.0foo"), Err(ParseError::Failure));
    assert_eq!(Formula::parse("1e5x"), Ok(("", Formula::Label("1e5x".to_string()))));
    assert_eq!(Formula::parse("1e"), Err(ParseError::Failure));
    assert_eq!(Formula::parse("a\r\nb"), Err(ParseError::Error));
    assert_eq!(number(&parsed("-.5e+2")), -50.0);
    assert!(number(&parsed("NaN")).is_nan());
    assert_eq!(parsed("infinity"), Formula::Label("infinity".to_string()));
    assert_eq!(parsed("=aa10"), Formula::Coord(Coord::new(9, 360)));
}

#[test]
fn overflowing_coordinates_are_reported() {
    assert!(Formula::parse_overflows("=abcdefghijklmnop(A1)"));
    assert!(Formula::parse_overflows("=A99999999999999999999999"));
    assert!(!Formula::parse_overflows("=sum(A1)"));
    assert!(Coord::parse_overflows("ZZZZZZZZZZZZZZZZ1"));
    assert!(!Coord::parse_overflows("Z99"));
}

#[test]
fn functions_are_classified() {
    assert_eq!(Function::classify("ADD", 2), Some(Function::Add));
    assert_eq!(Function::classify("add", 1), None);
    assert_eq!(Function::classify("Sum", 0), Some(Function::Sum));
    assert_eq!(Function::classify("prod", 3), Some(Function::Prod));
    assert_eq!(Function::classify("mod", 2), Some(Function::Mod));
    assert_eq!(Function::classify("div", 2), Some(Function::Div));
    assert_eq!(Function::classify("mul", 2), Some(Function::Mul));
    assert_eq!(Function::classify("sub", 2), Some(Function::Sub));
    assert_eq!(Function::classify("FOOBAR", 0), None);
}

#[test]
fn a_cell_reads_back_what_was_written() {
    let mut s = Spreadsheet::new();
    s.set_text(coord("B2"), "=A1");
    s.set_text(coord("C3"), "hello");
    assert_eq!(s.cell(coord("B2")).text, "=A1");
    assert_eq!(s.cell(coord("B2")).formula, Formula::Coord(coord("A1")));
    assert_eq!(s.cell(coord("C3")).formula, Formula::Label("hello".to_string()));
    assert_eq!(s.cell(coord("D4")).text, "");
}

#[test]
fn range_with_crossed_corners_lists_its_rectangle_once() {
    let expected = [coord("A1"), coord("A2"), coord("A3"), coord("B1"), coord("B2"), coord("B3")];
    assert_eq!(Formula::Range(coord("A3"), coord("B1")).references(), expected);
    assert_eq!(Formula::Range(coord("B1"), coord("A3")).references(), expected);
}
