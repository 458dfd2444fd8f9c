use faye::host::Host;
use faye::lexer::{ErrorKind as LexerErrorKind, Symbol};
use faye::parser::{Error, ErrorKind, Node, NodeKind, Parser};

struct Ieee;

impl Host for Ieee {
    fn parse_number(&self, text: &str) -> Option<u64> {
        text.parse::<f64>().ok().map(f64::to_bits)
    }

    fn format_number(&self, number: u64) -> String {
        format!("{}", f64::from_bits(number))
    }

    fn sum(&self, numbers: &Vec<u64>) -> u64 {
        numbers.iter().map(|n| f64::from_bits(*n)).sum::<f64>().to_bits()
    }

    fn product(&self, numbers: &Vec<u64>) -> u64 {
        numbers.iter().map(|n| f64::from_bits(*n)).product::<f64>().to_bits()
    }

    fn subtract(&self, a: u64, b: u64) -> u64 {
        (f64::from_bits(a) - f64::from_bits(b)).to_bits()
    }

    fn divide(&self, a: u64, b: u64) -> u64 {
        (f64::from_bits(a) / f64::from_bits(b)).to_bits()
    }

    fn truncate(&self, number: u64) -> usize {
        f64::from_bits(number) as usize
    }

    fn from_digit(&self, digit: u32) -> u64 {
        f64::from(digit).to_bits()
    }

    fn print_line(&self, _text: &str) -> bool {
        false
    }
}

/// A node with the line and column at which it starts and ends.
#[derive(Debug, PartialEq)]
struct At(Kind, (usize, usize), (usize, usize));

#[derive(Debug, PartialEq)]
enum Kind {
    Number(f64),
    Bool(bool),
    String(String),
    Char(char),
    Symbol(Symbol),
    Keyword(Symbol),
    List(Vec<At>),
    Vector(Vec<At>),
    Nil,
}

fn at(node: &Node) -> At {
    let kind = match &node.kind {
        NodeKind::Number(n) => Kind::Number(f64::from_bits(*n)),
        NodeKind::Bool(b) => Kind::Bool(*b),
        NodeKind::String(s) => Kind::String(s.clone()),
        NodeKind::Char(c) => Kind::Char(*c),
        NodeKind::Symbol(s) => Kind::Symbol(s.clone()),
        NodeKind::Keyword(s) => Kind::Keyword(s.clone()),
        NodeKind::List(v) => Kind::List(v.iter().map(at).collect()),
        NodeKind::Vector(v) => Kind::Vector(v.iter().map(at).collect()),
        NodeKind::Nil => Kind::Nil,
    };
    let start = node.span.location();
    let end = node.span.end_location();
    At(kind, (start.line, start.column), (end.line, end.column))
}

fn parse(input: &str) -> Result<Vec<At>, Error> {
    Parser::new(input).parse(&Ieee).map(|forest| forest.iter().map(at).collect())
}

#[test]
fn parse_list() {
    let res = parse("(+ 1 2)");
    assert_eq!(
        res,
        Ok(vec![At(
            Kind::List(vec![
                At(Kind::Symbol(Symbol::from("+")), (0, 1), (0, 2)),
                At(Kind::Number(1.), (0, 3), (0, 4)),
                At(Kind::Number(2.), (0, 5), (0, 6)),
            ]),
            (0, 0),
            (0, 7),
        )])
    );
}

#[test]
fn parse_nested_list() {
    let res = parse("(+ 2.5 64 (* 2 3))");
    assert_eq!(
        res,
        Ok(vec![At(
            Kind::List(vec![
                At(Kind::Symbol(Symbol::from("+")), (0, 1), (0, 2)),
                At(Kind::Number(2.5), (0, 3), (0, 6)),
                At(Kind::Number(64.), (0, 7), (0, 9)),
                At(
                    Kind::List(vec![
                        At(Kind::Symbol(Symbol::from("*")), (0, 11), (0, 12)),
                        At(Kind::Number(2.), (0, 13), (0, 14)),
                        At(Kind::Number(3.), (0, 15), (0, 16)),
                    ]),
                    (0, 10),
                    (0, 17)
                ),
            ]),
            (0, 0),
            (0, 18)
        )])
    );
}

#[test]
fn parse_multiple_expressions() {
    let res = parse("(/ 6 3 (+ 1 2)) (* 2 5)\n(- 10 5)");
    assert_eq!(
        res,
        Ok(vec![
            At(
                Kind::List(vec![
                    At(Kind::Symbol(Symbol::from("/")), (0, 1), (0, 2)),
                    At(Kind::Number(6.), (0, 3), (0, 4)),
                    At(Kind::Number(3.), (0, 5), (0, 6)),
                    At(
                        Kind::List(vec![
                            At(Kind::Symbol(Symbol::from("+")), (0, 8), (0, 9)),
                            At(Kind::Number(1.), (0, 10), (0, 11)),
                            At(Kind::Number(2.), (0, 12), (0, 13)),
                        ]),
                        (0, 7),
                        (0, 14),
                    ),
                ]),
                (0, 0),
                (0, 15),
            ),
            At(
                Kind::List(vec![
                    At(Kind::Symbol(Symbol::from("*")), (0, 17), (0, 18)),
                    At(Kind::Number(2.), (0, 19), (0, 20)),
                    At(Kind::Number(5.), (0, 21), (0, 22)),
                ]),
                (0, 16),
                (0, 16 + 7),
            ),
            At(
                Kind::List(vec![
                    At(Kind::Symbol(Symbol::from("-")), (1, 1), (1, 2)),
                    At(Kind::Number(10.), (1, 3), (1, 5)),
                    At(Kind::Number(5.), (1, 6), (1, 7)),
                ]),
                (1, 0),
                (1, 8),
            ),
        ])
    );
}

#[test]
fn parse_float() {
    let res = parse("(2.500000)");
    assert_eq!(
        res,
        Ok(vec![At(
            Kind::List(vec![At(Kind::Number(2.5), (0, 1), (0, 9))]),
            (0, 0),
            (0, 10),
        )])
    );
}

#[test]
fn parse_empty() {
    let res = parse("");
    assert_eq!(res, Ok(Vec::new()));
}

#[test]
fn error_invalid_number() {
    let res = parse("(+ 1.2.3)");
    let err = res.unwrap_err();
    let start = err.span.location();
    let end = err.span.end_location();
    assert_eq!(((start.line, start.column), (end.line, end.column)), ((0, 3), (0, 8)));
    match err.kind {
        ErrorKind::Lexer(inner) => {
            assert_eq!(inner.kind, LexerErrorKind::InvalidNumber("1.2.3".into()));
            let start = inner.span.location();
            let end = inner.span.end_location();
            assert_eq!(((start.line, start.column), (end.line, end.column)), ((0, 3), (0, 8)));
        }
        other => panic!("{other:?}"),
    }
}

#[test]
fn error_unexpected_close_paren() {
    let res = parse(")");
    let err = res.unwrap_err();
    let start = err.span.location();
    let end = err.span.end_location();
    assert_eq!(err.kind, ErrorKind::UnexpectedCloseBracket);
    assert_eq!(((start.line, start.column), (end.line, end.column)), ((0, 0), (0, 1)));
}
