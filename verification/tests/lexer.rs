use faye::host::Host;
use faye::lexer::{Error, ErrorKind, Lexer, Symbol, Token, TokenKind};
use faye::span::Location;

struct Ieee;

impl Host for Ieee {
    fn parse_number(&self, text: &str) -> Option<u64> {
        text.parse::<f64>().ok().map(f64::to_bits)
    }

    fn format_number(&self, number: u64) -> String {
        format!("{}", f64::from_bits(number))
    }

    fn sum(&self, numbers: &Vec<u64>) -> u64 {
        numbers.iter().map(|n| f64::from_bits(*n)).sum::<f64>().to_bits()
    }

    fn product(&self, numbers: &Vec<u64>) -> u64 {
        numbers.iter().map(|n| f64::from_bits(*n)).product::<f64>().to_bits()
    }

    fn subtract(&self, a: u64, b: u64) -> u64 {
        (f64::from_bits(a) - f64::from_bits(b)).to_bits()
    }

    fn divide(&self, a: u64, b: u64) -> u64 {
        (f64::from_bits(a) / f64::from_bits(b)).to_bits()
    }

    fn truncate(&self, number: u64) -> usize {
        f64::from_bits(number) as usize
    }

    fn from_digit(&self, digit: u32) -> u64 {
        f64::from(digit).to_bits()
    }

    fn print_line(&self, _text: &str) -> bool {
        false
    }
}

fn number(value: f64) -> TokenKind {
    TokenKind::Number(value.to_bits())
}

fn located(item: Option<Result<Token, Error>>) -> Option<Result<(TokenKind, (usize, usize), (usize, usize)), (ErrorKind, (usize, usize), (usize, usize))>> {
    item.map(|r| match r {
        Ok(t) => {
            let start = t.span.location();
            let end = t.span.end_location();
            Ok((t.kind, (start.line, start.column), (end.line, end.column)))
        }
        Err(e) => {
            let start = e.span.location();
            let end = e.span.end_location();
            Err((e.kind, (start.line, start.column), (end.line, end.column)))
        }
    })
}

#[test]
fn lex() {
    let mut lexer = Lexer::new("(+ 14 25.5 333 (* 2 5))");

    assert_eq!(located(lexer.next(&Ieee)), Some(Ok((TokenKind::OpenParen, (0, 0), (0, 1)))));
    assert_eq!(
        located(lexer.next(&Ieee)),
        Some(Ok((TokenKind::Symbol(Symbol::from("+")), (0, 1), (0, 2))))
    );
    assert_eq!(located(lexer.next(&Ieee)), Some(Ok((number(14.), (0, 3), (0, 5)))));
    assert_eq!(located(lexer.next(&Ieee)), Some(Ok((number(25.5), (0, 6), (0, 10)))));
    assert_eq!(located(lexer.next(&Ieee)), Some(Ok((number(333.), (0, 11), (0, 14)))));
    assert_eq!(located(lexer.next(&Ieee)), Some(Ok((TokenKind::OpenParen, (0, 15), (0, 16)))));
    assert_eq!(
        located(lexer.next(&Ieee)),
        Some(Ok((TokenKind::Symbol(Symbol::from("*")), (0, 16), (0, 17))))
    );
    assert_eq!(located(lexer.next(&Ieee)), Some(Ok((number(2.), (0, 18), (0, 19)))));
    assert_eq!(located(lexer.next(&Ieee)), Some(Ok((number(5.), (0, 20), (0, 21)))));
    assert_eq!(located(lexer.next(&Ieee)), Some(Ok((TokenKind::CloseParen, (0, 21), (0, 22)))));
    assert_eq!(located(lexer.next(&Ieee)), Some(Ok((TokenKind::CloseParen, (0, 22), (0, 23)))));
    assert_eq!(located(lexer.next(&Ieee)), None);
}

#[test]
fn newline() {
    let mut lexer = Lexer::new("(+ 14 25.5 333\n(* 2 5 5.x))");

    assert_eq!(located(lexer.next(&Ieee)), Some(Ok((TokenKind::OpenParen, (0, 0), (0, 1)))));
    assert_eq!(
        located(lexer.next(&Ieee)),
        Some(Ok((TokenKind::Symbol(Symbol::from("+")), (0, 1), (0, 2))))
    );
    assert_eq!(located(lexer.next(&Ieee)), Some(Ok((number(14.), (0, 3), (0, 5)))));
    assert_eq!(located(lexer.next(&Ieee)), Some(Ok((number(25.5), (0, 6), (0, 10)))));
    assert_eq!(located(lexer.next(&Ieee)), Some(Ok((number(333.), (0, 11), (0, 14)))));
    assert_eq!(located(lexer.next(&Ieee)), Some(Ok((TokenKind::OpenParen, (1, 0), (1, 1)))));
    assert_eq!(
        located(lexer.next(&Ieee)),
        Some(Ok((TokenKind::Symbol(Symbol::from("*")), (1, 1), (1, 2))))
    );
    assert_eq!(located(lexer.next(&Ieee)), Some(Ok((number(2.), (1, 3), (1, 4)))));
    assert_eq!(located(lexer.next(&Ieee)), Some(Ok((number(5.), (1, 5), (1, 6)))));
    assert_eq!(
        located(lexer.next(&Ieee)),
        Some(Err((ErrorKind::InvalidNumber("5.x".into()), (1, 7), (1, 10))))
    );
}

#[test]
fn negative_minus() {
    let mut lexer = Lexer::new("(- 1 -2 3)");

    assert_eq!(located(lexer.next(&Ieee)), Some(Ok((TokenKind::OpenParen, (0, 0), (0, 1)))));
    assert_eq!(
        located(lexer.next(&Ieee)),
        Some(Ok((TokenKind::Symbol(Symbol::from("-")), (0, 1), (0, 2))))
    );
    assert_eq!(located(lexer.next(&Ieee)), Some(Ok((number(1.), (0, 3), (0, 4)))));
    assert_eq!(located(lexer.next(&Ieee)), Some(Ok((number(-2.), (0, 5), (0, 7)))));
    assert_eq!(located(lexer.next(&Ieee)), Some(Ok((number(3.), (0, 8), (0, 9)))));
    assert_eq!(located(lexer.next(&Ieee)), Some(Ok((TokenKind::CloseParen, (0, 9), (0, 10)))));
    assert_eq!(located(lexer.next(&Ieee)), None);
}

#[test]
fn error_parse_numbers() {
    let mut lexer = Lexer::new("2 55 3.144 0.0001 1.1.1");

    assert_eq!(located(lexer.next(&Ieee)), Some(Ok((number(2.), (0, 0), (0, 1)))));
    assert_eq!(located(lexer.next(&Ieee)), Some(Ok((number(55.), (0, 2), (0, 4)))));
    assert_eq!(located(lexer.next(&Ieee)), Some(Ok((number(3.144), (0, 5), (0, 10)))));
    assert_eq!(located(lexer.next(&Ieee)), Some(Ok((number(0.0001), (0, 11), (0, 17)))));
    assert_eq!(
        located(lexer.next(&Ieee)),
        Some(Err((ErrorKind::InvalidNumber("1.1.1".into()), (0, 18), (0, 18 + 5))))
    );
}

#[test]
fn error_unclosed_string() {
    let mut lexer = Lexer::new("\"hiii");

    assert_eq!(
        located(lexer.next(&Ieee)),
        Some(Err((ErrorKind::UnclosedString, (0, 0), (0, 1))))
    );
}

#[test]
fn error_invalid_string() {
    let mut lexer = Lexer::new("\"hiii\"222");

    assert_eq!(
        located(lexer.next(&Ieee)),
        Some(Err((ErrorKind::InvalidString, (0, 0), (0, 9))))
    );
}
