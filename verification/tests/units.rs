use faye::host::Host;
use faye::lexer::{Error, ErrorKind, Lexer, Symbol, Token, TokenKind};
use faye::number;
use faye::parser::{ErrorKind as ParserErrorKind, Node, NodeKind, Parser};
use faye::span::{Location, Source, Span};
use faye::text::{self, Separator};
use std::sync::Arc;

struct Ieee;

impl Host for Ieee {
    fn parse_number(&self, text: &str) -> Option<u64> {
        text.parse::<f64>().ok().map(f64::to_bits)
    }

    fn format_number(&self, number: u64) -> String {
        format!("{}", f64::from_bits(number))
    }

    fn sum(&self, numbers: &Vec<u64>) -> u64 {
        numbers.iter().map(|n| f64::from_bits(*n)).sum::<f64>().to_bits()
    }

    fn product(&self, numbers: &Vec<u64>) -> u64 {
        numbers.iter().map(|n| f64::from_bits(*n)).product::<f64>().to_bits()
    }

    fn subtract(&self, a: u64, b: u64) -> u64 {
        (f64::from_bits(a) - f64::from_bits(b)).to_bits()
    }

    fn divide(&self, a: u64, b: u64) -> u64 {
        (f64::from_bits(a) / f64::from_bits(b)).to_bits()
    }

    fn truncate(&self, number: u64) -> usize {
        f64::from_bits(number) as usize
    }

    fn from_digit(&self, digit: u32) -> u64 {
        f64::from(digit).to_bits()
    }

    fn print_line(&self, _text: &str) -> bool {
        false
    }
}

fn kinds(input: &str) -> Vec<Result<TokenKind, ErrorKind>> {
    let mut lexer = Lexer::new(input);
    let mut out = Vec::new();
    while let Some(item) = lexer.next(&Ieee) {
        out.push(item.map(|t| t.kind).map_err(|e| e.kind));
    }
    out
}

fn spans(input: &str) -> Vec<(usize, usize)> {
    let mut lexer = Lexer::new(input);
    let mut out = Vec::new();
    while let Some(item) = lexer.next(&Ieee) {
        let span = match item {
            Ok(t) => t.span,
            Err(e) => e.span,
        };
        out.push((span.bytes.start, span.bytes.end));
    }
    out
}

fn number_kind(value: f64) -> TokenKind {
    TokenKind::Number(value.to_bits())
}

fn symbol(name: &str) -> TokenKind {
    TokenKind::Symbol(Symbol::from(name))
}

#[test]
fn lex_kinds_only() {
    assert_eq!(
        kinds("(+ 14 25.5 333 (* 2 5))"),
        vec![
            Ok(TokenKind::OpenParen),
            Ok(symbol("+")),
            Ok(number_kind(14.)),
            Ok(number_kind(25.5)),
            Ok(number_kind(333.)),
            Ok(TokenKind::OpenParen),
            Ok(symbol("*")),
            Ok(number_kind(2.)),
            Ok(number_kind(5.)),
            Ok(TokenKind::CloseParen),
            Ok(TokenKind::CloseParen),
        ]
    );
}

#[test]
fn lexer_reads_on_after_an_error() {
    assert_eq!(
        kinds("(* 2 5 5.x))"),
        vec![
            Ok(TokenKind::OpenParen),
            Ok(symbol("*")),
            Ok(number_kind(2.)),
            Ok(number_kind(5.)),
            Err(ErrorKind::InvalidNumber("5.x".into())),
            Ok(TokenKind::CloseParen),
            Ok(TokenKind::CloseParen),
        ]
    );
}

#[test]
fn lex_every_kind() {
    assert_eq!(
        kinds("[ ] , true false nil :key sym 'c' \"s\" ; note"),
        vec![
            Ok(TokenKind::OpenBracket),
            Ok(TokenKind::CloseBracket),
            Ok(TokenKind::Bool(true)),
            Ok(TokenKind::Bool(false)),
            Ok(TokenKind::Nil),
            Ok(TokenKind::Keyword(Symbol::from("key"))),
            Ok(symbol("sym")),
            Ok(TokenKind::Char('c')),
            Ok(TokenKind::String("s".into())),
            Ok(TokenKind::Comment(" note".into())),
        ]
    );
    assert_eq!(kinds(""), vec![]);
    assert_eq!(kinds(" \t\r\n\x0c,, "), vec![]);
    assert_eq!(kinds(":"), vec![Ok(TokenKind::Keyword(Symbol::from("")))]);
    assert_eq!(kinds("truex"), vec![Ok(symbol("truex"))]);
}

#[test]
fn lex_numbers_and_signs() {
    assert_eq!(kinds("+1"), vec![Ok(number_kind(1.))]);
    assert_eq!(kinds("-2.5e3"), vec![Ok(number_kind(-2500.))]);
    assert_eq!(kinds("1e5"), vec![Ok(number_kind(100000.))]);
    assert_eq!(kinds("1."), vec![Ok(number_kind(1.))]);
    assert_eq!(kinds("+"), vec![Ok(symbol("+"))]);
    assert_eq!(kinds("-x"), vec![Ok(symbol("-x"))]);
    assert_eq!(kinds(".5"), vec![Ok(symbol(".5"))]);
    assert_eq!(kinds("inf"), vec![Ok(symbol("inf"))]);
    assert_eq!(kinds("1x"), vec![Err(ErrorKind::InvalidNumber("1x".into()))]);
    assert_eq!(kinds("+1+"), vec![Err(ErrorKind::InvalidNumber("+1+".into()))]);
    assert_eq!(
        kinds("1\"2\""),
        vec![Err(ErrorKind::InvalidNumber("1\"2\"".into()))]
    );
    assert_eq!(spans("  12.5 ,7"), vec![(2, 6), (8, 9)]);
}

#[test]
fn lex_strings() {
    assert_eq!(
        kinds(r#""a\"b\\c\nd\ee""#),
        vec![Ok(TokenKind::String("a\"b\\c\nd\x1be".into()))]
    );
    assert_eq!(kinds(r#""""#), vec![Ok(TokenKind::String("".into()))]);
    assert_eq!(kinds("\"a\nb\""), vec![Ok(TokenKind::String("a\nb".into()))]);
    assert_eq!(
        kinds(r#""a")"#),
        vec![Ok(TokenKind::String("a".into())), Ok(TokenKind::CloseParen)]
    );
    assert_eq!(
        kinds(r#""a\qb""#),
        vec![Err(ErrorKind::InvalidEscape('q')), Ok(symbol("b\""))]
    );
    assert_eq!(spans(r#""a\qb""#), vec![(2, 4), (4, 6)]);
    assert_eq!(kinds(r#""abc"#), vec![Err(ErrorKind::UnclosedString)]);
    assert_eq!(spans(r#" "abc"#), vec![(1, 2)]);
    assert_eq!(kinds(r#""abc\"#), vec![Err(ErrorKind::UnclosedString)]);
    assert_eq!(
        kinds(r#""a"b c"#),
        vec![Err(ErrorKind::InvalidString), Ok(symbol("c"))]
    );
    assert_eq!(spans(r#""a"b c"#), vec![(0, 4), (5, 6)]);
}

#[test]
fn lex_chars() {
    assert_eq!(kinds("'a'"), vec![Ok(TokenKind::Char('a'))]);
    assert_eq!(kinds("'\u{e9}'"), vec![Ok(TokenKind::Char('\u{e9}'))]);
    assert_eq!(spans("'\u{e9}' x"), vec![(0, 4), (5, 6)]);
    assert_eq!(kinds(r"'\n'"), vec![Ok(TokenKind::Char('\n'))]);
    assert_eq!(kinds(r"'\e'"), vec![Ok(TokenKind::Char('\x1b'))]);
    assert_eq!(kinds(r"'\\'"), vec![Ok(TokenKind::Char('\\'))]);
    assert_eq!(kinds(r#"'\"'"#), vec![Ok(TokenKind::Char('"'))]);
    assert_eq!(kinds("' '"), vec![Ok(TokenKind::Char(' '))]);
    assert_eq!(kinds("'''"), vec![Ok(TokenKind::Char('\''))]);
    assert_eq!(kinds("'"), vec![Err(ErrorKind::InvalidChar)]);
    assert_eq!(spans("'"), vec![(0, 1)]);
    assert_eq!(kinds("'a"), vec![Err(ErrorKind::InvalidChar)]);
    assert_eq!(
        kinds("'ab' c"),
        vec![Err(ErrorKind::InvalidChar), Ok(symbol("c"))]
    );
    assert_eq!(spans("'ab' c"), vec![(0, 4), (5, 6)]);
    assert_eq!(kinds("'a)"), vec![Err(ErrorKind::InvalidChar)]);
    assert_eq!(spans("'a)"), vec![(0, 3)]);
    assert_eq!(kinds(r"'\"), vec![Err(ErrorKind::UnclosedChar)]);
    assert_eq!(spans(r"'\"), vec![(0, 2)]);
    assert_eq!(
        kinds(r"'\q'"),
        vec![Err(ErrorKind::InvalidEscape('q')), Err(ErrorKind::InvalidChar)]
    );
    assert_eq!(spans(r"'\q'"), vec![(0, 3), (3, 4)]);
    assert_eq!(
        kinds(r"'\''"),
        vec![Err(ErrorKind::InvalidEscape('\'')), Err(ErrorKind::InvalidChar)]
    );
}

#[test]
fn lex_comments() {
    assert_eq!(
        kinds("a ; b c\nd"),
        vec![
            Ok(symbol("a")),
            Ok(TokenKind::Comment(" b c".into())),
            Ok(symbol("d")),
        ]
    );
    assert_eq!(spans("a ; b c\nd"), vec![(0, 1), (2, 8), (8, 9)]);
    assert_eq!(spans(";x"), vec![(0, 2)]);
    assert_eq!(
        kinds("a;b"),
        vec![Ok(symbol("a")), Ok(TokenKind::Comment("b".into()))]
    );
}

#[test]
fn spans_count_bytes() {
    assert_eq!(
        spans("\u{3bb} \u{1f600}x (\"h\u{e9}\")"),
        vec![(0, 2), (3, 8), (9, 10), (10, 15), (15, 16)]
    );
    let mut lexer = Lexer::new("h\u{e9}llo w");
    let token: Token = lexer.read(&Ieee).unwrap().unwrap();
    assert_eq!(token.kind, symbol("h\u{e9}llo"));
    assert_eq!(token.span.location(), Location::new(0, 0));
    assert_eq!(token.span.end_location(), Location::new(0, 5));
    assert_eq!(lexer.get_unparsed(), " w");
    assert_eq!(lexer.current(), Some(' '));
    assert_eq!(lexer.location(), Location::new(0, 5));
    assert_eq!(lexer.span().bytes, 6..6);
    assert!(lexer.read(&Ieee).unwrap().is_some());
    assert_eq!(lexer.get_unparsed(), "");
    assert_eq!(lexer.current(), None);
    assert_eq!(lexer.read(&Ieee), Ok(None));
    assert_eq!(lexer.read(&Ieee), Ok(None));
}

#[test]
fn lexer_errors_are_sentences() {
    let said: Vec<String> = ["1x", r#""\q""#, r#""a"b"#, r#""a"#, "'ab'", r"'\"]
        .iter()
        .map(|input| {
            let err: Error = Lexer::new(input).read(&Ieee).unwrap_err();
            err.to_string()
        })
        .collect();
    assert_eq!(
        said,
        vec![
            "`1x` is not a valid numeric literal",
            "Unknown escape sequence `\\q` in string",
            "Invalid string literal",
            "Unclosed string literal",
            "Invalid character literal",
            "Unclosed character literal",
        ]
    );
}

#[test]
fn names_of_sources() {
    let mut lexer = Lexer::new("a b");
    assert_eq!(lexer.source().name(), None);
    assert_eq!(lexer.source().contents(), "a b");
    let first = lexer.read(&Ieee).unwrap().unwrap();
    lexer.set_name("here".to_string());
    let second = lexer.read(&Ieee).unwrap().unwrap();
    assert_eq!(second.span.source.name(), Some("here"));
    assert_eq!(second.span.source.contents(), "a b");
    assert_eq!(second.span.bytes, 2..3);
    assert_eq!(first.span.source.name(), None);

    let mut parser = Parser::new("(a)");
    parser.set_name("file.fy".to_string());
    let forest = parser.parse(&Ieee).unwrap();
    assert_eq!(forest[0].span.source.name(), Some("file.fy"));
    assert!(forest[0].span.same_source(&Span::new(0..0, parser.source())));

    let mut source = Source::new(Some("a".to_string()), "text".to_string());
    assert_eq!(source.name(), Some("a"));
    source.set_name("b".to_string());
    assert_eq!(source.name(), Some("b"));
    assert_eq!(source.contents(), "text");
    assert_eq!(Source::default().contents(), "");
    assert_eq!(Source::default().name(), None);
}

#[test]
fn lines_of_sources() {
    let source = Source::new(None, "ab\n\nh\u{e9}\n".to_string());
    assert_eq!(source.get_line(0), "ab");
    assert_eq!(source.get_line(1), "");
    assert_eq!(source.get_line(2), "h\u{e9}");
    assert_eq!(source.get_line(3), "");
    assert_eq!(source.location(0), Location::new(0, 0));
    assert_eq!(source.location(2), Location::new(0, 2));
    assert_eq!(source.location(3), Location::new(1, 0));
    assert_eq!(source.location(4), Location::new(2, 0));
    assert_eq!(source.location(7), Location::new(2, 2));
    assert_eq!(source.location(8), Location::new(3, 0));
    assert_eq!(source.count_lines(), 4);
    let empty = Source::new(None, String::new());
    assert_eq!(empty.count_lines(), 1);
    assert_eq!(empty.get_line(0), "");
    assert_eq!(empty.location(0), Location::new(0, 0));
    let long: String = (0..200).map(|i| format!("line {i}\n")).collect();
    let source = Source::new(None, long.clone());
    let mut offset = 0;
    for (i, line) in long.lines().enumerate() {
        assert_eq!(source.get_line(i), line);
        assert_eq!(source.location(offset), Location::new(i, 0));
        assert_eq!(
            source.location(offset + line.len()),
            Location::new(i, line.len())
        );
        offset += line.len() + 1;
    }
}

#[test]
fn spans_join_and_extend() {
    let source = Arc::new(Source::new(None, "abcdef".to_string()));
    let a = Span::new(1..2, source.clone());
    let b = Span::new(3..5, source.clone());
    let joined = a.clone().join(&b);
    assert_eq!(joined.bytes, 1..5);
    assert!(joined.same_source(&a));
    let mut c = a.clone();
    c.extend(&b);
    assert_eq!(c.bytes, 1..5);
    assert!(c == joined);
    assert!(a != b);
    let other = Arc::new(Source::new(None, "abcdef".to_string()));
    let d = Span::new(1..2, other);
    assert!(!a.same_source(&d));
    assert!(a != d);
    assert!(a == Span::new(1..2, source.clone()));
    assert_eq!(a.location(), Location::new(0, 1));
    assert_eq!(b.end_location(), Location::new(0, 5));
    assert_eq!(Span::default().bytes, 0..0);
    assert_eq!(Span::default().location(), Location::new(0, 0));
}

fn shape(node: &Node) -> String {
    match &node.kind {
        NodeKind::Number(n) => format!("{}", f64::from_bits(*n)),
        NodeKind::Bool(b) => format!("{b}"),
        NodeKind::String(s) => format!("{s:?}"),
        NodeKind::Char(c) => format!("{c:?}"),
        NodeKind::Symbol(s) => s.0.clone(),
        NodeKind::Keyword(s) => format!(":{}", s.0),
        NodeKind::List(v) => format!("({})", v.iter().map(shape).collect::<Vec<_>>().join(" ")),
        NodeKind::Vector(v) => format!("[{}]", v.iter().map(shape).collect::<Vec<_>>().join(" ")),
        NodeKind::Nil => "nil".to_string(),
    }
}

#[test]
fn parse_vectors_and_leaves() {
    let forest = Parser::new("[1 (a) 'c'] :k \"s\" nil true ; gone")
        .parse(&Ieee)
        .unwrap();
    let shapes: Vec<String> = forest.iter().map(shape).collect();
    assert_eq!(shapes, vec!["[1 (a) 'c']", ":k", "\"s\"", "nil", "true"]);
    assert_eq!(forest[0].span.bytes, 0..11);
    let deep = Parser::new("((([[()]]))) x").parse(&Ieee).unwrap();
    assert_eq!(
        deep.iter().map(shape).collect::<Vec<_>>(),
        vec!["((([[()]])))", "x"]
    );
    assert_eq!(deep[0].span.bytes, 0..12);
}

fn parse_error(input: &str) -> (ParserErrorKind, (usize, usize), bool, String) {
    let err = Parser::new(input).parse(&Ieee).unwrap_err();
    let said = err.to_string();
    let more = err.is_incomplete();
    (err.kind, (err.span.bytes.start, err.span.bytes.end), more, said)
}

#[test]
fn brackets_decide() {
    assert_eq!(
        parse_error("(a [b"),
        (
            ParserErrorKind::UnclosedBracket,
            (3, 4),
            true,
            "Unclosed parenthesis".to_string()
        )
    );
    assert_eq!(
        parse_error("(a (b) "),
        (
            ParserErrorKind::UnclosedBracket,
            (0, 1),
            true,
            "Unclosed parenthesis".to_string()
        )
    );
    assert_eq!(
        parse_error("(a]"),
        (
            ParserErrorKind::UnmatchedBracket,
            (2, 3),
            false,
            "Unmatched bracket".to_string()
        )
    );
    assert_eq!(
        parse_error("[a)"),
        (
            ParserErrorKind::UnmatchedBracket,
            (2, 3),
            false,
            "Unmatched bracket".to_string()
        )
    );
    assert_eq!(
        parse_error("(a) ]"),
        (
            ParserErrorKind::UnexpectedCloseBracket,
            (4, 5),
            false,
            "Unexpected closing bracket".to_string()
        )
    );
    assert_eq!(
        parse_error("(a)) (b"),
        (
            ParserErrorKind::UnexpectedCloseBracket,
            (3, 4),
            false,
            "Unexpected closing bracket".to_string()
        )
    );
    assert!(parse_error("(\"a").2);
    assert!(parse_error(r"('\").2);
    assert!(!parse_error("(1x").2);
    assert_eq!(parse_error("(\"a").3, "Unclosed string literal");
    // the first error counts: the bracket before the bad number
    assert_eq!(parse_error("(a] 1x").0, ParserErrorKind::UnmatchedBracket);
}

#[test]
fn nodes_take_children() {
    let source = Arc::new(Source::new(None, "(a)".to_string()));
    let mut list = Node::new(NodeKind::List(Vec::new()), Span::new(0..3, source.clone()));
    let child = Node::new(
        NodeKind::Symbol(Symbol::from("a")),
        Span::new(1..2, source.clone()),
    );
    assert!(list.push_node(child.clone()).is_ok());
    assert_eq!(shape(&list), "(a)");
    let mut leaf = child.clone();
    let err = leaf.push_node(child.clone()).unwrap_err();
    assert_eq!(err.kind, ParserErrorKind::Unreachable);
    assert_eq!(err.span.bytes, 1..2);
    assert_eq!(err.to_string(), "Unexpected parsing state reached");
    let token = Token::new(TokenKind::OpenParen, Span::new(0..1, source.clone()));
    assert_eq!(
        Node::try_from(token).unwrap_err().kind,
        ParserErrorKind::Unreachable
    );
    let token = Token::new(TokenKind::Char('x'), Span::new(0..1, source.clone()));
    assert_eq!(shape(&Node::try_from(token).unwrap()), "'x'");
}

#[test]
fn numbers_compare_as_numbers() {
    let samples = [
        0.0,
        -0.0,
        1.0,
        -1.0,
        2.5,
        -2.5,
        f64::MIN_POSITIVE,
        -f64::MIN_POSITIVE,
        5e-324,
        f64::MAX,
        f64::MIN,
        f64::INFINITY,
        f64::NEG_INFINITY,
        f64::NAN,
        -f64::NAN,
    ];
    for a in samples {
        for b in samples {
            let (x, y) = (a.to_bits(), b.to_bits());
            assert_eq!(number::equal(x, y), a == b, "{a} == {b}");
            assert_eq!(number::less(x, y), a < b, "{a} < {b}");
            assert_eq!(number::less_or_equal(x, y), a <= b, "{a} <= {b}");
        }
        assert_eq!(number::negative(a.to_bits()), a < 0.0, "{a} < 0");
    }
}

#[test]
fn characters_and_texts() {
    for c in [
        'a',
        '\u{7f}',
        '\u{80}',
        '\u{7ff}',
        '\u{800}',
        '\u{ffff}',
        '\u{10000}',
        '\u{10ffff}',
    ] {
        assert_eq!(text::char_width(c), c.len_utf8());
    }
    for c in [' ', '\t', '\n', '\x0c', '\r', '(', ')', '[', ']', ';', ','] {
        assert!(c.is_separator());
        assert!(text::separator(c));
    }
    for c in ['a', '\'', '"', ':', '\u{b}', '\u{a0}', '{'] {
        assert!(!c.is_separator());
    }
    assert!(text::space(' ') && !text::space(','));
    assert!(text::digit('0') && text::digit('9'));
    assert!(!text::digit('a') && !text::digit('\u{663}'));
    assert_eq!(text::decode("h\u{e9}"), vec!['h', '\u{e9}']);
    let words = ["", "a", "ab", "b", "B", "\u{e9}", "\u{3bb}", "z", "*", "+"];
    for a in words {
        for b in words {
            assert_eq!(text::less(a, b), a < b, "{a:?} < {b:?}");
        }
    }
}
