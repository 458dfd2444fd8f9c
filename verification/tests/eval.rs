use faye::eval::{Context, Error, ErrorKind, Expr};
use faye::host::Host;
use faye::lexer::Symbol;
use faye::parser::{Node, NodeKind, Parser};
use faye::span::{Source, Span};
use std::sync::Arc;

struct Ieee;

impl Host for Ieee {
    fn parse_number(&self, text: &str) -> Option<u64> {
        text.parse::<f64>().ok().map(f64::to_bits)
    }

    fn format_number(&self, number: u64) -> String {
        format!("{}", f64::from_bits(number))
    }

    fn sum(&self, numbers: &Vec<u64>) -> u64 {
        numbers.iter().map(|n| f64::from_bits(*n)).sum::<f64>().to_bits()
    }

    fn product(&self, numbers: &Vec<u64>) -> u64 {
        numbers.iter().map(|n| f64::from_bits(*n)).product::<f64>().to_bits()
    }

    fn subtract(&self, a: u64, b: u64) -> u64 {
        (f64::from_bits(a) - f64::from_bits(b)).to_bits()
    }

    fn divide(&self, a: u64, b: u64) -> u64 {
        (f64::from_bits(a) / f64::from_bits(b)).to_bits()
    }

    fn truncate(&self, number: u64) -> usize {
        f64::from_bits(number) as usize
    }

    fn from_digit(&self, digit: u32) -> u64 {
        f64::from(digit).to_bits()
    }

    fn print_line(&self, _text: &str) -> bool {
        false
    }
}

fn number(value: f64) -> Expr {
    Expr::Number(value.to_bits())
}

/// The span from one line and column to another, in a source of one line.
fn span(source: &Arc<Source>, start: (usize, usize), end: (usize, usize)) -> Span {
    assert_eq!((start.0, end.0), (0, 0));
    Span::new(start.1..end.1, source.clone())
}

fn node(source: &Arc<Source>, kind: NodeKind, start: (usize, usize), end: (usize, usize)) -> Node {
    Node::new(kind, span(source, start, end))
}

/// What evaluating gave, with the line and column at which an error starts
/// and ends.
fn located(res: Result<Expr, Error>) -> Result<Expr, (ErrorKind, (usize, usize), (usize, usize))> {
    res.map_err(|e| {
        let start = e.span.location();
        let end = e.span.end_location();
        (e.kind, (start.line, start.column), (end.line, end.column))
    })
}

/// Evaluates each top-level form of `code` in one context and returns what
/// the last one gave.
fn run(code: &str) -> Result<Expr, (ErrorKind, (usize, usize), (usize, usize))> {
    let mut ctx = Context::default();
    run_in(&mut ctx, code)
}

fn run_in(ctx: &mut Context, code: &str) -> Result<Expr, (ErrorKind, (usize, usize), (usize, usize))> {
    let forest = Parser::new(code).parse(&Ieee).expect("the code parses");
    let mut last = Ok(Expr::Nil);
    for form in &forest {
        last = located(ctx.eval(form, &Ieee));
    }
    last
}

#[test]
fn add() {
    // (* 2 3)
    let source = Arc::new(Source::new(None, "(* 2 3)".to_string()));
    let ast = node(
        &source,
        NodeKind::List(vec![
            node(&source, NodeKind::Symbol(Symbol::from("*")), (0, 1), (0, 2)),
            node(&source, NodeKind::Number(2f64.to_bits()), (0, 3), (0, 4)),
            node(&source, NodeKind::Number(3f64.to_bits()), (0, 5), (0, 6)),
        ]),
        (0, 0),
        (0, 7),
    );
    let res = Context::default().eval(&ast, &Ieee);

    assert_eq!(located(res), Ok(number(6.)));
}

#[test]
fn error_invalid_function() {
    // (1 + 2)
    let source = Arc::new(Source::new(None, "(1 + 2)".to_string()));
    let ast = node(
        &source,
        NodeKind::List(vec![
            node(&source, NodeKind::Number(1f64.to_bits()), (0, 1), (0, 2)),
            node(&source, NodeKind::Symbol(Symbol::from("+")), (0, 3), (0, 4)),
            node(&source, NodeKind::Number(2f64.to_bits()), (0, 5), (0, 6)),
        ]),
        (0, 0),
        (0, 7),
    );

    let res = Context::default().eval(&ast, &Ieee);
    assert_eq!(
        located(res),
        Err((ErrorKind::InvalidFunction(number(1.)), (0, 1), (0, 2)))
    );
}

#[test]
fn error_add_string() {
    // (+ "hi" 5)
    let source = Arc::new(Source::new(None, "(+ \"hi\" 5)".to_string()));
    let ast = node(
        &source,
        NodeKind::List(vec![
            node(&source, NodeKind::Symbol(Symbol::from("+")), (0, 1), (0, 2)),
            node(&source, NodeKind::String("hi".into()), (0, 3), (0, 7)),
            node(&source, NodeKind::Number(5f64.to_bits()), (0, 8), (0, 9)),
        ]),
        (0, 0),
        (0, 10),
    );

    let res = Context::default().eval(&ast, &Ieee);
    assert_eq!(
        located(res),
        Err((ErrorKind::InvalidArgument(Expr::String("hi".into())), (0, 1), (0, 2)))
    );
}

#[test]
fn mul() {
    assert_eq!(run("(* 2 3)"), Ok(number(6.)));
}

#[test]
fn sum_of_three() {
    assert_eq!(run("(+ 1 2 3)"), Ok(number(6.)));
}

#[test]
fn head_must_be_callable() {
    assert_eq!(
        run("(1 + 2)").map_err(|e| e.0),
        Err(ErrorKind::InvalidFunction(number(1.)))
    );
}

#[test]
fn plus_rejects_a_string() {
    assert_eq!(
        run("(+ \"hi\" 5)").map_err(|e| e.0),
        Err(ErrorKind::InvalidArgument(Expr::String("hi".into())))
    );
}

#[test]
fn let_bindings_see_earlier_ones() {
    assert_eq!(run("(let ((x 1) (y (+ x 1))) (+ x y))"), Ok(number(3.)));
    assert_eq!(run("(let (x 1) (y (+ x 1)) (+ x y))"), Ok(number(3.)));
    assert_eq!(run("(let () 7)"), Ok(number(7.)));
}

#[test]
fn let_restores_the_locals() {
    let mut ctx = Context::default();
    assert_eq!(
        run_in(&mut ctx, "(let ((x 1)) (+ (let ((x 2) (y x)) y) x))"),
        Ok(number(3.))
    );
    assert_eq!(
        run_in(&mut ctx, "x").map_err(|e| e.0),
        Err(ErrorKind::UnknownSymbol(Symbol::from("x")))
    );
    // also after an error inside the let
    assert!(run_in(&mut ctx, "(let (x 1) (+ x nope))").is_err());
    assert_eq!(
        run_in(&mut ctx, "x").map_err(|e| e.0),
        Err(ErrorKind::UnknownSymbol(Symbol::from("x")))
    );
}

#[test]
fn closure_keeps_the_scope_it_was_made_in() {
    let mut ctx = Context::default();
    assert_eq!(
        run_in(&mut ctx, "(const add-x (let (x 1) (lambda (y) (+ x y))))"),
        Ok(Expr::Nil)
    );
    assert_eq!(run_in(&mut ctx, "(add-x 1)"), Ok(number(2.)));
    assert_eq!(run_in(&mut ctx, "(const x 100)"), Ok(Expr::Nil));
    assert_eq!(run_in(&mut ctx, "(add-x 1)"), Ok(number(2.)));
}

#[test]
fn named_function_knows_no_scope_but_its_call() {
    let mut ctx = Context::default();
    assert_eq!(
        run_in(&mut ctx, "(let (x 1) (fn get-x [] x))"),
        Ok(Expr::Nil)
    );
    assert_eq!(
        run_in(&mut ctx, "(get-x)").map_err(|e| e.0),
        Err(ErrorKind::UnknownSymbol(Symbol::from("x")))
    );
    assert_eq!(
        run_in(&mut ctx, "(let (x 5) (get-x))").map_err(|e| e.0),
        Err(ErrorKind::UnknownSymbol(Symbol::from("x")))
    );
}

#[test]
fn unknown_symbol_is_laid_at_the_symbol() {
    assert_eq!(
        run("(+ 1 (* 2 nope))"),
        Err((ErrorKind::UnknownSymbol(Symbol::from("nope")), (0, 10), (0, 14)))
    );
}

#[test]
fn arity_of_user_functions() {
    let mut ctx = Context::default();
    assert_eq!(run_in(&mut ctx, "(fn add [a b] (+ a b))"), Ok(Expr::Nil));
    assert_eq!(run_in(&mut ctx, "(add 1 2)"), Ok(number(3.)));
    assert_eq!(
        run_in(&mut ctx, "(add 1)"),
        Err((ErrorKind::MissingArguments, (0, 1), (0, 4)))
    );
    assert_eq!(
        run_in(&mut ctx, "(add 1 2 3)"),
        Err((ErrorKind::TooManyArguments, (0, 1), (0, 4)))
    );
}

#[test]
fn arity_is_laid_at_the_call_also_after_calls_among_the_arguments() {
    let mut ctx = Context::default();
    assert_eq!(run_in(&mut ctx, "(fn f [a b] (+ a b))"), Ok(Expr::Nil));
    assert_eq!(run_in(&mut ctx, "(fn g [a] a)"), Ok(Expr::Nil));
    assert_eq!(
        run_in(&mut ctx, "(f (g 1))"),
        Err((ErrorKind::MissingArguments, (0, 1), (0, 2)))
    );
    assert_eq!(
        run_in(&mut ctx, "(g (f 1 2) (g 3))"),
        Err((ErrorKind::TooManyArguments, (0, 1), (0, 2)))
    );
    assert_eq!(
        run_in(&mut ctx, "(const h (lambda (a b) a)) (h (g (g 1)))"),
        Err((ErrorKind::MissingArguments, (0, 28), (0, 29)))
    );
    // the inner call is blamed where it is the one that is wrong
    assert_eq!(
        run_in(&mut ctx, "(f (g) 2)"),
        Err((ErrorKind::MissingArguments, (0, 4), (0, 5)))
    );
}

#[test]
fn builtins_lay_their_errors_at_the_call() {
    let mut ctx = Context::default();
    assert_eq!(run_in(&mut ctx, "(fn q [a] a)"), Ok(Expr::Nil));
    assert_eq!(
        run_in(&mut ctx, "(+ (q 1) \"hi\")"),
        Err((ErrorKind::InvalidArgument(Expr::String("hi".into())), (0, 1), (0, 2)))
    );
    assert_eq!(
        run_in(&mut ctx, "(if (q 1) 2 3)"),
        Err((ErrorKind::InvalidArgument(number(1.)), (0, 1), (0, 3)))
    );
    assert_eq!(
        run_in(&mut ctx, "(and true (q 1))"),
        Err((ErrorKind::InvalidArgument(number(1.)), (0, 1), (0, 4)))
    );
    assert_eq!(
        run_in(&mut ctx, "(join (q \",\") (q 5))"),
        Err((ErrorKind::InvalidArgument(number(5.)), (0, 1), (0, 5)))
    );
    assert_eq!(
        run_in(&mut ctx, "(- (q 1) (q 2) (let ((x 1)) x) true)"),
        Err((ErrorKind::InvalidArgument(Expr::Bool(true)), (0, 1), (0, 2)))
    );
    assert_eq!(
        run_in(&mut ctx, "((q 1) 2)"),
        Err((ErrorKind::InvalidFunction(number(1.)), (0, 1), (0, 6)))
    );
    assert_eq!(
        run_in(&mut ctx, "(vec (q 1) (q 2))"),
        Err((ErrorKind::TooManyArguments, (0, 1), (0, 4)))
    );
}
