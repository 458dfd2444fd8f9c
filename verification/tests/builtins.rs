use faye::eval::{Context, ErrorKind, Expr};
use faye::highlighter::Highlighter;
use faye::host::Host;
use faye::lexer::Symbol;
use faye::parser::Parser;

struct Ieee;

impl Host for Ieee {
    fn parse_number(&self, text: &str) -> Option<u64> {
        text.parse::<f64>().ok().map(f64::to_bits)
    }

    fn format_number(&self, number: u64) -> String {
        format!("{}", f64::from_bits(number))
    }

    fn sum(&self, numbers: &Vec<u64>) -> u64 {
        numbers.iter().map(|n| f64::from_bits(*n)).sum::<f64>().to_bits()
    }

    fn product(&self, numbers: &Vec<u64>) -> u64 {
        numbers.iter().map(|n| f64::from_bits(*n)).product::<f64>().to_bits()
    }

    fn subtract(&self, a: u64, b: u64) -> u64 {
        (f64::from_bits(a) - f64::from_bits(b)).to_bits()
    }

    fn divide(&self, a: u64, b: u64) -> u64 {
        (f64::from_bits(a) / f64::from_bits(b)).to_bits()
    }

    fn truncate(&self, number: u64) -> usize {
        f64::from_bits(number) as usize
    }

    fn from_digit(&self, digit: u32) -> u64 {
        f64::from(digit).to_bits()
    }

    fn print_line(&self, _text: &str) -> bool {
        false
    }
}

fn number(value: f64) -> Expr {
    Expr::Number(value.to_bits())
}

fn run_in(ctx: &mut Context, code: &str) -> Result<Expr, ErrorKind> {
    let forest = Parser::new(code).parse(&Ieee).expect("the code parses");
    let mut last = Ok(Expr::Nil);
    for form in &forest {
        last = ctx.eval(form, &Ieee).map_err(|e| e.kind);
    }
    last
}

fn run(code: &str) -> Result<Expr, ErrorKind> {
    run_in(&mut Context::default(), code)
}

fn shown(code: &str) -> String {
    run(code).expect("the code evaluates").to_string(&Ieee)
}

#[test]
fn highlight_without_matching_brackets() {
    let hl = Highlighter::new(false);
    assert_eq!(
        hl.highlight("(+ 1 2)", &Ieee),
        "\x1b[0;90m(\x1b[0;35m+ \x1b[0;36m1 \x1b[0;36m2\x1b[0;90m)\x1b[0m"
    );
}

#[test]
fn highlight_with_matching_brackets() {
    let hl = Highlighter::new(true);
    assert_eq!(
        hl.highlight("(a [b]) ", &Ieee),
        "\x1b[0;92m(\x1b[0;35ma \x1b[0;93m[\x1b[0;37mb\x1b[0;93m]\x1b[0;92m)\x1b[0m "
            .replace("\x1b[0m ", " \x1b[0m")
    );
}

#[test]
fn highlight_errors_and_other_kinds() {
    let hl = Highlighter::new(false);
    assert_eq!(
        hl.highlight("1.2.3 :k \"s\" true ; c", &Ieee),
        "\x1b[31m1.2.3 \x1b[0;34m:k \x1b[0;33m\"s\" \x1b[3;32mtrue \x1b[3;90m; c\x1b[0m"
    );
    assert_eq!(hl.highlight("", &Ieee), "\x1b[0m");
    assert_eq!(hl.highlight("h\u{e9}", &Ieee), "\x1b[0;37mh\u{e9}\x1b[0m");
}

#[test]
fn globals_are_listed_in_order() {
    let mut ctx = Context::default();
    run_in(&mut ctx, "(const zebra 1) (const + 2) (fn apple [] 1)").unwrap();
    let names: Vec<String> = ctx.list_globals().into_iter().map(|s| s.0).collect();
    let mut sorted = names.clone();
    sorted.sort();
    sorted.dedup();
    assert_eq!(names, sorted);
    assert!(names.contains(&"zebra".to_string()));
    assert!(names.contains(&"apple".to_string()));
    assert!(names.contains(&"parse-num".to_string()));
    assert!(names.contains(&"\u{3bb}".to_string()));
    assert_eq!(names.iter().filter(|n| n.as_str() == "+").count(), 1);
    assert_eq!(names.len(), 29 + 2);
    assert_eq!(names[0], "*");
}

#[test]
fn get_finds_locals_before_globals() {
    let mut ctx = Context::default();
    run_in(&mut ctx, "(const x 1)").unwrap();
    assert_eq!(ctx.get(&Symbol::from("x")), Some(&number(1.)));
    assert_eq!(ctx.get(&Symbol::from("nothing")), None);
    assert_eq!(run_in(&mut ctx, "(let ((x 2)) x)"), Ok(number(2.)));
    assert_eq!(run_in(&mut ctx, "x"), Ok(number(1.)));
}

#[test]
fn arithmetic() {
    assert_eq!(run("(+)").map(|v| v.to_string(&Ieee)), Ok(format!("{}", Vec::<f64>::new().into_iter().sum::<f64>())));
    assert_eq!(run("(*)"), Ok(number(1.)));
    assert_eq!(run("(- 10 3 2)"), Ok(number(5.)));
    assert_eq!(run("(- 4)"), Ok(number(4.)));
    assert_eq!(run("(/ 12 3 2)"), Ok(number(2.)));
    assert_eq!(run("(/ 1 0)"), Ok(number(f64::INFINITY)));
    assert_eq!(run("(-)"), Err(ErrorKind::MissingArguments));
    assert_eq!(run("(/)"), Err(ErrorKind::MissingArguments));
    assert_eq!(run("(+ 0.1 0.2)"), Ok(number(0.1 + 0.2)));
    assert_eq!(run("(* 2 true)"), Err(ErrorKind::InvalidArgument(Expr::Bool(true))));
}

#[test]
fn comparisons() {
    assert_eq!(run("(< 1 2 3)"), Ok(Expr::Bool(true)));
    assert_eq!(run("(< 1 3 2)"), Ok(Expr::Bool(false)));
    assert_eq!(run("(< 1 1)"), Ok(Expr::Bool(false)));
    assert_eq!(run("(<= 1 1 2)"), Ok(Expr::Bool(true)));
    assert_eq!(run("(> 3 2 1)"), Ok(Expr::Bool(true)));
    assert_eq!(run("(> 3 2 2)"), Ok(Expr::Bool(false)));
    assert_eq!(run("(>= 3 2 2)"), Ok(Expr::Bool(true)));
    assert_eq!(run("(< -1 0)"), Ok(Expr::Bool(true)));
    assert_eq!(run("(< -2 -1)"), Ok(Expr::Bool(true)));
    assert_eq!(run("(< -1 -2)"), Ok(Expr::Bool(false)));
    assert_eq!(run("(< (- 0 0) 0)"), Ok(Expr::Bool(false)));
    assert_eq!(run("(<)"), Ok(Expr::Bool(true)));
    assert_eq!(run("(< 1)"), Ok(Expr::Bool(true)));
    assert_eq!(run("(< (/ 0 0) 1)"), Ok(Expr::Bool(false)));
    assert_eq!(run("(>= (/ 0 0) (/ 0 0))"), Ok(Expr::Bool(false)));
    assert_eq!(run("(< 1 \"a\")"), Err(ErrorKind::InvalidArgument(Expr::String("a".into()))));
}

#[test]
fn equality() {
    assert_eq!(run("(= 1 1 1)"), Ok(Expr::Bool(true)));
    assert_eq!(run("(= 1 1 2)"), Ok(Expr::Bool(false)));
    assert_eq!(run("(=)"), Ok(Expr::Bool(true)));
    assert_eq!(run("(= 0 (* -1 0))"), Ok(Expr::Bool(true)));
    assert_eq!(run("(= (/ 0 0) (/ 0 0))"), Ok(Expr::Bool(false)));
    assert_eq!(run("(= \"a\" \"a\")"), Ok(Expr::Bool(true)));
    assert_eq!(run("(= \"a\" 'a')"), Ok(Expr::Bool(false)));
    assert_eq!(run("(= (list 1 2) (list 1 2))"), Ok(Expr::Bool(true)));
    assert_eq!(run("(= (list 1 2) (vector 1 2))"), Ok(Expr::Bool(false)));
    assert_eq!(run("(= (list 1 2) (list 1 3))"), Ok(Expr::Bool(false)));
    assert_eq!(run("(= nil (quote ()))"), Ok(Expr::Bool(true)));
    assert_eq!(run("(= + +)"), Ok(Expr::Bool(false)));
    assert_eq!(run("(fn f [] 1) (= f f)"), Ok(Expr::Bool(false)));
    assert_eq!(run("(= (lambda () 1) (lambda () 1))"), Ok(Expr::Bool(false)));
}

#[test]
fn texts() {
    assert_eq!(run("(str \"a\" 1 'c' true nil :k)"), Ok(Expr::String("a1ctruenil:k".into())));
    assert_eq!(run("(str)"), Ok(Expr::String("".into())));
    assert_eq!(run("(str (list 1 \"q\\\"\" 'x'))"), Ok(Expr::String("(1 \"q\\\"\" 'x')".into())));
    assert_eq!(run("(str [1 2] (quote (a b)) str)"), Ok(Expr::String("[1 2](a b)str".into())));
    assert_eq!(run("(str (lambda (x) x))"), Ok(Expr::String("#<lambda>".into())));
    assert_eq!(run("(fn f [] 1) (str f)"), Ok(Expr::String("f".into())));
    assert_eq!(
        run("(chars \"h\u{e9}\")"),
        Ok(Expr::Vector(vec![Expr::Char('h'), Expr::Char('\u{e9}')]))
    );
    assert_eq!(
        run("(chars 12)"),
        Ok(Expr::Vector(vec![Expr::Char('1'), Expr::Char('2')]))
    );
    assert_eq!(run("(chars)"), Err(ErrorKind::MissingArguments));
    assert_eq!(run("(join \", \" (list 1 \"b\" 'c'))"), Ok(Expr::String("1, b, c".into())));
    assert_eq!(run("(join '-' [1 2])"), Ok(Expr::String("1-2".into())));
    assert_eq!(run("(join '-' nil)"), Ok(Expr::String("".into())));
    assert_eq!(run("(join 1 [1 2])"), Err(ErrorKind::InvalidArgument(number(1.))));
    assert_eq!(run("(join \"\" 5)"), Err(ErrorKind::InvalidArgument(number(5.))));
    assert_eq!(run("(join 1 nope)"), Err(ErrorKind::InvalidArgument(number(1.))));
    assert_eq!(run("(println \"a\" 1)"), Ok(Expr::Display("a 1".into())));
    assert_eq!(shown("(println \"a\" 1)"), "a 1");
}

#[test]
fn collections() {
    assert_eq!(run("(list 1 (+ 1 1))"), Ok(Expr::List(vec![number(1.), number(2.)])));
    assert_eq!(run("(list)"), Ok(Expr::List(vec![])));
    assert_eq!(run("(vector 1 2)"), Ok(Expr::Vector(vec![number(1.), number(2.)])));
    assert_eq!(run("[1 x]"), Ok(Expr::Vector(vec![number(1.), Expr::Symbol(Symbol::from("x"))])));
    assert_eq!(run("(vec (list 1 2))"), Ok(Expr::Vector(vec![number(1.), number(2.)])));
    assert_eq!(run("(vec nil)"), Ok(Expr::Vector(vec![])));
    assert_eq!(run("(vec \"ab\")"), Ok(Expr::Vector(vec![Expr::Char('a'), Expr::Char('b')])));
    assert_eq!(run("(vec 1)"), Err(ErrorKind::InvalidArgument(number(1.))));
    assert_eq!(run("(vec)"), Err(ErrorKind::MissingArguments));
    assert_eq!(run("(vec 1 2)"), Err(ErrorKind::TooManyArguments));
    assert_eq!(run("(nth [10 20 30] 1)"), Ok(number(20.)));
    assert_eq!(run("(nth [10 20 30] 1.9)"), Ok(number(20.)));
    assert_eq!(run("(nth [10 20 30] 3)"), Ok(Expr::Nil));
    assert_eq!(run("(nth [10 20 30] 3 0)"), Ok(number(0.)));
    assert_eq!(run("(nth [10 20 30] -1 7)"), Ok(number(7.)));
    assert_eq!(run("(nth [10 20 30] (/ 0 0))"), Ok(number(10.)));
    assert_eq!(run("(nth \"abc\" 2)"), Ok(Expr::Char('c')));
    assert_eq!(run("(nth nil 0 1)"), Ok(number(1.)));
    assert_eq!(run("(nth 5 0)"), Err(ErrorKind::InvalidArgument(number(5.))));
    assert_eq!(run("(nth [1] \"0\")"), Err(ErrorKind::InvalidArgument(Expr::String("0".into()))));
    assert_eq!(run("(nth [1])"), Err(ErrorKind::MissingArguments));
    assert_eq!(run("(nth [1] 0 0 0)"), Err(ErrorKind::TooManyArguments));
    assert_eq!(
        run("(quote (a 1 (b) ()))"),
        Ok(Expr::List(vec![
            Expr::Symbol(Symbol::from("a")),
            number(1.),
            Expr::List(vec![Expr::Symbol(Symbol::from("b"))]),
            Expr::Nil,
        ]))
    );
    assert_eq!(run("(quote :k)"), Ok(Expr::Keyword("k".into())));
    assert_eq!(run("(quote)"), Err(ErrorKind::MissingArguments));
    assert_eq!(run("()"), Ok(Expr::Nil));
    assert_eq!(run("@cmd-args"), Ok(Expr::Vector(vec![])));
}

#[test]
fn parse_num() {
    assert_eq!(run("(parse-num \"2.5\")"), Ok(number(2.5)));
    assert_eq!(run("(parse-num '7')"), Ok(number(7.)));
    assert_eq!(run("(parse-num 'x')"), Err(ErrorKind::InvalidArgument(Expr::Char('x'))));
    assert_eq!(run("(parse-num \"x\")"), Err(ErrorKind::InvalidArgument(Expr::String("x".into()))));
    assert_eq!(run("(parse-num 1)"), Err(ErrorKind::InvalidArgument(number(1.))));
}

#[test]
fn conditions() {
    assert_eq!(run("(if true 1 2)"), Ok(number(1.)));
    assert_eq!(run("(if false 1 2)"), Ok(number(2.)));
    assert_eq!(run("(if false 1)"), Ok(Expr::Nil));
    assert_eq!(run("(if true 1 nope)"), Ok(number(1.)));
    assert_eq!(run("(if false nope 2)"), Ok(number(2.)));
    assert_eq!(run("(if 1 1 2)"), Err(ErrorKind::InvalidArgument(number(1.))));
    assert_eq!(run("(if true)"), Err(ErrorKind::MissingArguments));
    assert_eq!(run("(if true 1 2 3)"), Err(ErrorKind::TooManyArguments));
    assert_eq!(run("(and)"), Ok(Expr::Bool(true)));
    assert_eq!(run("(and true false nope)"), Ok(Expr::Bool(false)));
    assert_eq!(run("(and true true)"), Ok(Expr::Bool(true)));
    assert_eq!(run("(and true 1)"), Err(ErrorKind::InvalidArgument(number(1.))));
    assert_eq!(run("(or)"), Ok(Expr::Bool(false)));
    assert_eq!(run("(or false true nope)"), Ok(Expr::Bool(true)));
    assert_eq!(run("(or false false)"), Ok(Expr::Bool(false)));
    assert_eq!(run("(or false nope)"), Err(ErrorKind::UnknownSymbol(Symbol::from("nope"))));
    assert_eq!(run("(not true)"), Ok(Expr::Bool(false)));
    assert_eq!(run("(not false)"), Ok(Expr::Bool(true)));
    assert_eq!(run("(not 1)"), Ok(Expr::Bool(true)));
    assert_eq!(run("(not nope)"), Ok(Expr::Bool(true)));
    assert_eq!(run("(not)"), Err(ErrorKind::MissingArguments));
}

#[test]
fn definitions() {
    assert_eq!(run("(const x (+ 1 2)) x"), Ok(number(3.)));
    assert_eq!(run("(const x 1) (const x 2) x"), Ok(number(2.)));
    assert_eq!(run("(const 1 2)"), Err(ErrorKind::InvalidArgument(number(1.))));
    assert_eq!(run("(const x)"), Err(ErrorKind::MissingArguments));
    assert_eq!(run("(fn f (x) x)"), Err(ErrorKind::InvalidArgument(Expr::List(vec![Expr::Symbol(Symbol::from("x"))]))));
    assert_eq!(run("(fn f [1] x)"), Err(ErrorKind::InvalidArgument(Expr::Vector(vec![number(1.)]))));
    assert_eq!(run("(fn 1 [x] x)"), Err(ErrorKind::InvalidArgument(number(1.))));
    assert_eq!(run("(fn f [x])"), Err(ErrorKind::MissingArguments));
    assert_eq!(run("(fn twice [x] (* 2 x)) (twice (twice 3))"), Ok(number(12.)));
    assert_eq!(run("((lambda (x y) (- x y)) 5 3)"), Ok(number(2.)));
    assert_eq!(
        run("((lambda [x] x) 5)"),
        Err(ErrorKind::InvalidArgument(Expr::Vector(vec![Expr::Symbol(Symbol::from("x"))])))
    );
    assert_eq!(
        run("(lambda [] 5)"),
        Err(ErrorKind::InvalidArgument(Expr::Vector(vec![])))
    );
    assert_eq!(run("((lambda () 5))"), Ok(number(5.)));
    assert_eq!(run("((\u{3bb} (x) x) 5)"), Ok(number(5.)));
    assert_eq!(run("((lambda (x) x))"), Err(ErrorKind::MissingArguments));
    assert_eq!(run("((lambda (x) x) 1 2)"), Err(ErrorKind::TooManyArguments));
    assert_eq!(run("(lambda 1 2)"), Err(ErrorKind::InvalidArgument(number(1.))));
    assert_eq!(run("(lambda (1) 2)"), Err(ErrorKind::InvalidArgument(Expr::List(vec![number(1.)]))));
    assert_eq!(run("(let)"), Err(ErrorKind::MissingArguments));
    assert_eq!(run("(let 5)"), Ok(number(5.)));
    assert_eq!(run("(let 1 2)"), Err(ErrorKind::InvalidArgument(number(1.))));
    assert_eq!(run("(let (x) 2)"), Err(ErrorKind::MissingArguments));
    assert_eq!(run("(let (x 1 2) 2)"), Err(ErrorKind::TooManyArguments));
    assert_eq!(run("(let (\"x\" 1) 2)"), Err(ErrorKind::InvalidArgument(Expr::String("x".into()))));
    assert_eq!(run("(let ((x 1) 5) 2)"), Err(ErrorKind::InvalidArgument(number(5.))));
    assert_eq!(
        run("(fn fact [n] (if (< n 2) 1 (* n (fact (- n 1))))) (fact 10)"),
        Ok(number(3628800.))
    );
}

#[test]
fn depth_is_limited() {
    let mut ctx = Context::default();
    run_in(&mut ctx, "(fn forever [n] (forever (+ n 1)))").unwrap();
    assert_eq!(run_in(&mut ctx, "(forever 0)"), Err(ErrorKind::RecursionLimit));
    // the context is as usable as before
    assert_eq!(run_in(&mut ctx, "(+ 1 2)"), Ok(number(3.)));
    ctx.set_limit(1);
    assert_eq!(run_in(&mut ctx, "(+ 1 2)"), Ok(number(3.)));
    assert_eq!(run_in(&mut ctx, "(+ 1 (+ 1 1))"), Err(ErrorKind::RecursionLimit));
    ctx.set_limit(0);
    assert_eq!(run_in(&mut ctx, "(+ 1 2)"), Err(ErrorKind::RecursionLimit));
    assert_eq!(run_in(&mut ctx, "()"), Ok(Expr::Nil));
    assert_eq!(run_in(&mut ctx, "5"), Ok(number(5.)));
}

#[test]
fn check_stops_at_the_first_error() {
    let mut ctx = Context::default();
    let forest = Parser::new("(const a 1) (nope) (const b 2)").parse(&Ieee).unwrap();
    let err = ctx.check(&forest, &Ieee).map(|e| e.kind);
    assert_eq!(err, Some(ErrorKind::UnknownSymbol(Symbol::from("nope"))));
    assert_eq!(ctx.get(&Symbol::from("a")), Some(&number(1.)));
    assert_eq!(ctx.get(&Symbol::from("b")), None);
    let forest = Parser::new("(const b 2)").parse(&Ieee).unwrap();
    assert!(ctx.check(&forest, &Ieee).is_none());
}

#[test]
fn values_are_shown() {
    assert_eq!(shown("1"), "1");
    assert_eq!(shown("2.5"), "2.5");
    assert_eq!(shown("true"), "true");
    assert_eq!(shown("\"a\\\"b\""), "\"a\\\"b\"");
    assert_eq!(shown("'c'"), "'c'");
    assert_eq!(shown(":key"), ":key");
    assert_eq!(shown("nil"), "nil");
    assert_eq!(shown("(quote sym)"), "sym");
    assert_eq!(shown("(list 1 (list) [2 3])"), "(1 () [2 3])");
    assert_eq!(shown("+"), "+");
}

#[test]
fn errors_are_sentences() {
    let mut ctx = Context::default();
    let forest = Parser::new("nope (1) (+ 1 true) (vec) (vec 1 2)").parse(&Ieee).unwrap();
    let said: Vec<String> = forest
        .iter()
        .map(|n| ctx.eval(n, &Ieee).unwrap_err().to_string(&Ieee))
        .collect();
    assert_eq!(
        said,
        vec![
            "Could not resolve symbol 'nope' in scope",
            "`1` is not a function",
            "`true` is not a valid argument for this function",
            "Function is missing arguments",
            "Function has extra arguments",
        ]
    );
}

#[test]
fn contexts_are_copied_whole() {
    let mut ctx = Context::default();
    run_in(&mut ctx, "(const x 1)").unwrap();
    let mut copy = ctx.clone();
    run_in(&mut copy, "(const x 2)").unwrap();
    assert_eq!(run_in(&mut ctx, "x"), Ok(number(1.)));
    assert_eq!(run_in(&mut copy, "x"), Ok(number(2.)));
    let plain = Highlighter::default();
    assert_eq!(
        plain.highlight("()", &Ieee),
        Highlighter::new(false).highlight("()", &Ieee)
    );
}
