use super::scope::Scope;
use crate::lexer::Symbol;

use crate::parser::{Node, Tree};
use vstd::prelude::*;

verus! {

broadcast use vstd::std_specs::vec::group_vec_axioms;

/// The functions that the language is born with.
#[derive(Debug, Clone, Copy, PartialEq, Eq, Structural)]
pub enum Builtin {
    Add,
    Multiply,
    Subtract,
    Divide,
    Equal,
    Less,
    Greater,
    LessOrEqual,
    GreaterOrEqual,
    Str,
    Chars,
    Join,
    Println,
    Quote,
    List,
    Vector,
    Vec,
    Nth,
    Lambda,
    Fn,
    Let,
    Const,
    If,
    And,
    Or,
    Not,
    ParseNum,
}

/// A function of the language itself, under the name it is bound to.
#[derive(Debug)]
pub struct BuiltinFn {
    pub name: Symbol,
    pub callback: Builtin,
}

/// A function that a program defined under a name. It knows no scope but
/// the one of its call.
#[derive(Debug)]
pub struct UserFn {
    pub name: Symbol,
    pub params: Vec<Symbol>,
    pub body: Node,
}

/// A function without a name, with the locals among which it was made.
#[derive(Debug)]
pub struct Closure {
    pub scope: Scope,
    pub params: Vec<Symbol>,
    pub body: Node,
}

/// A value of the language.
#[derive(Debug)]
pub enum Expr {
    /// A number, as the bit pattern of a 64-bit binary floating-point number.
    Number(u64),
    Bool(bool),
    String(String),
    /// A text that is shown as it is, without quotes.
    Display(String),
    Char(char),
    Symbol(Symbol),
    Keyword(String),
    List(Vec<Expr>),
    Vector(Vec<Expr>),
    BuiltinFn(BuiltinFn),
    UserFn(UserFn),
    Closure(Closure),
    Nil,
}

/// A value with its texts and parts as sequences.
pub enum Value {
    Number(u64),
    Bool(bool),
    String(Seq<char>),
    Display(Seq<char>),
    Char(char),
    Symbol(Seq<char>),
    Keyword(Seq<char>),
    List(Seq<Value>),
    Vector(Seq<Value>),
    BuiltinFn(Seq<char>, Builtin),
    UserFn(Seq<char>, Seq<Seq<char>>, Tree),
    Closure(Seq<(Seq<char>, Value)>, Seq<Seq<char>>, Tree),
    Nil,
}

/// The names of a sequence of symbols.
pub open spec fn names(symbols: Seq<Symbol>) -> Seq<Seq<char>> {
    symbols.map_values(|s: Symbol| s@)
}

/// The values of a sequence of expressions.
pub open spec fn values(exprs: Seq<Expr>) -> Seq<Value>
    decreases exprs,
{
    if exprs.len() == 0 {
        Seq::empty()
    } else {
        values(exprs.drop_last()).push(exprs.last()@)
    }
}

impl View for Expr {
    type V = Value;

    open spec fn view(&self) -> Value
        decreases self,
    {
        match self {
            Expr::Number(n) => Value::Number(*n),
            Expr::Bool(b) => Value::Bool(*b),
            Expr::String(s) => Value::String(s@),
            Expr::Display(s) => Value::Display(s@),
            Expr::Char(c) => Value::Char(*c),
            Expr::Symbol(s) => Value::Symbol(s@),
            Expr::Keyword(s) => Value::Keyword(s@),
            Expr::List(v) => Value::List(values(v@)),
            Expr::Vector(v) => Value::Vector(values(v@)),
            Expr::BuiltinFn(f) => Value::BuiltinFn(f.name@, f.callback),
            Expr::UserFn(f) => Value::UserFn(f.name@, names(f.params@), f.body@),
            Expr::Closure(f) => Value::Closure(f.scope@, names(f.params@), f.body@),
            Expr::Nil => Value::Nil,
        }
    }
}

/// The values of expressions are the values of each, in order.
pub proof fn lemma_values(exprs: Seq<Expr>)
    ensures
        values(exprs).len() == exprs.len(),
        forall|i: int| 0 <= i < exprs.len() ==> (#[trigger] values(exprs)[i]) == exprs[i]@,
    decreases exprs.len(),
{
    reveal_with_fuel(values, 2);
    if exprs.len() > 0 {
        lemma_values(exprs.drop_last());
        assert(values(exprs) == values(exprs.drop_last()).push(exprs.last()@));
    } else {
        assert(values(exprs) == Seq::<Value>::empty());
    }
}

/// The values of one more expression are one more value.
pub proof fn lemma_values_push(exprs: Seq<Expr>, expr: Expr)
    ensures
        values(exprs.push(expr)) == values(exprs).push(expr@),
{
    reveal_with_fuel(values, 2);
    assert(exprs.push(expr).drop_last() =~= exprs);
}

/// Copies of the symbols, in order.
pub(crate) fn clone_symbols(symbols: &Vec<Symbol>) -> (r: Vec<Symbol>)
    ensures
        names(r@) == names(symbols@),
        r@.len() == symbols@.len(),
{
    let mut out: Vec<Symbol> = Vec::new();
    let mut i: usize = 0;
    while i < symbols.len()
        invariant
            i <= symbols.len(),
            out@.len() == i,
            forall|j: int| 0 <= j < i ==> (#[trigger] out@[j])@ == symbols@[j]@,
        decreases symbols.len() - i,
    {
        out.push(symbols[i].clone());
        i += 1;
    }
    assert(names(out@) =~= names(symbols@));
    out
}

/// Copies of the expressions, in order.
pub(crate) fn clone_exprs(exprs: &Vec<Expr>) -> (r: Vec<Expr>)
    ensures
        values(r@) == values(exprs@),
        r@.len() == exprs@.len(),
    decreases exprs,
{
    let mut out: Vec<Expr> = Vec::new();
    let mut i: usize = 0;
    while i < exprs.len()
        invariant
            i <= exprs.len(),
            out@.len() == i,
            values(out@) == values(exprs@.take(i as int)),
        decreases exprs.len() - i,
    {
        let copy = exprs[i].clone();
        proof {
            lemma_values_push(out@, copy);
            lemma_values_push(exprs@.take(i as int), exprs@[i as int]);
            assert(exprs@.take(i + 1) =~= exprs@.take(i as int).push(exprs@[i as int]));
        }
        out.push(copy);
        i += 1;
    }
    assert(exprs@.take(i as int) =~= exprs@);
    out
}

impl Clone for BuiltinFn {
    fn clone(&self) -> (r: Self)
        ensures
            r.name@ == self.name@,
            r.callback == self.callback,
    {
        BuiltinFn { name: self.name.clone(), callback: self.callback }
    }
}

impl Clone for UserFn {
    fn clone(&self) -> (r: Self)
        ensures
            r.name@ == self.name@,
            names(r.params@) == names(self.params@),
            r.body@ == self.body@,
        decreases self,
    {
        UserFn {
            name: self.name.clone(),
            params: clone_symbols(&self.params),
            body: self.body.clone(),
        }
    }
}

impl Clone for Closure {
    fn clone(&self) -> (r: Self)
        ensures
            r.scope@ == self.scope@,
            names(r.params@) == names(self.params@),
            r.body@ == self.body@,
        decreases self,
    {
        Closure {
            scope: self.scope.clone(),
            params: clone_symbols(&self.params),
            body: self.body.clone(),
        }
    }
}

impl Clone for Expr {
    fn clone(&self) -> (r: Self)
        ensures
            r@ == self@,
        decreases self,
    {
        match self {
            Expr::Number(n) => Expr::Number(*n),
            Expr::Bool(b) => Expr::Bool(*b),
            Expr::String(s) => Expr::String(s.clone()),
            Expr::Display(s) => Expr::Display(s.clone()),
            Expr::Char(c) => Expr::Char(*c),
            Expr::Symbol(s) => Expr::Symbol(s.clone()),
            Expr::Keyword(s) => Expr::Keyword(s.clone()),
            Expr::List(v) => Expr::List(clone_exprs(v)),
            Expr::Vector(v) => Expr::Vector(clone_exprs(v)),
            Expr::BuiltinFn(f) => Expr::BuiltinFn(f.clone()),
            Expr::UserFn(f) => Expr::UserFn(f.clone()),
            Expr::Closure(f) => Expr::Closure(f.clone()),
            Expr::Nil => Expr::Nil,
        }
    }
}

impl BuiltinFn {
    /// The function `callback` of the language under the name `name`.
    pub fn new(name: &str, callback: Builtin) -> (r: Self)
        ensures
            r.name@ == name@,
            r.callback == callback,
    {
        Self { name: Symbol::from(name), callback }
    }
}

impl UserFn {
    /// A function of the program under the name `name`.
    pub fn new(name: Symbol, params: Vec<Symbol>, body: Node) -> (r: Self)
        ensures
            r.name == name,
            r.params == params,
            r.body == body,
    {
        Self { name, params, body }
    }
}

impl Closure {
    /// A function without a name, which keeps `scope` as its own.
    pub fn new(scope: Scope, params: Vec<Symbol>, body: Node) -> (r: Self)
        ensures
            r.scope == scope,
            r.params == params,
            r.body == body,
    {
        Self { scope, params, body }
    }
}

} // verus!
