//! The context: what is bound, and the evaluator that works on it.

use super::apply::apply_to;
use super::error::{Error, ErrorKind, ErrorView, Fault};
use super::expr::{
    lemma_values, lemma_values_push, names, values, Builtin, Closure, Expr, UserFn, Value,
};
use super::quote::{literal, quote};
use super::rules::{
    all_hold, any_holds, apply, arity, asks_nothing, bind, builtin, call, characters, checked,
    condition, eval, eval_args, invoke, is_call, is_group, is_quiet, is_strict, let_binding,
    let_bindings, let_pair, let_pairs, parameters, resolve, scoped, separator, strict, symbols, Env,
    Many, Outcome,
};
use super::scope::{born, bound, lookup, rising, Scope};
use super::show::{char_text, join, text_of, texts, texts_all};
use crate::host::{is_function, Host};
use crate::lexer::Symbol;
use crate::parser::node::{lemma_trees, trees};
use crate::parser::{Node, NodeKind};
use crate::span::Span;
use vstd::prelude::*;
use vstd::slice::slice_subrange;

verus! {

broadcast use {vstd::seq::group_seq_axioms, vstd::std_specs::vec::group_vec_axioms};

/// What is bound, globally and locally, and the span that errors of a call
/// are laid at.
pub struct Context {
    globals: Scope,
    locals: Scope,
    span: Span,
    depth: usize,
}

impl View for Context {
    type V = Env;

    closed spec fn view(&self) -> Env {
        Env { globals: self.globals@, locals: self.locals@, span: self.span }
    }
}

/// What an evaluation returned, and the context after it.
pub open spec fn outcome(r: Result<Expr, Error>, env: Env) -> Outcome {
    Outcome {
        result: match r {
            Ok(v) => Ok(v@),
            Err(e) => Err(e@),
        },
        env,
    }
}

/// The trees of a part of a sequence of nodes are that part of its trees.
pub proof fn lemma_trees_subrange(nodes: Seq<Node>, from: int, to: int)
    requires
        0 <= from <= to <= nodes.len(),
    ensures
        trees(nodes.subrange(from, to)) == trees(nodes).subrange(from, to),
{
    lemma_trees(nodes);
    lemma_trees(nodes.subrange(from, to));
    assert(trees(nodes.subrange(from, to)) =~= trees(nodes).subrange(from, to));
}

/// The symbols that the values are; none where one is no symbol.
fn symbols_of(vals: &Vec<Expr>) -> (r: Option<Vec<Symbol>>)
    ensures
        match symbols(values(vals@), vals@.len() as int) {
            Some(ns) => r matches Some(got) && names(got@) == ns,
            None => r is None,
        },
{
    let mut out: Vec<Symbol> = Vec::new();
    let mut i: usize = 0;
    proof {
        lemma_values(vals@);
        assert(names(out@) =~= Seq::<Seq<char>>::empty());
    }
    while i < vals.len()
        invariant
            i <= vals.len(),
            values(vals@).len() == vals@.len(),
            forall|j: int| 0 <= j < vals@.len() ==> (#[trigger] values(vals@)[j]) == vals@[j]@,
            symbols(values(vals@), i as int) == Some(names(out@)),
        decreases vals.len() - i,
    {
        match &vals[i] {
            Expr::Symbol(s) => {
                let copy = s.clone();
                assert(names(out@.push(copy)) =~= names(out@).push(copy@));
                out.push(copy);
            },
            _ => {
                proof {
                    lemma_symbols_stop(values(vals@), i as int + 1, vals@.len() as int);
                }
                return None;
            },
        }
        i += 1;
    }
    Some(out)
}

/// Once a value is no symbol, the values up to any later one are not all
/// symbols either.
pub proof fn lemma_symbols_stop(vals: Seq<Value>, n: int, m: int)
    requires
        0 <= n <= m,
        symbols(vals, n) is None,
    ensures
        symbols(vals, m) is None,
    decreases m - n,
{
    if n < m {
        lemma_symbols_stop(vals, n, m - 1);
    }
}

/// The parameters that a value names.
fn params_of(value: &Expr) -> (r: Option<Vec<Symbol>>)
    ensures
        match parameters(value@) {
            Some(ns) => r matches Some(got) && names(got@) == ns,
            None => r is None,
        },
{
    match value {
        Expr::List(items) => {
            proof {
                lemma_values(items@);
            }
            symbols_of(items)
        },
        Expr::Nil => {
            let none: Vec<Symbol> = Vec::new();
            assert(names(none@) =~= Seq::<Seq<char>>::empty());
            Some(none)
        },
        _ => None,
    }
}

/// How deep a new context lets lists be nested and functions call each
/// other.
pub const DEPTH: usize = 512;

impl Clone for Context {
    fn clone(&self) -> (r: Self)
        ensures
            r@ == self@,
            r.limit() == self.limit(),
    {
        Context {
            globals: self.globals.clone(),
            locals: self.locals.clone(),
            span: self.span.clone(),
            depth: self.depth,
        }
    }
}

impl Default for Context {
    /// A context for a program without arguments.
    fn default() -> (r: Self)
        ensures
            r@.globals == born(Seq::empty()),
            r@.locals == Seq::<(Seq<char>, Value)>::empty(),
            r@.span.bytes.start == 0 && r@.span.bytes.end == 0,
            r.limit() == DEPTH,
    {
        let none: Vec<String> = Vec::new();
        assert(texts(none@) =~= Seq::<Seq<char>>::empty());
        Context::new(none)
    }
}

impl Context {
    /// How deep lists may be nested, and functions call each other.
    pub closed spec fn limit(&self) -> nat {
        self.depth as nat
    }

    /// A context with the functions of the language bound globally, and
    /// `args`, the arguments of the program, under `@cmd-args`.
    pub fn new(args: Vec<String>) -> (r: Self)
        ensures
            r@.globals == born(texts(args@)),
            r@.locals == Seq::<(Seq<char>, Value)>::empty(),
            r@.span.bytes.start == 0 && r@.span.bytes.end == 0,
            r@.span.source.text() == Seq::<char>::empty(),
            r.limit() == DEPTH,
    {
        Self {
            globals: Scope::builtins(args),
            locals: Scope::new(),
            span: Span::default(),
            depth: DEPTH,
        }
    }

    /// Sets how deep lists may be nested, and functions call each other.
    pub fn set_limit(&mut self, depth: usize)
        ensures
            final(self)@ == old(self)@,
            final(self).limit() == depth,
    {
        self.depth = depth;
    }

    /// The names that are bound globally, in rising order, each once.
    pub fn list_globals(&self) -> (r: Vec<Symbol>)
        ensures
            rising(names(r@)),
            forall|n: Seq<char>| names(r@).contains(n) <==> lookup(self@.globals, n) is Some,
    {
        self.globals.names()
    }

    /// Evaluates a node. The locals and the span are afterwards what they
    /// were before, whatever was evaluated. What a node that calls nothing
    /// gives is a function of the node and the context, and so is what
    /// `quote`, `lambda` and `fn` give; what another call gives is one too
    /// where the host computes the same from the same.
    pub fn eval<H: Host>(&mut self, ast: &Node, host: &H) -> (r: Result<Expr, Error>)
        ensures
            final(self)@.locals == old(self)@.locals,
            final(self)@.span == old(self)@.span,
            final(self).limit() == old(self).limit(),
            is_function(host) || !is_call(ast@) || asks_nothing(old(self)@, ast@) ==> outcome(
                r,
                final(self)@,
            ) == eval(
                host,
                old(self)@,
                ast@,
                old(self).limit(),
            ),
    {
        let depth = self.depth;
        self.eval_at(host, ast, depth)
    }

    /// Evaluates the nodes in order up to the first that is an error, and
    /// returns that error.
    pub fn check<H: Host>(&mut self, ast: &[Node], host: &H) -> (r: Option<Error>)
        ensures
            final(self)@.locals == old(self)@.locals,
            final(self)@.span == old(self)@.span,
            final(self).limit() == old(self).limit(),
            is_function(host) ==> (
                match r {
                    Some(e) => Some(e@),
                    None => None,
                },
                final(self)@,
            ) == checked(host, old(self)@, trees(ast@), 0, old(self).limit()),
    {
        let depth = self.depth;
        let mut i: usize = 0;
        proof {
            lemma_trees(ast@);
        }
        while i < ast.len()
            invariant
                i <= ast.len(),
                depth == self.depth,
                trees(ast@).len() == ast@.len(),
                forall|j: int| 0 <= j < ast@.len() ==> (#[trigger] trees(ast@)[j]) == ast@[j]@,
                self@.locals == old(self)@.locals,
                self@.span == old(self)@.span,
                self.limit() == old(self).limit(),
                is_function(host) ==> checked(host, self@, trees(ast@), i as int, depth as nat)
                    == checked(host, old(self)@, trees(ast@), 0, depth as nat),
            decreases ast.len() - i,
        {
            match self.eval_at(host, &ast[i], depth) {
                Ok(_) => {},
                Err(e) => {
                    return Some(e);
                },
            }
            i += 1;
        }
        None
    }

    /// What `sym` stands for: a local, or else a global.
    pub fn get(&self, sym: &Symbol) -> (r: Option<&Expr>)
        ensures
            match resolve(self@, sym@) {
                Some(value) => r matches Some(e) && e@ == value,
                None => r is None,
            },
    {
        match self.locals.get(sym) {
            Some(e) => Some(e),
            None => self.globals.get(sym),
        }
    }

    /// An error of the kind, laid at the span of the context.
    fn error(&self, kind: ErrorKind) -> (r: Error)
        ensures
            r@ == (ErrorView { kind: kind@, span: self@.span }),
    {
        Error::new(kind, self.span.clone())
    }

    /// The error for `n` arguments where exactly `want` are taken.
    fn count(&self, n: usize, want: usize) -> (r: Option<Error>)
        ensures
            match arity(n as int, want as int) {
                Some(kind) => r matches Some(e) && e@ == (ErrorView { kind, span: self@.span }),
                None => r is None,
            },
    {
        if n < want {
            Some(self.error(ErrorKind::MissingArguments))
        } else if n > want {
            Some(self.error(ErrorKind::TooManyArguments))
        } else {
            None
        }
    }

    /// A node evaluated, `depth` deep at most.
    fn eval_at<H: Host>(&mut self, host: &H, ast: &Node, depth: usize) -> (r: Result<Expr, Error>)
        ensures
            final(self)@.locals == old(self)@.locals,
            final(self)@.span == old(self)@.span,
            final(self).limit() == old(self).limit(),
            is_function(host) || !is_call(ast@) || asks_nothing(old(self)@, ast@) ==> outcome(
                r,
                final(self)@,
            ) == eval(
                host,
                old(self)@,
                ast@,
                depth as nat,
            ),
        decreases depth, 0nat, 0nat,
    {
        match &ast.kind {
            NodeKind::Symbol(sym) => match self.get(sym) {
                Some(v) => Ok(v.clone()),
                None => Err(Error::new(ErrorKind::UnknownSymbol(sym.clone()), ast.span.clone())),
            },
            NodeKind::List(list) => {
                proof {
                    lemma_trees(list@);
                }
                if list.len() == 0 {
                    return Ok(Expr::Nil);
                }
                if depth == 0 {
                    return Err(Error::new(ErrorKind::RecursionLimit, ast.span.clone()));
                }
                let mut site = list[0].span.clone();
                core::mem::swap(&mut self.span, &mut site);
                let f = match self.eval_at(host, &list[0], depth - 1) {
                    Ok(f) => f,
                    Err(e) => {
                        self.span = site;
                        return Err(e);
                    },
                };
                let args = slice_subrange(list.as_slice(), 1, list.len());
                proof {
                    lemma_trees_subrange(list@, 1, list@.len() as int);
                    assert(trees(list@).skip(1) =~= trees(list@).subrange(1, list@.len() as int));
                }
                let res = self.call(host, f, args, depth - 1);
                self.span = site;
                res
            },
            _ => Ok(quote(ast)),
        }
    }

    /// The arguments evaluated in order.
    fn eval_args<H: Host>(&mut self, host: &H, args: &[Node], depth: usize) -> (r: Result<
        Vec<Expr>,
        Error,
    >)
        ensures
            final(self)@.locals == old(self)@.locals,
            final(self)@.span == old(self)@.span,
            final(self).limit() == old(self).limit(),
            is_function(host) ==> (Many {
                result: match r {
                    Ok(v) => Ok(values(v@)),
                    Err(e) => Err(e@),
                },
                env: final(self)@,
            }) == eval_args(host, old(self)@, trees(args@), 0, Seq::empty(), depth as nat),
            r matches Ok(v) ==> v@.len() == args@.len(),
        decreases depth, 1nat, args@.len(),
    {
        let mut out: Vec<Expr> = Vec::new();
        let mut i: usize = 0;
        proof {
            lemma_trees(args@);
            lemma_values(out@);
            assert(values(out@) =~= Seq::<Value>::empty());
        }
        while i < args.len()
            invariant
                i <= args.len(),
                out@.len() == i,
                trees(args@).len() == args@.len(),
                forall|j: int| 0 <= j < args@.len() ==> (#[trigger] trees(args@)[j]) == args@[j]@,
                self@.locals == old(self)@.locals,
                self@.span == old(self)@.span,
                self.limit() == old(self).limit(),
                is_function(host) ==> eval_args(
                    host,
                    self@,
                    trees(args@),
                    i as int,
                    values(out@),
                    depth as nat,
                ) == eval_args(host, old(self)@, trees(args@), 0, Seq::empty(), depth as nat),
            decreases args.len() - i,
        {
            let value = match self.eval_at(host, &args[i], depth) {
                Ok(v) => v,
                Err(e) => {
                    return Err(e);
                },
            };
            proof {
                lemma_values_push(out@, value);
            }
            out.push(value);
            i += 1;
        }
        Ok(out)
    }

    /// A node evaluated among other locals; the locals of the context are
    /// those of before again afterwards.
    fn eval_scoped<H: Host>(&mut self, host: &H, ast: &Node, locals: Scope, depth: usize) -> (r:
        Result<Expr, Error>)
        ensures
            final(self)@.locals == old(self)@.locals,
            final(self)@.span == old(self)@.span,
            final(self).limit() == old(self).limit(),
            is_function(host) ==> outcome(r, final(self)@) == scoped(
                host,
                old(self)@,
                ast@,
                locals@,
                depth as nat,
            ),
        decreases depth, 1nat, 0nat,
    {
        let mut saved = locals;
        core::mem::swap(&mut self.locals, &mut saved);
        let res = self.eval_at(host, ast, depth);
        self.locals = saved;
        res
    }

    /// A function of the program called: its parameters bound on top of
    /// `locals`, then its body evaluated among them.
    fn invoke<H: Host>(
        &mut self,
        host: &H,
        locals: Scope,
        params: &Vec<Symbol>,
        body: &Node,
        args: &[Node],
        depth: usize,
    ) -> (r: Result<Expr, Error>)
        ensures
            final(self)@.locals == old(self)@.locals,
            final(self)@.span == old(self)@.span,
            final(self).limit() == old(self).limit(),
            is_function(host) ==> outcome(r, final(self)@) == invoke(
                host,
                old(self)@,
                locals@,
                names(params@),
                body@,
                trees(args@),
                depth as nat,
            ),
        decreases depth, 3nat, 0nat,
    {
        let mut inner = locals;
        let mut i: usize = 0;
        proof {
            lemma_trees(args@);
        }
        while i < params.len()
            invariant
                i <= params.len(),
                trees(args@).len() == args@.len(),
                forall|j: int| 0 <= j < args@.len() ==> (#[trigger] trees(args@)[j]) == args@[j]@,
                self@.locals == old(self)@.locals,
                self@.span == old(self)@.span,
                self.limit() == old(self).limit(),
                is_function(host) ==> bind(
                    host,
                    self@,
                    names(params@),
                    trees(args@),
                    i as int,
                    inner@,
                    depth as nat,
                ) == bind(
                    host,
                    old(self)@,
                    names(params@),
                    trees(args@),
                    0,
                    locals@,
                    depth as nat,
                ),
            decreases params.len() - i,
        {
            if i >= args.len() {
                return Err(self.error(ErrorKind::MissingArguments));
            }
            let value = match self.eval_at(host, &args[i], depth) {
                Ok(v) => v,
                Err(e) => {
                    return Err(e);
                },
            };
            inner.insert(params[i].clone(), value);
            i += 1;
        }
        if args.len() > params.len() {
            return Err(self.error(ErrorKind::TooManyArguments));
        }
        self.eval_scoped(host, body, inner, depth)
    }

    /// A value called with arguments.
    fn call<H: Host>(&mut self, host: &H, f: Expr, args: &[Node], depth: usize) -> (r: Result<
        Expr,
        Error,
    >)
        ensures
            final(self)@.locals == old(self)@.locals,
            final(self)@.span == old(self)@.span,
            final(self).limit() == old(self).limit(),
            is_function(host) || (f@ matches Value::BuiltinFn(_, op) && is_quiet(op)) ==> outcome(
                r,
                final(self)@,
            ) == call(
                host,
                old(self)@,
                f@,
                trees(args@),
                depth as nat,
            ),
        decreases depth, 6nat, 0nat,
    {
        match f {
            Expr::BuiltinFn(b) => self.builtin(host, b.callback, args, depth),
            Expr::UserFn(u) => self.invoke(host, Scope::new(), &u.params, &u.body, args, depth),
            Expr::Closure(c) => {
                let Closure { scope, params, body } = c;
                self.invoke(host, scope, &params, &body, args, depth)
            },
            other => Err(self.error(ErrorKind::InvalidFunction(other))),
        }
    }

    /// A function of the language called.
    fn builtin<H: Host>(&mut self, host: &H, op: Builtin, args: &[Node], depth: usize) -> (r:
        Result<Expr, Error>)
        ensures
            final(self)@.locals == old(self)@.locals,
            final(self)@.span == old(self)@.span,
            final(self).limit() == old(self).limit(),
            is_function(host) || is_quiet(op) ==> outcome(r, final(self)@) == builtin(
                host,
                old(self)@,
                op,
                trees(args@),
                depth as nat,
            ),
        decreases depth, 5nat, 0nat,
    {
        proof {
            lemma_trees(args@);
        }
        match op {
            Builtin::Quote => self.form_quote(args),
            Builtin::Chars => self.form_chars(host, args),
            Builtin::Lambda => self.form_lambda(args),
            Builtin::Fn => self.form_fn(args),
            Builtin::Let => self.form_let(host, args, depth),
            Builtin::Const => self.form_const(host, args, depth),
            Builtin::If => self.form_if(host, args, depth),
            Builtin::And => self.form_and(host, args, depth),
            Builtin::Or => self.form_or(host, args, depth),
            Builtin::Not => self.form_not(host, args, depth),
            Builtin::Join => self.form_join(host, args, depth),
            _ => self.strict(host, op, args, depth),
        }
    }

    /// `quote`: its one argument as a value, not evaluated.
    fn form_quote(&self, args: &[Node]) -> (r: Result<Expr, Error>)
        ensures
            match arity(args@.len() as int, 1) {
                Some(kind) => r matches Err(e) && e@ == (ErrorView { kind, span: self@.span }),
                None => r matches Ok(v) && v@ == literal(trees(args@)[0]),
            },
    {
        proof {
            lemma_trees(args@);
        }
        match self.count(args.len(), 1) {
            Some(e) => Err(e),
            None => Ok(quote(&args[0])),
        }
    }

    /// `chars`: the characters of the text of its one argument, which is
    /// not evaluated.
    fn form_chars<H: Host>(&self, host: &H, args: &[Node]) -> (r: Result<Expr, Error>)
        ensures
            is_function(host) ==> match arity(args@.len() as int, 1) {
                Some(kind) => r matches Err(e) && e@ == (ErrorView { kind, span: self@.span }),
                None => r matches Ok(v) && v@ == Value::Vector(
                    characters(text_of(host, literal(trees(args@)[0]))),
                ),
            },
    {
        proof {
            lemma_trees(args@);
        }
        match self.count(args.len(), 1) {
            Some(e) => Err(e),
            None => {
                let text = quote(&args[0]).text(host);
                Ok(Expr::Vector(super::apply::chars_of(text.as_str())))
            },
        }
    }

    /// `lambda`: a closure over the locals, of parameters and a body.
    fn form_lambda(&self, args: &[Node]) -> (r: Result<Expr, Error>)
        ensures
            match arity(args@.len() as int, 2) {
                Some(kind) => r matches Err(e) && e@ == (ErrorView { kind, span: self@.span }),
                None => match parameters(literal(trees(args@)[0])) {
                    Some(params) => r matches Ok(v) && v@ == Value::Closure(
                        self@.locals,
                        params,
                        trees(args@)[1],
                    ),
                    None => r matches Err(e) && e@ == (ErrorView {
                        kind: Fault::InvalidArgument(literal(trees(args@)[0])),
                        span: self@.span,
                    }),
                },
            },
    {
        proof {
            lemma_trees(args@);
        }
        match self.count(args.len(), 2) {
            Some(e) => Err(e),
            None => {
                let named = quote(&args[0]);
                match params_of(&named) {
                    Some(params) => Ok(
                        Expr::Closure(
                            Closure { scope: self.locals.clone(), params, body: args[1].clone() },
                        ),
                    ),
                    None => Err(self.error(ErrorKind::InvalidArgument(named))),
                }
            },
        }
    }

    /// `fn`: binds a name, globally, to a function of parameters and a
    /// body.
    fn form_fn(&mut self, args: &[Node]) -> (r: Result<Expr, Error>)
        ensures
            final(self)@.locals == old(self)@.locals,
            final(self)@.span == old(self)@.span,
            final(self).limit() == old(self).limit(),
            match arity(args@.len() as int, 3) {
                Some(kind) => final(self)@ == old(self)@ && (r matches Err(e) && e@ == (ErrorView {
                    kind,
                    span: old(self)@.span,
                })),
                None => match literal(trees(args@)[0]) {
                    Value::Symbol(name) => match literal(trees(args@)[1]) {
                        Value::Vector(items) => match symbols(items, items.len() as int) {
                            Some(params) => (r matches Ok(v) && v@ == Value::Nil)
                                && final(self)@.globals == bound(
                                old(self)@.globals,
                                name,
                                Value::UserFn(name, params, trees(args@)[2]),
                            ),
                            None => final(self)@ == old(self)@ && (r matches Err(e) && e@ == (
                                ErrorView {
                                    kind: Fault::InvalidArgument(literal(trees(args@)[1])),
                                    span: old(self)@.span,
                                })),
                        },
                        other => final(self)@ == old(self)@ && (r matches Err(e) && e@ == (
                            ErrorView { kind: Fault::InvalidArgument(other), span: old(self)@.span })),
                    },
                    other => final(self)@ == old(self)@ && (r matches Err(e) && e@ == (ErrorView {
                        kind: Fault::InvalidArgument(other),
                        span: old(self)@.span,
                    })),
                },
            },
    {
        proof {
            lemma_trees(args@);
        }
        match self.count(args.len(), 3) {
            Some(e) => {
                return Err(e);
            },
            None => {},
        }
        let name = match quote(&args[0]) {
            Expr::Symbol(name) => name,
            other => {
                return Err(self.error(ErrorKind::InvalidArgument(other)));
            },
        };
        let params = match quote(&args[1]) {
            Expr::Vector(items) => {
                proof {
                    lemma_values(items@);
                }
                match symbols_of(&items) {
                    Some(params) => params,
                    None => {
                        return Err(self.error(ErrorKind::InvalidArgument(Expr::Vector(items))));
                    },
                }
            },
            other => {
                return Err(self.error(ErrorKind::InvalidArgument(other)));
            },
        };
        let body = args[2].clone();
        let f = Expr::UserFn(UserFn { name: name.clone(), params, body });
        self.globals.insert(name, f);
        Ok(Expr::Nil)
    }

    /// One binding of a `let` made.
    fn let_pair<H: Host>(&mut self, host: &H, pair: &Node, depth: usize) -> (r: Result<
        Expr,
        Error,
    >)
        ensures
            final(self)@.span == old(self)@.span,
            final(self).limit() == old(self).limit(),
            is_function(host) ==> outcome(r, final(self)@) == let_pair(
                host,
                old(self)@,
                pair@,
                depth as nat,
            ),
        decreases depth, 1nat, 0nat,
    {
        match &pair.kind {
            NodeKind::List(p) => {
                proof {
                    lemma_trees(p@);
                }
                match self.count(p.len(), 2) {
                    Some(e) => {
                        return Err(e);
                    },
                    None => {},
                }
                let name = match quote(&p[0]) {
                    Expr::Symbol(name) => name,
                    other => {
                        return Err(self.error(ErrorKind::InvalidArgument(other)));
                    },
                };
                let value = match self.eval_at(host, &p[1], depth) {
                    Ok(v) => v,
                    Err(e) => {
                        return Err(e);
                    },
                };
                self.locals.insert(name, value);
                Ok(Expr::Nil)
            },
            _ => Err(self.error(ErrorKind::InvalidArgument(quote(pair)))),
        }
    }

    /// The bindings of a list of bindings made, each among those before it.
    fn let_group<H: Host>(&mut self, host: &H, pairs: &Vec<Node>, depth: usize) -> (r: Result<
        Expr,
        Error,
    >)
        ensures
            final(self)@.span == old(self)@.span,
            final(self).limit() == old(self).limit(),
            is_function(host) ==> outcome(r, final(self)@) == let_pairs(
                host,
                old(self)@,
                trees(pairs@),
                0,
                depth as nat,
            ),
        decreases depth, 2nat, 0nat,
    {
        let mut i: usize = 0;
        proof {
            lemma_trees(pairs@);
        }
        while i < pairs.len()
            invariant
                i <= pairs.len(),
                trees(pairs@).len() == pairs@.len(),
                forall|j: int|
                    0 <= j < pairs@.len() ==> (#[trigger] trees(pairs@)[j]) == pairs@[j]@,
                self.limit() == old(self).limit(),
                self@.span == old(self)@.span,
                is_function(host) ==> let_pairs(
                    host,
                    self@,
                    trees(pairs@),
                    i as int,
                    depth as nat,
                ) == let_pairs(host, old(self)@, trees(pairs@), 0, depth as nat),
            decreases pairs.len() - i,
        {
            match self.let_pair(host, &pairs[i], depth) {
                Ok(_) => {},
                Err(e) => {
                    return Err(e);
                },
            }
            i += 1;
        }
        Ok(Expr::Nil)
    }

    /// One argument of `let` before the body: one binding, or a list of
    /// bindings.
    fn let_binding<H: Host>(&mut self, host: &H, item: &Node, depth: usize) -> (r: Result<
        Expr,
        Error,
    >)
        ensures
            final(self)@.span == old(self)@.span,
            final(self).limit() == old(self).limit(),
            is_function(host) ==> outcome(r, final(self)@) == let_binding(
                host,
                old(self)@,
                item@,
                depth as nat,
            ),
        decreases depth, 3nat, 0nat,
    {
        match &item.kind {
            NodeKind::List(p) => {
                proof {
                    lemma_trees(p@);
                }
                let group = p.len() == 0 || match &p[0].kind {
                    NodeKind::List(_) => true,
                    _ => false,
                };
                assert(group == is_group(item@));
                if group {
                    self.let_group(host, p, depth)
                } else {
                    self.let_pair(host, item, depth)
                }
            },
            _ => Err(self.error(ErrorKind::InvalidArgument(quote(item)))),
        }
    }

    /// `let`: bindings made one after another, each among those before it,
    /// then a body evaluated among them all.
    fn form_let<H: Host>(&mut self, host: &H, args: &[Node], depth: usize) -> (r: Result<
        Expr,
        Error,
    >)
        ensures
            final(self)@.locals == old(self)@.locals,
            final(self)@.span == old(self)@.span,
            final(self).limit() == old(self).limit(),
            is_function(host) ==> outcome(r, final(self)@) == builtin(
                host,
                old(self)@,
                Builtin::Let,
                trees(args@),
                depth as nat,
            ),
        decreases depth, 4nat, 0nat,
    {
        proof {
            lemma_trees(args@);
        }
        if args.len() == 0 {
            return Err(self.error(ErrorKind::MissingArguments));
        }
        let last = args.len() - 1;
        let saved = self.locals.clone();
        let ghost pairs = trees(args@).drop_last();
        let mut i: usize = 0;
        while i < last
            invariant
                i <= last,
                last == args@.len() - 1,
                pairs == trees(args@).drop_last(),
                trees(args@).len() == args@.len(),
                forall|j: int| 0 <= j < args@.len() ==> (#[trigger] trees(args@)[j]) == args@[j]@,
                saved@ == old(self)@.locals,
                self.limit() == old(self).limit(),
                self@.span == old(self)@.span,
                is_function(host) ==> let_bindings(host, self@, pairs, i as int, depth as nat)
                    == let_bindings(host, old(self)@, pairs, 0, depth as nat),
            decreases last - i,
        {
            assert(pairs[i as int] == trees(args@)[i as int]);
            match self.let_binding(host, &args[i], depth) {
                Ok(_) => {},
                Err(e) => {
                    self.locals = saved;
                    return Err(e);
                },
            }
            i += 1;
        }
        let res = self.eval_at(host, &args[last], depth);
        self.locals = saved;
        res
    }

    /// `const`: binds a name, globally, to a node evaluated.
    fn form_const<H: Host>(&mut self, host: &H, args: &[Node], depth: usize) -> (r: Result<
        Expr,
        Error,
    >)
        ensures
            final(self)@.locals == old(self)@.locals,
            final(self)@.span == old(self)@.span,
            final(self).limit() == old(self).limit(),
            is_function(host) ==> outcome(r, final(self)@) == builtin(
                host,
                old(self)@,
                Builtin::Const,
                trees(args@),
                depth as nat,
            ),
        decreases depth, 2nat, 0nat,
    {
        proof {
            lemma_trees(args@);
        }
        match self.count(args.len(), 2) {
            Some(e) => {
                return Err(e);
            },
            None => {},
        }
        let name = match quote(&args[0]) {
            Expr::Symbol(name) => name,
            other => {
                return Err(self.error(ErrorKind::InvalidArgument(other)));
            },
        };
        let value = match self.eval_at(host, &args[1], depth) {
            Ok(v) => v,
            Err(e) => {
                return Err(e);
            },
        };
        self.globals.insert(name, value);
        Ok(Expr::Nil)
    }

    /// A node evaluated as a condition.
    fn condition<H: Host>(&mut self, host: &H, ast: &Node, depth: usize) -> (r: Result<bool, Error>)
        ensures
            final(self)@.locals == old(self)@.locals,
            final(self)@.span == old(self)@.span,
            final(self).limit() == old(self).limit(),
            is_function(host) ==> (Outcome {
                result: match r {
                    Ok(b) => Ok(Value::Bool(b)),
                    Err(e) => Err(e@),
                },
                env: final(self)@,
            }) == condition(host, old(self)@, ast@, depth as nat),
        decreases depth, 1nat, 0nat,
    {
        match self.eval_at(host, ast, depth) {
            Ok(Expr::Bool(b)) => Ok(b),
            Ok(other) => Err(self.error(ErrorKind::InvalidArgument(other))),
            Err(e) => Err(e),
        }
    }

    /// `if`: a condition, and one of two nodes evaluated, or of one and
    /// nil.
    fn form_if<H: Host>(&mut self, host: &H, args: &[Node], depth: usize) -> (r: Result<
        Expr,
        Error,
    >)
        ensures
            final(self)@.locals == old(self)@.locals,
            final(self)@.span == old(self)@.span,
            final(self).limit() == old(self).limit(),
            is_function(host) ==> outcome(r, final(self)@) == builtin(
                host,
                old(self)@,
                Builtin::If,
                trees(args@),
                depth as nat,
            ),
        decreases depth, 2nat, 0nat,
    {
        proof {
            lemma_trees(args@);
        }
        let n = args.len();
        if n != 3 {
            match self.count(n, 2) {
                Some(e) => {
                    return Err(e);
                },
                None => {},
            }
        }
        let holds = match self.condition(host, &args[0], depth) {
            Ok(b) => b,
            Err(e) => {
                return Err(e);
            },
        };
        if holds {
            self.eval_at(host, &args[1], depth)
        } else if n == 3 {
            self.eval_at(host, &args[2], depth)
        } else {
            Ok(Expr::Nil)
        }
    }

    /// `and`: false at the first argument that is false, else true.
    fn form_and<H: Host>(&mut self, host: &H, args: &[Node], depth: usize) -> (r: Result<
        Expr,
        Error,
    >)
        ensures
            final(self)@.locals == old(self)@.locals,
            final(self)@.span == old(self)@.span,
            final(self).limit() == old(self).limit(),
            is_function(host) ==> outcome(r, final(self)@) == builtin(
                host,
                old(self)@,
                Builtin::And,
                trees(args@),
                depth as nat,
            ),
        decreases depth, 2nat, 0nat,
    {
        proof {
            lemma_trees(args@);
        }
        let mut i: usize = 0;
        while i < args.len()
            invariant
                i <= args.len(),
                trees(args@).len() == args@.len(),
                forall|j: int| 0 <= j < args@.len() ==> (#[trigger] trees(args@)[j]) == args@[j]@,
                self@.locals == old(self)@.locals,
                self@.span == old(self)@.span,
                self.limit() == old(self).limit(),
                is_function(host) ==> all_hold(host, self@, trees(args@), i as int, depth as nat)
                    == all_hold(host, old(self)@, trees(args@), 0, depth as nat),
            decreases args.len() - i,
        {
            match self.condition(host, &args[i], depth) {
                Ok(b) => {
                    if !b {
                        return Ok(Expr::Bool(false));
                    }
                },
                Err(e) => {
                    return Err(e);
                },
            }
            i += 1;
        }
        Ok(Expr::Bool(true))
    }

    /// `or`: true at the first argument that is true, else false.
    fn form_or<H: Host>(&mut self, host: &H, args: &[Node], depth: usize) -> (r: Result<
        Expr,
        Error,
    >)
        ensures
            final(self)@.locals == old(self)@.locals,
            final(self)@.span == old(self)@.span,
            final(self).limit() == old(self).limit(),
            is_function(host) ==> outcome(r, final(self)@) == builtin(
                host,
                old(self)@,
                Builtin::Or,
                trees(args@),
                depth as nat,
            ),
        decreases depth, 2nat, 0nat,
    {
        proof {
            lemma_trees(args@);
        }
        let mut i: usize = 0;
        while i < args.len()
            invariant
                i <= args.len(),
                trees(args@).len() == args@.len(),
                forall|j: int| 0 <= j < args@.len() ==> (#[trigger] trees(args@)[j]) == args@[j]@,
                self@.locals == old(self)@.locals,
                self@.span == old(self)@.span,
                self.limit() == old(self).limit(),
                is_function(host) ==> any_holds(host, self@, trees(args@), i as int, depth as nat)
                    == any_holds(host, old(self)@, trees(args@), 0, depth as nat),
            decreases args.len() - i,
        {
            match self.condition(host, &args[i], depth) {
                Ok(b) => {
                    if b {
                        return Ok(Expr::Bool(true));
                    }
                },
                Err(e) => {
                    return Err(e);
                },
            }
            i += 1;
        }
        Ok(Expr::Bool(false))
    }

    /// `not`: false where its argument is true; true where it is anything
    /// else, or an error.
    fn form_not<H: Host>(&mut self, host: &H, args: &[Node], depth: usize) -> (r: Result<
        Expr,
        Error,
    >)
        ensures
            final(self)@.locals == old(self)@.locals,
            final(self)@.span == old(self)@.span,
            final(self).limit() == old(self).limit(),
            is_function(host) ==> outcome(r, final(self)@) == builtin(
                host,
                old(self)@,
                Builtin::Not,
                trees(args@),
                depth as nat,
            ),
        decreases depth, 2nat, 0nat,
    {
        proof {
            lemma_trees(args@);
        }
        match self.count(args.len(), 1) {
            Some(e) => {
                return Err(e);
            },
            None => {},
        }
        match self.condition(host, &args[0], depth) {
            Ok(b) => Ok(Expr::Bool(!b)),
            Err(_) => Ok(Expr::Bool(true)),
        }
    }

    /// `join`: the texts of the items of a collection, with a separator
    /// between each two.
    fn form_join<H: Host>(&mut self, host: &H, args: &[Node], depth: usize) -> (r: Result<
        Expr,
        Error,
    >)
        ensures
            final(self)@.locals == old(self)@.locals,
            final(self)@.span == old(self)@.span,
            final(self).limit() == old(self).limit(),
            is_function(host) ==> outcome(r, final(self)@) == builtin(
                host,
                old(self)@,
                Builtin::Join,
                trees(args@),
                depth as nat,
            ),
        decreases depth, 2nat, 0nat,
    {
        proof {
            lemma_trees(args@);
        }
        match self.count(args.len(), 2) {
            Some(e) => {
                return Err(e);
            },
            None => {},
        }
        let sep = match self.eval_at(host, &args[0], depth) {
            Ok(Expr::Char(c)) => char_text(c),
            Ok(Expr::String(s)) => s,
            Ok(other) => {
                return Err(self.error(ErrorKind::InvalidArgument(other)));
            },
            Err(e) => {
                return Err(e);
            },
        };
        let parts = match self.eval_at(host, &args[1], depth) {
            Ok(Expr::List(v)) => texts_all(&v, host),
            Ok(Expr::Vector(v)) => texts_all(&v, host),
            Ok(Expr::Nil) => {
                let none: Vec<String> = Vec::new();
                assert(texts(none@) =~= Seq::<Seq<char>>::empty());
                none
            },
            Ok(other) => {
                return Err(self.error(ErrorKind::InvalidArgument(other)));
            },
            Err(e) => {
                return Err(e);
            },
        };
        Ok(Expr::String(join(&parts, sep.as_str())))
    }

    /// A function that evaluates all its arguments called.
    fn strict<H: Host>(&mut self, host: &H, op: Builtin, args: &[Node], depth: usize) -> (r:
        Result<Expr, Error>)
        requires
            is_strict(op),
        ensures
            final(self)@.locals == old(self)@.locals,
            final(self)@.span == old(self)@.span,
            final(self).limit() == old(self).limit(),
            is_function(host) ==> outcome(r, final(self)@) == strict(
                host,
                old(self)@,
                op,
                trees(args@),
                depth as nat,
            ),
        decreases depth, 2nat, 0nat,
    {
        proof {
            lemma_trees(args@);
        }
        let wrong = match op {
            Builtin::Vec => self.count(args.len(), 1),
            Builtin::ParseNum => self.count(args.len(), 1),
            Builtin::Nth => if args.len() == 3 {
                None
            } else {
                self.count(args.len(), 2)
            },
            _ => None,
        };
        match wrong {
            Some(e) => {
                return Err(e);
            },
            None => {},
        }
        let vals = match self.eval_args(host, args, depth) {
            Ok(v) => v,
            Err(e) => {
                return Err(e);
            },
        };
        apply_to(host, op, vals, &self.span)
    }
}

} // verus!
