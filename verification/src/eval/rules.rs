//! What evaluating a node gives, as a function of the node, of what is
//! bound, and of what the host computes.
//!
//! Evaluation may go on for ever, so it is given a depth. A list that is
//! not empty is evaluated only at a depth above zero, and what is evaluated
//! for it, its head, its arguments and the body of the function that it
//! calls, is evaluated at one less.

use super::error::{ErrorView, Fault};
use super::expr::{Builtin, Value};
use super::quote::{equal, literal};
use super::scope::{bound, lookup, Bindings};
use super::show::{joined, text_of, texts_of};
use crate::host::{
    difference, digit_number, parsed, printed, product_of, quotient, sum_of, truncated, Host,
};
use crate::number::{at_most, below};
use crate::parser::{Shape, Tree};
use crate::span::Span;
use crate::text::is_digit;
use vstd::prelude::*;

verus! {

/// What a context holds: the globals, the locals, and the span that errors
/// of a call are laid at.
pub struct Env {
    pub globals: Bindings,
    pub locals: Bindings,
    pub span: Span,
}

/// What evaluating one node gives, and the context after it.
pub struct Outcome {
    pub result: Result<Value, ErrorView>,
    pub env: Env,
}

/// What evaluating several nodes gives, and the context after it.
pub struct Many {
    pub result: Result<Seq<Value>, ErrorView>,
    pub env: Env,
}

/// What binding several names gives: the new locals, and the context after.
pub struct Bound {
    pub result: Result<Bindings, ErrorView>,
    pub env: Env,
}

/// `value`, in a context that stays as it is.
pub open spec fn done(env: Env, value: Value) -> Outcome {
    Outcome { result: Ok(value), env }
}

/// An error laid at the span of the context, which stays as it is.
pub open spec fn failed(env: Env, kind: Fault) -> Outcome {
    Outcome { result: Err(ErrorView { kind, span: env.span }), env }
}

/// What a name stands for: a local, or else a global.
pub open spec fn resolve(env: Env, name: Seq<char>) -> Option<Value> {
    match lookup(env.locals, name) {
        Some(value) => Some(value),
        None => lookup(env.globals, name),
    }
}

/// The error for `n` arguments where exactly `want` are taken.
pub open spec fn arity(n: int, want: int) -> Option<Fault> {
    if n < want {
        Some(Fault::MissingArguments)
    } else if n > want {
        Some(Fault::TooManyArguments)
    } else {
        None
    }
}

/// The numbers among the first `n` values, where all of them are numbers;
/// else the first value that is none.
pub open spec fn numbers(values: Seq<Value>, n: int) -> Result<Seq<u64>, Value>
    decreases n,
{
    if n <= 0 {
        Ok(Seq::empty())
    } else {
        match numbers(values, n - 1) {
            Err(v) => Err(v),
            Ok(ns) => match values[n - 1] {
                Value::Number(x) => Ok(ns.push(x)),
                v => Err(v),
            },
        }
    }
}

/// The names among the first `n` values, where all of them are symbols.
pub open spec fn symbols(values: Seq<Value>, n: int) -> Option<Seq<Seq<char>>>
    decreases n,
{
    if n <= 0 {
        Some(Seq::empty())
    } else {
        match symbols(values, n - 1) {
            None => None,
            Some(names) => match values[n - 1] {
                Value::Symbol(s) => Some(names.push(s)),
                _ => None,
            },
        }
    }
}

/// The parameters that a value names: a list of symbols, or nil for none.
pub open spec fn parameters(value: Value) -> Option<Seq<Seq<char>>> {
    match value {
        Value::List(items) => symbols(items, items.len() as int),
        Value::Nil => Some(Seq::empty()),
        _ => None,
    }
}

/// The characters of a text as values.
pub open spec fn characters(text: Seq<char>) -> Seq<Value>
    decreases text.len(),
{
    if text.len() == 0 {
        Seq::empty()
    } else {
        characters(text.drop_last()).push(Value::Char(text.last()))
    }
}

/// The characters of a text are its characters as values, in order.
pub proof fn lemma_characters(text: Seq<char>)
    ensures
        characters(text).len() == text.len(),
        forall|i: int|
            0 <= i < text.len() ==> (#[trigger] characters(text)[i]) == Value::Char(text[i]),
    decreases text.len(),
{
    if text.len() > 0 {
        lemma_characters(text.drop_last());
        vstd::utf8::char_u32_cast(text.last(), text.last() as u32);
    }
}

/// The items of a collection: of a list, a vector, nil or a string.
pub open spec fn items(value: Value) -> Option<Seq<Value>> {
    match value {
        Value::List(v) => Some(v),
        Value::Vector(v) => Some(v),
        Value::Nil => Some(Seq::empty()),
        Value::String(s) => Some(characters(s)),
        _ => None,
    }
}

/// `ns[0] - ns[1] - ..` up to, not including, `ns[n]`, for `n >= 1`.
pub open spec fn subtracted<H: Host>(host: &H, ns: Seq<u64>, n: int) -> u64
    decreases n,
{
    if n <= 1 {
        ns[0]
    } else {
        difference(host, subtracted(host, ns, n - 1), ns[n - 1])
    }
}

/// `ns[0] / ns[1] / ..` up to, not including, `ns[n]`, for `n >= 1`.
pub open spec fn divided<H: Host>(host: &H, ns: Seq<u64>, n: int) -> u64
    decreases n,
{
    if n <= 1 {
        ns[0]
    } else {
        quotient(host, divided(host, ns, n - 1), ns[n - 1])
    }
}

/// Whether each number stands in the given order to the one after it.
pub open spec fn ordered(op: Builtin, ns: Seq<u64>) -> bool {
    forall|i: int|
        0 <= i < ns.len() - 1 ==> match op {
            Builtin::Less => below(#[trigger] ns[i], ns[i + 1]),
            Builtin::Greater => below(ns[i + 1], ns[i]),
            Builtin::LessOrEqual => at_most(ns[i], ns[i + 1]),
            _ => at_most(ns[i + 1], ns[i]),
        }
}

/// The error that a function which evaluates all its arguments gives for
/// `n` of them, before it evaluates any.
pub open spec fn strict_arity(op: Builtin, n: int) -> Option<Fault> {
    match op {
        Builtin::Vec => arity(n, 1),
        Builtin::ParseNum => arity(n, 1),
        Builtin::Nth => if n == 3 {
            None
        } else {
            arity(n, 2)
        },
        _ => None,
    }
}

/// What a function that evaluates all its arguments gives for their
/// values. Errors are laid at `span`.
pub open spec fn apply<H: Host>(host: &H, op: Builtin, values: Seq<Value>, span: Span) -> Result<
    Value,
    ErrorView,
> {
    match op {
        Builtin::Add => match numbers(values, values.len() as int) {
            Ok(ns) => Ok(Value::Number(sum_of(host, ns))),
            Err(v) => Err(ErrorView { kind: Fault::InvalidArgument(v), span }),
        },
        Builtin::Multiply => match numbers(values, values.len() as int) {
            Ok(ns) => Ok(Value::Number(product_of(host, ns))),
            Err(v) => Err(ErrorView { kind: Fault::InvalidArgument(v), span }),
        },
        Builtin::Subtract => match numbers(values, values.len() as int) {
            Ok(ns) => if ns.len() == 0 {
                Err(ErrorView { kind: Fault::MissingArguments, span })
            } else {
                Ok(Value::Number(subtracted(host, ns, ns.len() as int)))
            },
            Err(v) => Err(ErrorView { kind: Fault::InvalidArgument(v), span }),
        },
        Builtin::Divide => match numbers(values, values.len() as int) {
            Ok(ns) => if ns.len() == 0 {
                Err(ErrorView { kind: Fault::MissingArguments, span })
            } else {
                Ok(Value::Number(divided(host, ns, ns.len() as int)))
            },
            Err(v) => Err(ErrorView { kind: Fault::InvalidArgument(v), span }),
        },
        Builtin::Equal => Ok(
            Value::Bool(forall|i: int| 0 <= i < values.len() ==> equal(#[trigger] values[i], values[0])),
        ),
        Builtin::Less | Builtin::Greater | Builtin::LessOrEqual | Builtin::GreaterOrEqual => match numbers(
            values,
            values.len() as int,
        ) {
            Ok(ns) => Ok(Value::Bool(ordered(op, ns))),
            Err(v) => Err(ErrorView { kind: Fault::InvalidArgument(v), span }),
        },
        Builtin::Str => Ok(Value::String(joined(texts_of(host, values), Seq::empty()))),
        Builtin::Println => {
            let line = joined(texts_of(host, values), seq![' ']);
            if printed(host, line) {
                Ok(Value::Nil)
            } else {
                Ok(Value::Display(line))
            }
        },
        Builtin::List => Ok(Value::List(values)),
        Builtin::Vector => Ok(Value::Vector(values)),
        Builtin::Vec => match items(values[0]) {
            Some(v) => Ok(Value::Vector(v)),
            None => Err(ErrorView { kind: Fault::InvalidArgument(values[0]), span }),
        },
        Builtin::Nth => {
            let default = if values.len() == 3 {
                values[2]
            } else {
                Value::Nil
            };
            match items(values[0]) {
                None => Err(ErrorView { kind: Fault::InvalidArgument(values[0]), span }),
                Some(v) => match values[1] {
                    Value::Number(n) => if below(n, 0) {
                        Ok(default)
                    } else if truncated(host, n) < v.len() {
                        Ok(v[truncated(host, n) as int])
                    } else {
                        Ok(default)
                    },
                    other => Err(ErrorView { kind: Fault::InvalidArgument(other), span }),
                },
            }
        },
        Builtin::ParseNum => match values[0] {
            Value::String(s) => match parsed(host, s) {
                Some(n) => Ok(Value::Number(n)),
                None => Err(ErrorView { kind: Fault::InvalidArgument(values[0]), span }),
            },
            Value::Char(c) => if is_digit(c) {
                Ok(Value::Number(digit_number(host, (c as u32 - '0' as u32) as u32)))
            } else {
                Err(ErrorView { kind: Fault::InvalidArgument(values[0]), span })
            },
            other => Err(ErrorView { kind: Fault::InvalidArgument(other), span }),
        },
        _ => Err(ErrorView { kind: Fault::InvalidFunction(Value::Nil), span }),
    }
}

/// Whether a function evaluates all its arguments before anything else.
pub open spec fn is_strict(op: Builtin) -> bool {
    match op {
        Builtin::Add
        | Builtin::Multiply
        | Builtin::Subtract
        | Builtin::Divide
        | Builtin::Equal
        | Builtin::Less
        | Builtin::Greater
        | Builtin::LessOrEqual
        | Builtin::GreaterOrEqual
        | Builtin::Str
        | Builtin::Println
        | Builtin::List
        | Builtin::Vector
        | Builtin::Vec
        | Builtin::Nth
        | Builtin::ParseNum => true,
        _ => false,
    }
}

/// A list that is not empty: its head is called with the rest.
pub open spec fn is_call(node: Tree) -> bool {
    node.kind matches Shape::List(list) && list.len() > 0
}

/// A function of the language that evaluates nothing and asks nothing of
/// the host.
pub open spec fn is_quiet(op: Builtin) -> bool {
    op == Builtin::Quote || op == Builtin::Lambda || op == Builtin::Fn
}

/// A call of such a function under its name.
pub open spec fn asks_nothing(env: Env, node: Tree) -> bool {
    node.kind matches Shape::List(list) && list.len() > 0 && (list[0].kind matches Shape::Symbol(
        name,
    ) && (resolve(env, name) matches Some(Value::BuiltinFn(_, op)) && is_quiet(op)))
}

/// A node evaluated.
///
/// While a list is evaluated, the span of the context is that of the head
/// of the list, the site of the call: the errors of the call are laid
/// there. Afterwards the span is what it was before, so that the calls
/// among the arguments of a call leave its site as it is.
pub open spec fn eval<H: Host>(host: &H, env: Env, node: Tree, depth: nat) -> Outcome
    decreases depth, 0nat, 0nat,
{
    match node.kind {
        Shape::Symbol(name) => match resolve(env, name) {
            Some(value) => done(env, value),
            None => Outcome {
                result: Err(ErrorView { kind: Fault::UnknownSymbol(name), span: node.span }),
                env,
            },
        },
        Shape::List(list) => if list.len() == 0 {
            done(env, Value::Nil)
        } else if depth == 0 {
            Outcome { result: Err(ErrorView { kind: Fault::RecursionLimit, span: node.span }), env }
        } else {
            let at_head = Env { span: list[0].span, ..env };
            let head = eval(host, at_head, list[0], (depth - 1) as nat);
            let called = match head.result {
                Err(e) => head,
                Ok(f) => call(host, head.env, f, list.skip(1), (depth - 1) as nat),
            };
            Outcome { result: called.result, env: Env { span: env.span, ..called.env } }
        },
        _ => done(env, literal(node)),
    }
}

/// The arguments from `i` on evaluated in order, after `acc`.
pub open spec fn eval_args<H: Host>(
    host: &H,
    env: Env,
    args: Seq<Tree>,
    i: int,
    acc: Seq<Value>,
    depth: nat,
) -> Many
    decreases depth, 1nat, args.len() - i,
{
    if i < 0 || i >= args.len() {
        Many { result: Ok(acc), env }
    } else {
        let one = eval(host, env, args[i], depth);
        match one.result {
            Err(e) => Many { result: Err(e), env: one.env },
            Ok(v) => eval_args(host, one.env, args, i + 1, acc.push(v), depth),
        }
    }
}

/// A node evaluated among other locals; the locals of the context are
/// those of before again afterwards.
pub open spec fn scoped<H: Host>(
    host: &H,
    env: Env,
    node: Tree,
    locals: Bindings,
    depth: nat,
) -> Outcome
    decreases depth, 1nat, 0nat,
{
    let inner = eval(host, Env { locals, ..env }, node, depth);
    Outcome { result: inner.result, env: Env { locals: env.locals, ..inner.env } }
}

/// The parameters from `i` on bound to the arguments evaluated, after
/// `locals`.
pub open spec fn bind<H: Host>(
    host: &H,
    env: Env,
    params: Seq<Seq<char>>,
    args: Seq<Tree>,
    i: int,
    locals: Bindings,
    depth: nat,
) -> Bound
    decreases depth, 1nat, params.len() - i,
{
    if i < 0 || i >= params.len() {
        if args.len() > params.len() {
            Bound { result: Err(ErrorView { kind: Fault::TooManyArguments, span: env.span }), env }
        } else {
            Bound { result: Ok(locals), env }
        }
    } else if i >= args.len() {
        Bound { result: Err(ErrorView { kind: Fault::MissingArguments, span: env.span }), env }
    } else {
        let one = eval(host, env, args[i], depth);
        match one.result {
            Err(e) => Bound { result: Err(e), env: one.env },
            Ok(v) => bind(host, one.env, params, args, i + 1, bound(locals, params[i], v), depth),
        }
    }
}

/// A function of the program called: its parameters bound on top of
/// `locals`, then its body evaluated among them.
pub open spec fn invoke<H: Host>(
    host: &H,
    env: Env,
    locals: Bindings,
    params: Seq<Seq<char>>,
    body: Tree,
    args: Seq<Tree>,
    depth: nat,
) -> Outcome
    decreases depth, 3nat, 0nat,
{
    let b = bind(host, env, params, args, 0, locals, depth);
    match b.result {
        Err(e) => Outcome { result: Err(e), env: b.env },
        Ok(inner) => scoped(host, b.env, body, inner, depth),
    }
}

/// A value called with arguments.
pub open spec fn call<H: Host>(host: &H, env: Env, f: Value, args: Seq<Tree>, depth: nat) -> Outcome
    decreases depth, 6nat, 0nat,
{
    match f {
        Value::BuiltinFn(_, op) => builtin(host, env, op, args, depth),
        Value::UserFn(_, params, body) => invoke(host, env, Seq::empty(), params, body, args, depth),
        Value::Closure(scope, params, body) => invoke(host, env, scope, params, body, args, depth),
        other => failed(env, Fault::InvalidFunction(other)),
    }
}

/// A function that evaluates all its arguments called.
pub open spec fn strict<H: Host>(host: &H, env: Env, op: Builtin, args: Seq<Tree>, depth: nat) -> Outcome
    decreases depth, 2nat, 0nat,
{
    match strict_arity(op, args.len() as int) {
        Some(kind) => failed(env, kind),
        None => {
            let many = eval_args(host, env, args, 0, Seq::empty(), depth);
            match many.result {
                Err(e) => Outcome { result: Err(e), env: many.env },
                Ok(values) => Outcome {
                    result: apply(host, op, values, many.env.span),
                    env: many.env,
                },
            }
        },
    }
}

/// One binding of a `let` made: a list of a name and a node, which is
/// evaluated and bound to the name among the locals.
pub open spec fn let_pair<H: Host>(host: &H, env: Env, pair: Tree, depth: nat) -> Outcome
    decreases depth, 1nat, 0nat,
{
    match pair.kind {
        Shape::List(p) => match arity(p.len() as int, 2) {
            Some(kind) => failed(env, kind),
            None => match literal(p[0]) {
                Value::Symbol(name) => {
                    let one = eval(host, env, p[1], depth);
                    match one.result {
                        Err(e) => one,
                        Ok(v) => done(
                            Env { locals: bound(one.env.locals, name, v), ..one.env },
                            Value::Nil,
                        ),
                    }
                },
                other => failed(env, Fault::InvalidArgument(other)),
            },
        },
        _ => failed(env, Fault::InvalidArgument(literal(pair))),
    }
}

/// The bindings of a list of bindings from `i` on made, each among those
/// before it.
pub open spec fn let_pairs<H: Host>(
    host: &H,
    env: Env,
    pairs: Seq<Tree>,
    i: int,
    depth: nat,
) -> Outcome
    decreases depth, 2nat, pairs.len() - i,
{
    if i < 0 || i >= pairs.len() {
        done(env, Value::Nil)
    } else {
        let one = let_pair(host, env, pairs[i], depth);
        match one.result {
            Err(e) => one,
            Ok(_) => let_pairs(host, one.env, pairs, i + 1, depth),
        }
    }
}

/// Whether an argument of `let` is a list of bindings, as in
/// `(let ((x 1) (y 2)) ..)`, and not one binding, as in
/// `(let (x 1) (y 2) ..)`: it is a list that is empty or begins with a list.
pub open spec fn is_group(item: Tree) -> bool {
    item.kind matches Shape::List(p) && (p.len() == 0 || p[0].kind is List)
}

/// One argument of `let` before the body: one binding, or a list of
/// bindings.
pub open spec fn let_binding<H: Host>(host: &H, env: Env, item: Tree, depth: nat) -> Outcome
    decreases depth, 3nat, 0nat,
{
    match item.kind {
        Shape::List(p) => if is_group(item) {
            let_pairs(host, env, p, 0, depth)
        } else {
            let_pair(host, env, item, depth)
        },
        _ => failed(env, Fault::InvalidArgument(literal(item))),
    }
}

/// The arguments of a `let` before the body, from `i` on.
pub open spec fn let_bindings<H: Host>(
    host: &H,
    env: Env,
    items: Seq<Tree>,
    i: int,
    depth: nat,
) -> Outcome
    decreases depth, 4nat, items.len() - i,
{
    if i < 0 || i >= items.len() {
        done(env, Value::Nil)
    } else {
        let one = let_binding(host, env, items[i], depth);
        match one.result {
            Err(e) => one,
            Ok(_) => let_bindings(host, one.env, items, i + 1, depth),
        }
    }
}

/// `and` from the argument `i` on: false at the first that is false.
pub open spec fn all_hold<H: Host>(host: &H, env: Env, args: Seq<Tree>, i: int, depth: nat) -> Outcome
    decreases depth, 1nat, args.len() - i,
{
    if i < 0 || i >= args.len() {
        done(env, Value::Bool(true))
    } else {
        let one = eval(host, env, args[i], depth);
        match one.result {
            Err(e) => one,
            Ok(Value::Bool(b)) => if b {
                all_hold(host, one.env, args, i + 1, depth)
            } else {
                done(one.env, Value::Bool(false))
            },
            Ok(other) => failed(one.env, Fault::InvalidArgument(other)),
        }
    }
}

/// `or` from the argument `i` on: true at the first that is true.
pub open spec fn any_holds<H: Host>(host: &H, env: Env, args: Seq<Tree>, i: int, depth: nat) -> Outcome
    decreases depth, 1nat, args.len() - i,
{
    if i < 0 || i >= args.len() {
        done(env, Value::Bool(false))
    } else {
        let one = eval(host, env, args[i], depth);
        match one.result {
            Err(e) => one,
            Ok(Value::Bool(b)) => if b {
                done(one.env, Value::Bool(true))
            } else {
                any_holds(host, one.env, args, i + 1, depth)
            },
            Ok(other) => failed(one.env, Fault::InvalidArgument(other)),
        }
    }
}

/// A node evaluated as a condition.
pub open spec fn condition<H: Host>(host: &H, env: Env, node: Tree, depth: nat) -> Outcome
    decreases depth, 1nat, 0nat,
{
    let one = eval(host, env, node, depth);
    match one.result {
        Err(e) => one,
        Ok(Value::Bool(b)) => one,
        Ok(other) => failed(one.env, Fault::InvalidArgument(other)),
    }
}

/// A function of the language called.
pub open spec fn builtin<H: Host>(host: &H, env: Env, op: Builtin, args: Seq<Tree>, depth: nat) -> Outcome
    decreases depth, 5nat, 0nat,
{
    let n = args.len() as int;
    match op {
        Builtin::Quote => match arity(n, 1) {
            Some(kind) => failed(env, kind),
            None => done(env, literal(args[0])),
        },
        Builtin::Chars => match arity(n, 1) {
            Some(kind) => failed(env, kind),
            None => done(env, Value::Vector(characters(text_of(host, literal(args[0]))))),
        },
        Builtin::Lambda => match arity(n, 2) {
            Some(kind) => failed(env, kind),
            None => match parameters(literal(args[0])) {
                Some(params) => done(env, Value::Closure(env.locals, params, args[1])),
                None => failed(env, Fault::InvalidArgument(literal(args[0]))),
            },
        },
        Builtin::Fn => match arity(n, 3) {
            Some(kind) => failed(env, kind),
            None => match literal(args[0]) {
                Value::Symbol(name) => match literal(args[1]) {
                    Value::Vector(names) => match symbols(names, names.len() as int) {
                        Some(params) => done(
                            Env {
                                globals: bound(
                                    env.globals,
                                    name,
                                    Value::UserFn(name, params, args[2]),
                                ),
                                ..env
                            },
                            Value::Nil,
                        ),
                        None => failed(env, Fault::InvalidArgument(literal(args[1]))),
                    },
                    other => failed(env, Fault::InvalidArgument(other)),
                },
                other => failed(env, Fault::InvalidArgument(other)),
            },
        },
        Builtin::Let => if n == 0 {
            failed(env, Fault::MissingArguments)
        } else {
            let made = let_bindings(host, env, args.drop_last(), 0, depth);
            match made.result {
                Err(e) => Outcome { result: Err(e), env: Env { locals: env.locals, ..made.env } },
                Ok(_) => {
                    let inner = eval(host, made.env, args.last(), depth);
                    Outcome { result: inner.result, env: Env { locals: env.locals, ..inner.env } }
                },
            }
        },
        Builtin::Const => match arity(n, 2) {
            Some(kind) => failed(env, kind),
            None => match literal(args[0]) {
                Value::Symbol(name) => {
                    let one = eval(host, env, args[1], depth);
                    match one.result {
                        Err(e) => one,
                        Ok(v) => done(
                            Env { globals: bound(one.env.globals, name, v), ..one.env },
                            Value::Nil,
                        ),
                    }
                },
                other => failed(env, Fault::InvalidArgument(other)),
            },
        },
        Builtin::If => match (if n == 3 {
            None
        } else {
            arity(n, 2)
        }) {
            Some(kind) => failed(env, kind),
            None => {
                let cond = condition(host, env, args[0], depth);
                match cond.result {
                    Ok(Value::Bool(true)) => eval(host, cond.env, args[1], depth),
                    Ok(Value::Bool(false)) => if n == 3 {
                        eval(host, cond.env, args[2], depth)
                    } else {
                        done(cond.env, Value::Nil)
                    },
                    _ => cond,
                }
            },
        },
        Builtin::And => all_hold(host, env, args, 0, depth),
        Builtin::Or => any_holds(host, env, args, 0, depth),
        Builtin::Not => match arity(n, 1) {
            Some(kind) => failed(env, kind),
            None => {
                let cond = condition(host, env, args[0], depth);
                match cond.result {
                    Ok(Value::Bool(true)) => done(cond.env, Value::Bool(false)),
                    _ => done(cond.env, Value::Bool(true)),
                }
            },
        },
        Builtin::Join => match arity(n, 2) {
            Some(kind) => failed(env, kind),
            None => {
                let first = eval(host, env, args[0], depth);
                match first.result {
                    Err(e) => first,
                    Ok(sep) => match separator(sep) {
                        None => failed(first.env, Fault::InvalidArgument(sep)),
                        Some(between) => {
                            let second = eval(host, first.env, args[1], depth);
                            match second.result {
                                Err(e) => second,
                                Ok(coll) => match coll {
                                    Value::List(v) => done(
                                        second.env,
                                        Value::String(joined(texts_of(host, v), between)),
                                    ),
                                    Value::Vector(v) => done(
                                        second.env,
                                        Value::String(joined(texts_of(host, v), between)),
                                    ),
                                    Value::Nil => done(
                                        second.env,
                                        Value::String(joined(Seq::empty(), between)),
                                    ),
                                    other => failed(second.env, Fault::InvalidArgument(other)),
                                },
                            }
                        },
                    },
                }
            },
        },
        _ => strict(host, env, op, args, depth),
    }
}

/// The first error among the nodes from `i` on evaluated in order, and the
/// context after it; none where all can be evaluated.
pub open spec fn checked<H: Host>(host: &H, env: Env, nodes: Seq<Tree>, i: int, depth: nat) -> (
    Option<ErrorView>,
    Env,
)
    decreases nodes.len() - i,
{
    if i < 0 || i >= nodes.len() {
        (None, env)
    } else {
        let one = eval(host, env, nodes[i], depth);
        match one.result {
            Err(e) => (Some(e), one.env),
            Ok(_) => checked(host, one.env, nodes, i + 1, depth),
        }
    }
}

/// The text that a value is as a separator: a character or a string.
pub open spec fn separator(value: Value) -> Option<Seq<char>> {
    match value {
        Value::Char(c) => Some(seq![c]),
        Value::String(s) => Some(s),
        _ => None,
    }
}

} // verus!
