//! What holds of every evaluation.

use super::error::{ErrorView, Fault};
use super::expr::{Builtin, Value};
use super::quote::literal;
use super::rules::{
    all_hold, any_holds, apply, bind, builtin, call, condition, done, eval, eval_args, invoke,
    is_strict, let_binding, let_bindings, let_pair, let_pairs, parameters, resolve, scoped,
    strict_arity, Env, Many, Outcome,
};
use super::scope::{bound, Bindings};
use crate::host::Host;
use crate::parser::{Shape, Tree};
use vstd::prelude::*;

verus! {

/// A symbol that nothing is bound to is an error, laid at the symbol
/// itself, whatever is being called around it.
pub proof fn law_unbound_symbol<H: Host>(host: &H, env: Env, node: Tree, depth: nat)
    requires
        node.kind matches Shape::Symbol(name) && resolve(env, name) is None,
    ensures
        eval(host, env, node, depth) == (Outcome {
            result: Err(
                ErrorView { kind: Fault::UnknownSymbol(node.kind->Symbol_0), span: node.span },
            ),
            env,
        }),
{
}

/// A symbol that something is bound to is that, and evaluating it changes
/// nothing.
pub proof fn law_bound_symbol<H: Host>(host: &H, env: Env, node: Tree, depth: nat)
    requires
        node.kind matches Shape::Symbol(name) && resolve(env, name) is Some,
    ensures
        eval(host, env, node, depth) == (Outcome {
            result: Ok(resolve(env, node.kind->Symbol_0)->Some_0),
            env,
        }),
{
}

/// The head of a call.
pub open spec fn head_of(node: Tree) -> Tree {
    node.kind->List_0[0]
}

/// The arguments of a call, not evaluated.
pub open spec fn args_of(node: Tree) -> Seq<Tree> {
    node.kind->List_0.skip(1)
}

/// What the head of a call evaluates to, at the site of the call.
pub open spec fn head<H: Host>(host: &H, env: Env, node: Tree, depth: nat) -> Outcome {
    eval(host, Env { span: head_of(node).span, ..env }, head_of(node), (depth - 1) as nat)
}

/// What the arguments of a call evaluate to, in order, after its head.
pub open spec fn arguments<H: Host>(host: &H, env: Env, node: Tree, depth: nat) -> Many {
    eval_args(
        host,
        head(host, env, node, depth).env,
        args_of(node),
        0,
        Seq::empty(),
        (depth - 1) as nat,
    )
}

/// Where the arguments evaluate without error, binding them to parameters
/// goes wrong exactly where their numbers differ, and the error is laid at
/// the span of the context.
proof fn lemma_bind_counts<H: Host>(
    host: &H,
    env: Env,
    params: Seq<Seq<char>>,
    args: Seq<Tree>,
    i: int,
    acc: Seq<Value>,
    locals: Bindings,
    depth: nat,
)
    requires
        0 <= i <= params.len(),
        i <= args.len(),
        eval_args(host, env, args, i, acc, depth).result is Ok,
    ensures
        args.len() < params.len() ==> bind(host, env, params, args, i, locals, depth).result
            == Err::<Bindings, ErrorView>(
            ErrorView { kind: Fault::MissingArguments, span: env.span },
        ),
        args.len() > params.len() ==> bind(host, env, params, args, i, locals, depth).result
            == Err::<Bindings, ErrorView>(
            ErrorView { kind: Fault::TooManyArguments, span: env.span },
        ),
    decreases params.len() - i,
{
    if i < params.len() && i < args.len() {
        let one = eval(host, env, args[i], depth);
        law_locals_and_span_are_kept(host, env, args[i], depth);
        let v = one.result->Ok_0;
        lemma_bind_counts(
            host,
            one.env,
            params,
            args,
            i + 1,
            acc.push(v),
            bound(locals, params[i], v),
            depth,
        );
    }
}

/// A call of a function of the program with fewer arguments than it has
/// parameters, or with more, is an error: missing arguments, or too many.
/// Where the head and the arguments evaluate without error, whatever they
/// call themselves, the error is laid at the head of the call, its site.
pub proof fn law_arity_of_call<H: Host>(host: &H, env: Env, node: Tree, depth: nat)
    requires
        depth > 0,
        node.kind matches Shape::List(list) && list.len() > 0,
        head(host, env, node, depth).result matches Ok(f) && (f is UserFn || f is Closure),
        arguments(host, env, node, depth).result is Ok,
    ensures
        ({
            let params = match head(host, env, node, depth).result->Ok_0 {
                Value::UserFn(_, params, _) => params,
                Value::Closure(_, params, _) => params,
                _ => Seq::empty(),
            };
            let given = args_of(node).len();
            &&& given < params.len() ==> eval(host, env, node, depth).result == Err::<
                Value,
                ErrorView,
            >(ErrorView { kind: Fault::MissingArguments, span: head_of(node).span })
            &&& given > params.len() ==> eval(host, env, node, depth).result == Err::<
                Value,
                ErrorView,
            >(ErrorView { kind: Fault::TooManyArguments, span: head_of(node).span })
        }),
{
    let d = (depth - 1) as nat;
    let site = Env { span: head_of(node).span, ..env };
    let first = head(host, env, node, depth);
    let f = first.result->Ok_0;
    let args = args_of(node);
    law_locals_and_span_are_kept(host, site, head_of(node), d);
    assert(eval(host, env, node, depth).result == call(host, first.env, f, args, d).result);
    match f {
        Value::UserFn(_, params, body) => {
            lemma_bind_counts(host, first.env, params, args, 0, Seq::empty(), Seq::empty(), d);
            assert(call(host, first.env, f, args, d) == invoke(
                host,
                first.env,
                Seq::empty(),
                params,
                body,
                args,
                d,
            ));
        },
        Value::Closure(scope, params, body) => {
            lemma_bind_counts(host, first.env, params, args, 0, Seq::empty(), scope, d);
            assert(call(host, first.env, f, args, d) == invoke(
                host,
                first.env,
                scope,
                params,
                body,
                args,
                d,
            ));
        },
        _ => {},
    }
}

/// A call of a function of the language that evaluates all its arguments
/// gives what the function gives for their values, and what it rejects,
/// one of the values or their number, it rejects at the head of the call,
/// its site, whatever the arguments call themselves.
pub proof fn law_strict_call<H: Host>(host: &H, env: Env, node: Tree, depth: nat)
    requires
        depth > 0,
        node.kind matches Shape::List(list) && list.len() > 0,
        head(host, env, node, depth).result matches Ok(Value::BuiltinFn(_, op)) && is_strict(op)
            && strict_arity(op, args_of(node).len() as int) is None,
        arguments(host, env, node, depth).result is Ok,
    ensures
        eval(host, env, node, depth).result == apply(
            host,
            head(host, env, node, depth).result->Ok_0->BuiltinFn_1,
            arguments(host, env, node, depth).result->Ok_0,
            head_of(node).span,
        ),
{
    let d = (depth - 1) as nat;
    let site = Env { span: head_of(node).span, ..env };
    let first = head(host, env, node, depth);
    let f = first.result->Ok_0;
    let op = f->BuiltinFn_1;
    let args = args_of(node);
    law_locals_and_span_are_kept(host, site, head_of(node), d);
    lemma_args_keep(host, first.env, args, 0, Seq::empty(), d);
    assert(eval(host, env, node, depth).result == call(host, first.env, f, args, d).result);
    assert(call(host, first.env, f, args, d) == builtin(host, first.env, op, args, d));
}

/// A condition that evaluates without error to what is neither true nor
/// false is rejected at the span of the context, the site of the call that
/// asks for it, whatever the condition calls itself.
pub proof fn law_condition_is_rejected_at_the_site<H: Host>(
    host: &H,
    env: Env,
    node: Tree,
    depth: nat,
)
    requires
        eval(host, env, node, depth).result matches Ok(value) && !(value is Bool),
    ensures
        condition(host, env, node, depth).result == Err::<Value, ErrorView>(
            ErrorView {
                kind: Fault::InvalidArgument(eval(host, env, node, depth).result->Ok_0),
                span: env.span,
            },
        ),
{
    law_locals_and_span_are_kept(host, env, node, depth);
}

/// `lambda` makes a closure of the locals as they are, of the parameters
/// that a list of symbols names, and of a body. It evaluates nothing and
/// changes nothing.
pub proof fn law_lambda_makes_a_closure<H: Host>(host: &H, env: Env, node: Tree, depth: nat)
    requires
        depth > 0,
        node.kind matches Shape::List(list) && list.len() == 3 && (list[0].kind matches Shape::Symbol(
            name,
        ) && resolve(env, name) matches Some(Value::BuiltinFn(_, Builtin::Lambda))),
        parameters(literal(node.kind->List_0[1])) is Some,
    ensures
        eval(host, env, node, depth) == done(
            env,
            Value::Closure(
                env.locals,
                parameters(literal(node.kind->List_0[1]))->Some_0,
                node.kind->List_0[2],
            ),
        ),
{
    let list = node.kind->List_0;
    let d = (depth - 1) as nat;
    let site = Env { span: list[0].span, ..env };
    let name = list[0].kind->Symbol_0;
    assert(resolve(site, name) == resolve(env, name));
    law_bound_symbol(host, site, list[0], d);
    let f = resolve(env, name)->Some_0;
    let args = list.skip(1);
    assert(args.len() == 2 && args[0] == list[1] && args[1] == list[2]);
    assert(call(host, site, f, args, d) == builtin(host, site, Builtin::Lambda, args, d));
}

/// `scope` with the first `n` parameters bound to the first `n` values, one
/// after the other.
pub open spec fn layered(
    scope: Bindings,
    params: Seq<Seq<char>>,
    values: Seq<Value>,
    n: int,
) -> Bindings
    decreases n,
{
    if n <= 0 {
        scope
    } else {
        bound(layered(scope, params, values, n - 1), params[n - 1], values[n - 1])
    }
}

/// Only the first `n` values count.
proof fn lemma_layered(
    scope: Bindings,
    params: Seq<Seq<char>>,
    one: Seq<Value>,
    other: Seq<Value>,
    n: int,
)
    requires
        forall|k: int| 0 <= k < n ==> one[k] == other[k],
    ensures
        layered(scope, params, one, n) == layered(scope, params, other, n),
    decreases n,
{
    if n > 0 {
        lemma_layered(scope, params, one, other, n - 1);
    }
}

/// Where there are as many arguments as parameters, and the arguments
/// evaluate without error, binding gives the parameters bound to their
/// values on top of the scope that it began with.
proof fn lemma_bind_layers<H: Host>(
    host: &H,
    env: Env,
    scope: Bindings,
    params: Seq<Seq<char>>,
    args: Seq<Tree>,
    i: int,
    acc: Seq<Value>,
    depth: nat,
)
    requires
        0 <= i <= params.len(),
        params.len() == args.len(),
        acc.len() == i,
        eval_args(host, env, args, i, acc, depth).result is Ok,
    ensures
        bind(host, env, params, args, i, layered(scope, params, acc, i), depth).result == Ok::<
            Bindings,
            ErrorView,
        >(
            layered(
                scope,
                params,
                eval_args(host, env, args, i, acc, depth).result->Ok_0,
                params.len() as int,
            ),
        ),
        bind(host, env, params, args, i, layered(scope, params, acc, i), depth).env == eval_args(
            host,
            env,
            args,
            i,
            acc,
            depth,
        ).env,
    decreases params.len() - i,
{
    if i < params.len() {
        let one = eval(host, env, args[i], depth);
        let v = one.result->Ok_0;
        lemma_bind_layers(host, one.env, scope, params, args, i + 1, acc.push(v), depth);
        lemma_layered(scope, params, acc, acc.push(v), i);
    }
}

/// A call of a closure starts from the scope that the closure was made
/// with, and from no other: where there are as many arguments as
/// parameters, and the arguments evaluate without error, the call is the
/// body evaluated among that scope with the parameters bound to the values
/// of the arguments, whatever the locals of the caller are.
pub proof fn law_closure_starts_from_its_scope<H: Host>(
    host: &H,
    env: Env,
    scope: Bindings,
    params: Seq<Seq<char>>,
    body: Tree,
    args: Seq<Tree>,
    depth: nat,
)
    requires
        args.len() == params.len(),
        eval_args(host, env, args, 0, Seq::empty(), depth).result is Ok,
    ensures
        call(host, env, Value::Closure(scope, params, body), args, depth) == scoped(
            host,
            eval_args(host, env, args, 0, Seq::empty(), depth).env,
            body,
            layered(
                scope,
                params,
                eval_args(host, env, args, 0, Seq::empty(), depth).result->Ok_0,
                params.len() as int,
            ),
            depth,
        ),
{
    lemma_bind_layers(host, env, scope, params, args, 0, Seq::empty(), depth);
    assert(call(host, env, Value::Closure(scope, params, body), args, depth) == invoke(
        host,
        env,
        scope,
        params,
        body,
        args,
        depth,
    ));
}

/// Evaluating a node leaves the locals and the span of the context as they
/// were: what a `let` or a call binds is bound only while its body is
/// evaluated, and the site of a call is the span only while the call is
/// made.
pub proof fn law_locals_and_span_are_kept<H: Host>(host: &H, env: Env, node: Tree, depth: nat)
    ensures
        eval(host, env, node, depth).env.locals == env.locals,
        eval(host, env, node, depth).env.span == env.span,
    decreases depth, 0nat, 0nat,
{
    match node.kind {
        Shape::List(list) => {
            if list.len() > 0 && depth > 0 {
                let at_head = Env { span: list[0].span, ..env };
                let head = eval(host, at_head, list[0], (depth - 1) as nat);
                law_locals_and_span_are_kept(host, at_head, list[0], (depth - 1) as nat);
                match head.result {
                    Ok(f) => lemma_call_keeps(host, head.env, f, list.skip(1), (depth - 1) as nat),
                    Err(e) => {},
                }
            }
        },
        _ => {},
    }
}

/// Evaluating arguments leaves the locals and the span as they were.
proof fn lemma_args_keep<H: Host>(
    host: &H,
    env: Env,
    args: Seq<Tree>,
    i: int,
    acc: Seq<Value>,
    depth: nat,
)
    ensures
        eval_args(host, env, args, i, acc, depth).env.locals == env.locals,
        eval_args(host, env, args, i, acc, depth).env.span == env.span,
    decreases depth, 1nat, args.len() - i,
{
    if 0 <= i < args.len() {
        let one = eval(host, env, args[i], depth);
        law_locals_and_span_are_kept(host, env, args[i], depth);
        match one.result {
            Ok(v) => lemma_args_keep(host, one.env, args, i + 1, acc.push(v), depth),
            Err(e) => {},
        }
    }
}

/// Binding parameters leaves the locals and the span of the context as they were.
proof fn lemma_bind_keeps<H: Host>(
    host: &H,
    env: Env,
    params: Seq<Seq<char>>,
    args: Seq<Tree>,
    i: int,
    locals: Bindings,
    depth: nat,
)
    ensures
        bind(host, env, params, args, i, locals, depth).env.locals == env.locals,
        bind(host, env, params, args, i, locals, depth).env.span == env.span,
    decreases depth, 1nat, params.len() - i,
{
    if 0 <= i < params.len() && i < args.len() {
        let one = eval(host, env, args[i], depth);
        law_locals_and_span_are_kept(host, env, args[i], depth);
        match one.result {
            Ok(v) => lemma_bind_keeps(
                host,
                one.env,
                params,
                args,
                i + 1,
                super::scope::bound(locals, params[i], v),
                depth,
            ),
            Err(e) => {},
        }
    }
}

/// A condition leaves the locals and the span as they were.
proof fn lemma_condition_keeps<H: Host>(host: &H, env: Env, node: Tree, depth: nat)
    ensures
        condition(host, env, node, depth).env.locals == env.locals,
        condition(host, env, node, depth).env.span == env.span,
    decreases depth, 1nat, 0nat,
{
    law_locals_and_span_are_kept(host, env, node, depth);
}

/// `and` leaves the locals and the span as they were.
proof fn lemma_all_keep<H: Host>(host: &H, env: Env, args: Seq<Tree>, i: int, depth: nat)
    ensures
        all_hold(host, env, args, i, depth).env.locals == env.locals,
        all_hold(host, env, args, i, depth).env.span == env.span,
    decreases depth, 1nat, args.len() - i,
{
    if 0 <= i < args.len() {
        let one = eval(host, env, args[i], depth);
        law_locals_and_span_are_kept(host, env, args[i], depth);
        match one.result {
            Ok(Value::Bool(true)) => lemma_all_keep(host, one.env, args, i + 1, depth),
            _ => {},
        }
    }
}

/// `or` leaves the locals and the span as they were.
proof fn lemma_any_keep<H: Host>(host: &H, env: Env, args: Seq<Tree>, i: int, depth: nat)
    ensures
        any_holds(host, env, args, i, depth).env.locals == env.locals,
        any_holds(host, env, args, i, depth).env.span == env.span,
    decreases depth, 1nat, args.len() - i,
{
    if 0 <= i < args.len() {
        let one = eval(host, env, args[i], depth);
        law_locals_and_span_are_kept(host, env, args[i], depth);
        match one.result {
            Ok(Value::Bool(false)) => lemma_any_keep(host, one.env, args, i + 1, depth),
            _ => {},
        }
    }
}

/// One binding of a `let` leaves the span as it was.
proof fn lemma_let_pair_keeps<H: Host>(host: &H, env: Env, pair: Tree, depth: nat)
    ensures
        let_pair(host, env, pair, depth).env.span == env.span,
    decreases depth, 1nat, 0nat,
{
    match pair.kind {
        Shape::List(p) => {
            if p.len() == 2 {
                law_locals_and_span_are_kept(host, env, p[1], depth);
            }
        },
        _ => {},
    }
}

/// The bindings of a list of bindings leave the span as it was.
proof fn lemma_let_pairs_keep<H: Host>(host: &H, env: Env, pairs: Seq<Tree>, i: int, depth: nat)
    ensures
        let_pairs(host, env, pairs, i, depth).env.span == env.span,
    decreases depth, 2nat, pairs.len() - i,
{
    if 0 <= i < pairs.len() {
        let one = let_pair(host, env, pairs[i], depth);
        lemma_let_pair_keeps(host, env, pairs[i], depth);
        match one.result {
            Ok(_) => lemma_let_pairs_keep(host, one.env, pairs, i + 1, depth),
            Err(e) => {},
        }
    }
}

/// One argument of `let` before the body leaves the span as it was.
proof fn lemma_let_binding_keeps<H: Host>(host: &H, env: Env, item: Tree, depth: nat)
    ensures
        let_binding(host, env, item, depth).env.span == env.span,
    decreases depth, 3nat, 0nat,
{
    match item.kind {
        Shape::List(p) => {
            lemma_let_pairs_keep(host, env, p, 0, depth);
            lemma_let_pair_keeps(host, env, item, depth);
        },
        _ => {},
    }
}

/// The arguments of `let` before the body leave the span as it was.
proof fn lemma_let_bindings_keep<H: Host>(
    host: &H,
    env: Env,
    items: Seq<Tree>,
    i: int,
    depth: nat,
)
    ensures
        let_bindings(host, env, items, i, depth).env.span == env.span,
    decreases depth, 4nat, items.len() - i,
{
    if 0 <= i < items.len() {
        let one = let_binding(host, env, items[i], depth);
        lemma_let_binding_keeps(host, env, items[i], depth);
        match one.result {
            Ok(_) => lemma_let_bindings_keep(host, one.env, items, i + 1, depth),
            Err(e) => {},
        }
    }
}

/// A call of a function of the program leaves the locals and the span as
/// they were.
proof fn lemma_invoke_keeps<H: Host>(
    host: &H,
    env: Env,
    locals: Bindings,
    params: Seq<Seq<char>>,
    body: Tree,
    args: Seq<Tree>,
    depth: nat,
)
    ensures
        invoke(host, env, locals, params, body, args, depth).env.locals == env.locals,
        invoke(host, env, locals, params, body, args, depth).env.span == env.span,
    decreases depth, 3nat, 0nat,
{
    lemma_bind_keeps(host, env, params, args, 0, locals, depth);
}

/// A call of a function of the language leaves the locals and the span as
/// they were.
proof fn lemma_builtin_keeps<H: Host>(
    host: &H,
    env: Env,
    op: Builtin,
    args: Seq<Tree>,
    depth: nat,
)
    ensures
        builtin(host, env, op, args, depth).env.locals == env.locals,
        builtin(host, env, op, args, depth).env.span == env.span,
    decreases depth, 5nat, 0nat,
{
    let n = args.len() as int;
    match op {
        Builtin::Const => {
            if n == 2 {
                law_locals_and_span_are_kept(host, env, args[1], depth);
            }
        },
        Builtin::If => {
            if n == 2 || n == 3 {
                let cond = condition(host, env, args[0], depth);
                lemma_condition_keeps(host, env, args[0], depth);
                law_locals_and_span_are_kept(host, cond.env, args[1], depth);
                if n == 3 {
                    law_locals_and_span_are_kept(host, cond.env, args[2], depth);
                }
            }
        },
        Builtin::And => lemma_all_keep(host, env, args, 0, depth),
        Builtin::Or => lemma_any_keep(host, env, args, 0, depth),
        Builtin::Not => {
            if n == 1 {
                lemma_condition_keeps(host, env, args[0], depth);
            }
        },
        Builtin::Join => {
            if n == 2 {
                let first = eval(host, env, args[0], depth);
                law_locals_and_span_are_kept(host, env, args[0], depth);
                law_locals_and_span_are_kept(host, first.env, args[1], depth);
            }
        },
        Builtin::Let => {
            if n > 0 {
                let made = let_bindings(host, env, args.drop_last(), 0, depth);
                lemma_let_bindings_keep(host, env, args.drop_last(), 0, depth);
                law_locals_and_span_are_kept(host, made.env, args.last(), depth);
            }
        },
        Builtin::Quote | Builtin::Chars | Builtin::Lambda | Builtin::Fn => {},
        _ => {
            lemma_args_keep(host, env, args, 0, Seq::empty(), depth);
        },
    }
}

/// A call leaves the locals and the span as they were.
proof fn lemma_call_keeps<H: Host>(host: &H, env: Env, f: Value, args: Seq<Tree>, depth: nat)
    ensures
        call(host, env, f, args, depth).env.locals == env.locals,
        call(host, env, f, args, depth).env.span == env.span,
    decreases depth, 6nat, 0nat,
{
    match f {
        Value::BuiltinFn(_, op) => lemma_builtin_keeps(host, env, op, args, depth),
        Value::UserFn(_, params, body) => lemma_invoke_keeps(
            host,
            env,
            Seq::empty(),
            params,
            body,
            args,
            depth,
        ),
        Value::Closure(scope, params, body) => lemma_invoke_keeps(
            host,
            env,
            scope,
            params,
            body,
            args,
            depth,
        ),
        _ => {},
    }
}

} // verus!
