//! The functions of the language that work on values alone.

use super::error::{Error, ErrorKind, ErrorView};
use super::expr::{lemma_values, values, Builtin, Expr, Value};
use super::quote::equal;
use super::rules::{
    apply, characters, divided, lemma_characters, is_strict, items, numbers, ordered, strict_arity,
    subtracted,
};
use super::show::{join, texts_all};
use crate::host::{
    is_function, lemma_difference, lemma_digit_number, lemma_parsed, lemma_printed,
    lemma_product_of, lemma_quotient, lemma_sum_of, lemma_truncated, Host,
};
use crate::number::{less, less_or_equal, negative};
use crate::span::Span;
use crate::text::{decode, digit};
use vstd::prelude::*;

verus! {

broadcast use {vstd::seq::group_seq_axioms, vstd::std_specs::vec::group_vec_axioms};

/// A character as a value.
fn char_value(c: char) -> (r: Expr)
    ensures
        r@ == Value::Char(c),
{
    Expr::Char(c)
}

/// The characters of a text as values.
pub(crate) fn chars_of(s: &str) -> (r: Vec<Expr>)
    ensures
        values(r@) == characters(s@),
{
    let chars = decode(s);
    let mut out: Vec<Expr> = Vec::new();
    let mut i: usize = 0;
    while i < chars.len()
        invariant
            i <= chars.len(),
            chars@ == s@,
            out@.len() == i,
            forall|j: int| 0 <= j < i ==> (#[trigger] out@[j])@ == Value::Char(s@[j]),
        decreases chars.len() - i,
    {
        out.push(char_value(chars[i]));
        i += 1;
    }
    proof {
        lemma_values(out@);
        lemma_characters(s@);
        assert(values(out@) =~= characters(s@));
    }
    out
}

/// The items of a collection; the value itself where it is none.
pub(crate) fn items_of(value: Expr) -> (r: Result<Vec<Expr>, Expr>)
    ensures
        match items(value@) {
            Some(v) => r matches Ok(got) && values(got@) == v,
            None => r matches Err(back) && back@ == value@,
        },
{
    match value {
        Expr::List(v) => Ok(v),
        Expr::Vector(v) => Ok(v),
        Expr::Nil => {
            let v: Vec<Expr> = Vec::new();
            proof {
                lemma_values(v@);
                assert(values(v@) =~= Seq::<Value>::empty());
            }
            Ok(v)
        },
        Expr::String(s) => Ok(chars_of(s.as_str())),
        other => Err(other),
    }
}

/// The numbers that the values are; the first value that is no number
/// where there is one.
pub(crate) fn numbers_of(vals: &Vec<Expr>) -> (r: Result<Vec<u64>, Expr>)
    ensures
        match numbers(values(vals@), vals@.len() as int) {
            Ok(ns) => r matches Ok(got) && got@ == ns,
            Err(v) => r matches Err(bad) && bad@ == v,
        },
{
    let mut out: Vec<u64> = Vec::new();
    let mut i: usize = 0;
    proof {
        lemma_values(vals@);
    }
    while i < vals.len()
        invariant
            i <= vals.len(),
            values(vals@).len() == vals@.len(),
            forall|j: int| 0 <= j < vals@.len() ==> (#[trigger] values(vals@)[j]) == vals@[j]@,
            numbers(values(vals@), i as int) == Ok::<Seq<u64>, Value>(out@),
        decreases vals.len() - i,
    {
        match &vals[i] {
            Expr::Number(n) => {
                out.push(*n);
            },
            other => {
                let bad = other.clone();
                proof {
                    lemma_numbers_stop(values(vals@), i as int + 1, vals@.len() as int);
                }
                return Err(bad);
            },
        }
        i += 1;
    }
    Ok(out)
}

/// Once a value is no number, the values up to any later one are not all
/// numbers either, and the first that is none stays the same.
pub proof fn lemma_numbers_stop(vals: Seq<Value>, n: int, m: int)
    requires
        0 <= n <= m,
        numbers(vals, n) is Err,
    ensures
        numbers(vals, m) == numbers(vals, n),
    decreases m - n,
{
    if n < m {
        lemma_numbers_stop(vals, n, m - 1);
    }
}

/// As many numbers come out as there are values.
pub proof fn lemma_numbers_len(vals: Seq<Value>, n: int)
    requires
        0 <= n,
    ensures
        numbers(vals, n) matches Ok(ns) ==> ns.len() == n,
    decreases n,
{
    if n > 0 {
        lemma_numbers_len(vals, n - 1);
    }
}

/// An error of the kind at the span.
fn error_at(kind: ErrorKind, span: &Span) -> (r: Error)
    ensures
        r@ == (ErrorView { kind: kind@, span: *span }),
{
    Error::new(kind, span.clone())
}

/// `ns[0] - ns[1] - ..`, or the same with `/`.
fn fold<H: Host>(host: &H, ns: &Vec<u64>, divide: bool) -> (r: u64)
    requires
        ns@.len() > 0,
    ensures
        is_function(host) ==> r == if divide {
            divided(host, ns@, ns@.len() as int)
        } else {
            subtracted(host, ns@, ns@.len() as int)
        },
{
    let mut acc = ns[0];
    let mut i: usize = 1;
    while i < ns.len()
        invariant
            1 <= i <= ns.len(),
            is_function(host) ==> acc == if divide {
                divided(host, ns@, i as int)
            } else {
                subtracted(host, ns@, i as int)
            },
        decreases ns.len() - i,
    {
        let next = if divide {
            host.divide(acc, ns[i])
        } else {
            host.subtract(acc, ns[i])
        };
        proof {
            if is_function(host) {
                if divide {
                    lemma_quotient(host, acc, ns@[i as int], next);
                } else {
                    lemma_difference(host, acc, ns@[i as int], next);
                }
            }
        }
        acc = next;
        i += 1;
    }
    acc
}

/// Whether each number stands in the order of `op` to the one after it.
fn in_order(op: Builtin, ns: &Vec<u64>) -> (r: bool)
    requires
        op == Builtin::Less || op == Builtin::Greater || op == Builtin::LessOrEqual || op
            == Builtin::GreaterOrEqual,
    ensures
        r == ordered(op, ns@),
{
    if ns.len() < 2 {
        return true;
    }
    let mut i: usize = 0;
    while i < ns.len() - 1
        invariant
            ns.len() >= 2,
            i <= ns.len() - 1,
            forall|j: int|
                0 <= j < i ==> match op {
                    Builtin::Less => crate::number::below(#[trigger] ns@[j], ns@[j + 1]),
                    Builtin::Greater => crate::number::below(ns@[j + 1], ns@[j]),
                    Builtin::LessOrEqual => crate::number::at_most(ns@[j], ns@[j + 1]),
                    _ => crate::number::at_most(ns@[j + 1], ns@[j]),
                },
        decreases ns.len() - i,
    {
        let a = ns[i];
        let b = ns[i + 1];
        let holds = match op {
            Builtin::Less => less(a, b),
            Builtin::Greater => less(b, a),
            Builtin::LessOrEqual => less_or_equal(a, b),
            _ => less_or_equal(b, a),
        };
        if !holds {
            return false;
        }
        i += 1;
    }
    true
}

/// Whether every value equals the first.
fn all_equal_first(vals: &Vec<Expr>) -> (r: bool)
    ensures
        r == (forall|i: int|
            0 <= i < values(vals@).len() ==> equal(#[trigger] values(vals@)[i], values(vals@)[0])),
{
    let mut i: usize = 0;
    proof {
        lemma_values(vals@);
    }
    while i < vals.len()
        invariant
            i <= vals.len(),
            values(vals@).len() == vals@.len(),
            forall|j: int| 0 <= j < vals@.len() ==> (#[trigger] values(vals@)[j]) == vals@[j]@,
            forall|j: int| 0 <= j < i ==> equal(#[trigger] values(vals@)[j], values(vals@)[0]),
        decreases vals.len() - i,
    {
        if !vals[i].equals(&vals[0]) {
            assert(!equal(values(vals@)[i as int], values(vals@)[0]));
            return false;
        }
        i += 1;
    }
    true
}

/// What a function that evaluates all its arguments gives for their
/// values. Errors are laid at `span`.
pub(crate) fn apply_to<H: Host>(host: &H, op: Builtin, vals: Vec<Expr>, span: &Span) -> (r: Result<
    Expr,
    Error,
>)
    requires
        is_strict(op),
        strict_arity(op, vals@.len() as int) is None,
    ensures
        is_function(host) ==> match apply(host, op, values(vals@), *span) {
            Ok(v) => r matches Ok(got) && got@ == v,
            Err(e) => r matches Err(got) && got@ == e,
        },
{
    proof {
        lemma_values(vals@);
        lemma_numbers_len(values(vals@), vals@.len() as int);
    }
    match op {
        Builtin::Add => match numbers_of(&vals) {
            Ok(ns) => {
                let total = host.sum(&ns);
                proof {
                    if is_function(host) {
                        lemma_sum_of(host, &ns, total);
                    }
                }
                Ok(Expr::Number(total))
            },
            Err(bad) => Err(error_at(ErrorKind::InvalidArgument(bad), span)),
        },
        Builtin::Multiply => match numbers_of(&vals) {
            Ok(ns) => {
                let total = host.product(&ns);
                proof {
                    if is_function(host) {
                        lemma_product_of(host, &ns, total);
                    }
                }
                Ok(Expr::Number(total))
            },
            Err(bad) => Err(error_at(ErrorKind::InvalidArgument(bad), span)),
        },
        Builtin::Subtract => match numbers_of(&vals) {
            Ok(ns) => {
                if ns.len() == 0 {
                    Err(error_at(ErrorKind::MissingArguments, span))
                } else {
                    Ok(Expr::Number(fold(host, &ns, false)))
                }
            },
            Err(bad) => Err(error_at(ErrorKind::InvalidArgument(bad), span)),
        },
        Builtin::Divide => match numbers_of(&vals) {
            Ok(ns) => {
                if ns.len() == 0 {
                    Err(error_at(ErrorKind::MissingArguments, span))
                } else {
                    Ok(Expr::Number(fold(host, &ns, true)))
                }
            },
            Err(bad) => Err(error_at(ErrorKind::InvalidArgument(bad), span)),
        },
        Builtin::Equal => Ok(Expr::Bool(all_equal_first(&vals))),
        Builtin::Less | Builtin::Greater | Builtin::LessOrEqual | Builtin::GreaterOrEqual => match numbers_of(
            &vals,
        ) {
            Ok(ns) => Ok(Expr::Bool(in_order(op, &ns))),
            Err(bad) => Err(error_at(ErrorKind::InvalidArgument(bad), span)),
        },
        Builtin::Str => {
            let parts = texts_all(&vals, host);
            let s = join(&parts, "");
            proof {
                reveal_strlit("");
                assert(""@ =~= Seq::<char>::empty());
            }
            Ok(Expr::String(s))
        },
        Builtin::Println => {
            let parts = texts_all(&vals, host);
            let line = join(&parts, " ");
            proof {
                reveal_strlit(" ");
                assert(" "@ =~= seq![' ']);
            }
            let text = line.as_str();
            let shown = host.print_line(text);
            proof {
                if is_function(host) {
                    lemma_printed(host, text, shown);
                }
            }
            if shown {
                Ok(Expr::Nil)
            } else {
                Ok(Expr::Display(line))
            }
        },
        Builtin::List => Ok(Expr::List(vals)),
        Builtin::Vector => Ok(Expr::Vector(vals)),
        Builtin::Vec => {
            let mut vals = vals;
            let only = vals.pop().unwrap();
            match items_of(only) {
                Ok(v) => Ok(Expr::Vector(v)),
                Err(bad) => Err(error_at(ErrorKind::InvalidArgument(bad), span)),
            }
        },
        Builtin::Nth => {
            let mut vals = vals;
            let default = if vals.len() == 3 {
                vals.pop().unwrap()
            } else {
                Expr::Nil
            };
            let nth = vals.pop().unwrap();
            let coll = vals.pop().unwrap();
            let mut items = match items_of(coll) {
                Ok(v) => v,
                Err(bad) => {
                    return Err(error_at(ErrorKind::InvalidArgument(bad), span));
                },
            };
            let n = match nth {
                Expr::Number(n) => n,
                other => {
                    return Err(error_at(ErrorKind::InvalidArgument(other), span));
                },
            };
            if negative(n) {
                return Ok(default);
            }
            let index = host.truncate(n);
            proof {
                if is_function(host) {
                    lemma_truncated(host, n, index);
                }
                lemma_values(items@);
            }
            if index < items.len() {
                Ok(items[index].clone())
            } else {
                Ok(default)
            }
        },
        Builtin::ParseNum => {
            let mut vals = vals;
            let only = vals.pop().unwrap();
            match only {
                Expr::String(s) => {
                    let text = s.as_str();
                    let read = host.parse_number(text);
                    proof {
                        if is_function(host) {
                            lemma_parsed(host, text, read);
                        }
                    }
                    match read {
                        Some(n) => Ok(Expr::Number(n)),
                        None => Err(error_at(ErrorKind::InvalidArgument(Expr::String(s)), span)),
                    }
                },
                Expr::Char(c) => {
                    if digit(c) {
                        let d: u32 = c as u32 - '0' as u32;
                        let n = host.from_digit(d);
                        proof {
                            if is_function(host) {
                                lemma_digit_number(host, d, n);
                            }
                        }
                        Ok(Expr::Number(n))
                    } else {
                        Err(error_at(ErrorKind::InvalidArgument(Expr::Char(c)), span))
                    }
                },
                other => Err(error_at(ErrorKind::InvalidArgument(other), span)),
            }
        },
        _ => Err(error_at(ErrorKind::InvalidFunction(Expr::Nil), span)),
    }
}

} // verus!
