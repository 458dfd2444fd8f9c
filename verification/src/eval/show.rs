//! Values as text.

use super::expr::{lemma_values, values, Expr, Value};
use crate::host::{formatted, is_function, lemma_formatted, Host};
use vstd::prelude::*;
use vstd::string::StringExecFns;

verus! {

broadcast use vstd::std_specs::vec::group_vec_axioms;

/// `s` with a backslash before each double quote.
pub open spec fn escaped(s: Seq<char>) -> Seq<char>
    decreases s.len(),
{
    if s.len() == 0 {
        Seq::empty()
    } else if s.last() == '"' {
        escaped(s.drop_last()).push('\\').push('"')
    } else {
        escaped(s.drop_last()).push(s.last())
    }
}

/// The parts in order, with `sep` between each two.
pub open spec fn joined(parts: Seq<Seq<char>>, sep: Seq<char>) -> Seq<char>
    decreases parts.len(),
{
    if parts.len() == 0 {
        Seq::empty()
    } else if parts.len() == 1 {
        parts[0]
    } else {
        joined(parts.drop_last(), sep) + sep + parts.last()
    }
}

/// The value as it is shown.
pub open spec fn shown<H: Host>(host: &H, value: Value) -> Seq<char>
    decreases value,
{
    match value {
        Value::Number(n) => formatted(host, n),
        Value::Bool(b) => if b {
            "true"@
        } else {
            "false"@
        },
        Value::String(s) => seq!['"'] + escaped(s) + seq!['"'],
        Value::Display(s) => s,
        Value::Char(c) => seq!['\'', c, '\''],
        Value::Symbol(s) => s,
        Value::Keyword(s) => seq![':'] + s,
        Value::List(l) => seq!['('] + joined(shown_all(host, l), seq![' ']) + seq![')'],
        Value::Vector(l) => seq!['['] + joined(shown_all(host, l), seq![' ']) + seq![']'],
        Value::Nil => "nil"@,
        Value::BuiltinFn(name, _) => name,
        Value::UserFn(name, _, _) => name,
        Value::Closure(_, _, _) => "#<lambda>"@,
    }
}

/// The values as they are shown, in order.
pub open spec fn shown_all<H: Host>(host: &H, values: Seq<Value>) -> Seq<Seq<char>>
    decreases values,
{
    if values.len() == 0 {
        Seq::empty()
    } else {
        shown_all(host, values.drop_last()).push(shown(host, values.last()))
    }
}

/// The value as a text: a string is its own text, a character the text of
/// one character, anything else what it is shown as.
pub open spec fn text_of<H: Host>(host: &H, value: Value) -> Seq<char> {
    match value {
        Value::String(s) => s,
        Value::Char(c) => seq![c],
        _ => shown(host, value),
    }
}

/// The values as texts, in order.
pub open spec fn texts_of<H: Host>(host: &H, values: Seq<Value>) -> Seq<Seq<char>>
    decreases values.len(),
{
    if values.len() == 0 {
        Seq::empty()
    } else {
        texts_of(host, values.drop_last()).push(text_of(host, values.last()))
    }
}

/// The texts of the strings.
pub open spec fn texts(strings: Seq<String>) -> Seq<Seq<char>> {
    strings.map_values(|s: String| s@)
}

/// `s` with a backslash before each double quote.
fn escape(s: &str) -> (r: String)
    ensures
        r@ == escaped(s@),
{
    let mut out = String::new();
    for c in it: s.chars()
        invariant
            it.seq() == s@,
            out@ == escaped(s@.take(it.index())),
    {
        proof {
            assert(s@.take(it.index() + 1).drop_last() =~= s@.take(it.index()));
            assert(s@.take(it.index() + 1).last() == c);
        }
        if c == '"' {
            out.push('\\');
            out.push('"');
        } else {
            out.push(c);
        }
    }
    assert(s@.take(s@.len() as int) =~= s@);
    out
}

/// The strings in order, with `sep` between each two.
pub(crate) fn join(parts: &Vec<String>, sep: &str) -> (r: String)
    ensures
        r@ == joined(texts(parts@), sep@),
{
    let mut out = String::new();
    let mut i: usize = 0;
    while i < parts.len()
        invariant
            i <= parts.len(),
            out@ == joined(texts(parts@).take(i as int), sep@),
        decreases parts.len() - i,
    {
        proof {
            let now = texts(parts@).take(i + 1);
            assert(now.drop_last() =~= texts(parts@).take(i as int));
            assert(now.last() == parts@[i as int]@);
            if i == 0 {
                assert(joined(now, sep@) == now[0]);
                assert(out@ + parts@[i as int]@ =~= parts@[i as int]@);
            }
        }
        if i > 0 {
            out.append(sep);
        }
        out.append(parts[i].as_str());
        i += 1;
    }
    assert(texts(parts@).take(i as int) =~= texts(parts@));
    out
}

/// The text of one character.
pub(crate) fn char_text(c: char) -> (r: String)
    ensures
        r@ == seq![c],
{
    let mut out = String::new();
    out.push(c);
    assert(out@ =~= seq![c]);
    out
}

/// The values as they are shown, in order.
fn show_all<H: Host>(exprs: &Vec<Expr>, host: &H) -> (r: Vec<String>)
    ensures
        is_function(host) ==> texts(r@) == shown_all(host, values(exprs@)),
    decreases exprs,
{
    let mut out: Vec<String> = Vec::new();
    let mut i: usize = 0;
    proof {
        lemma_values(exprs@);
    }
    while i < exprs.len()
        invariant
            i <= exprs.len(),
            out@.len() == i,
            values(exprs@).len() == exprs@.len(),
            forall|j: int| 0 <= j < exprs@.len() ==> (#[trigger] values(exprs@)[j]) == exprs@[j]@,
            is_function(host) ==> texts(out@) == shown_all(host, values(exprs@).take(i as int)),
        decreases exprs.len() - i,
    {
        let s = exprs[i].to_string(host);
        proof {
            let now = values(exprs@).take(i + 1);
            assert(now.drop_last() =~= values(exprs@).take(i as int));
            assert(now.last() == exprs@[i as int]@);
            assert(texts(out@.push(s)) =~= texts(out@).push(s@));
        }
        out.push(s);
        i += 1;
    }
    assert(values(exprs@).take(i as int) =~= values(exprs@));
    out
}

impl Expr {
    /// The value as it is shown.
    pub fn to_string<H: Host>(&self, host: &H) -> (r: String)
        ensures
            is_function(host) ==> r@ == shown(host, self@),
        decreases self,
    {
        match self {
            Expr::Number(n) => {
                let s = host.format_number(*n);
                proof {
                    if is_function(host) {
                        lemma_formatted(host, *n, s);
                    }
                }
                s
            },
            Expr::Bool(b) => if *b {
                "true".to_owned()
            } else {
                "false".to_owned()
            },
            Expr::String(s) => {
                let mut out = String::new();
                out.push('"');
                out.append(escape(s.as_str()).as_str());
                out.push('"');
                assert(out@ =~= seq!['"'] + escaped(s@) + seq!['"']);
                out
            },
            Expr::Display(s) => s.clone(),
            Expr::Char(c) => {
                let mut out = String::new();
                out.push('\'');
                out.push(*c);
                out.push('\'');
                assert(out@ =~= seq!['\'', *c, '\'']);
                out
            },
            Expr::Symbol(s) => s.to_string(),
            Expr::Keyword(s) => {
                let mut out = String::new();
                out.push(':');
                out.append(s.as_str());
                assert(out@ =~= seq![':'] + s@);
                out
            },
            Expr::List(v) => {
                let parts = show_all(v, host);
                let mut out = String::new();
                out.push('(');
                out.append(join(&parts, " ").as_str());
                out.push(')');
                proof {
                    reveal_strlit(" ");
                    assert(" "@ =~= seq![' ']);
                    assert(out@ =~= seq!['('] + joined(texts(parts@), seq![' ']) + seq![')']);
                }
                out
            },
            Expr::Vector(v) => {
                let parts = show_all(v, host);
                let mut out = String::new();
                out.push('[');
                out.append(join(&parts, " ").as_str());
                out.push(']');
                proof {
                    reveal_strlit(" ");
                    assert(" "@ =~= seq![' ']);
                    assert(out@ =~= seq!['['] + joined(texts(parts@), seq![' ']) + seq![']']);
                }
                out
            },
            Expr::Nil => "nil".to_owned(),
            Expr::BuiltinFn(f) => f.name.to_string(),
            Expr::UserFn(f) => f.name.to_string(),
            Expr::Closure(_) => "#<lambda>".to_owned(),
        }
    }

    /// The value as a text: a string is its own text, a character the text
    /// of one character, anything else what it is shown as.
    pub fn text<H: Host>(&self, host: &H) -> (r: String)
        ensures
            is_function(host) ==> r@ == text_of(host, self@),
    {
        match self {
            Expr::String(s) => s.clone(),
            Expr::Char(c) => char_text(*c),
            _ => self.to_string(host),
        }
    }
}

/// The values as texts, in order.
pub(crate) fn texts_all<H: Host>(exprs: &Vec<Expr>, host: &H) -> (r: Vec<String>)
    ensures
        is_function(host) ==> texts(r@) == texts_of(host, values(exprs@)),
{
    let mut out: Vec<String> = Vec::new();
    let mut i: usize = 0;
    proof {
        lemma_values(exprs@);
    }
    while i < exprs.len()
        invariant
            i <= exprs.len(),
            out@.len() == i,
            values(exprs@).len() == exprs@.len(),
            forall|j: int| 0 <= j < exprs@.len() ==> (#[trigger] values(exprs@)[j]) == exprs@[j]@,
            is_function(host) ==> texts(out@) == texts_of(host, values(exprs@).take(i as int)),
        decreases exprs.len() - i,
    {
        let s = exprs[i].text(host);
        proof {
            let now = values(exprs@).take(i + 1);
            assert(now.drop_last() =~= values(exprs@).take(i as int));
            assert(now.last() == exprs@[i as int]@);
            assert(texts(out@.push(s)) =~= texts(out@).push(s@));
        }
        out.push(s);
        i += 1;
    }
    assert(values(exprs@).take(i as int) =~= values(exprs@));
    out
}

} // verus!
