//! Scopes: names and what they are bound to.

use super::expr::{lemma_values, lemma_values_push, names, values, Builtin, BuiltinFn, Expr, Value};
use super::show::texts;
use crate::lexer::Symbol;
use crate::text::{
    lemma_precedes_total, lemma_precedes_transitive, lemma_same_bytes, less, precedes,
};
use vstd::prelude::*;
use vstd::utf8::encode_utf8;

verus! {

broadcast use vstd::std_specs::vec::group_vec_axioms;

/// Names and what they are bound to. Each name is bound once.
#[derive(Debug)]
pub struct Scope(Vec<(Symbol, Expr)>);

/// Names with values, in the order in which the names were first bound.
pub type Bindings = Seq<(Seq<char>, Value)>;

/// The bindings of a sequence of entries.
pub open spec fn bindings(entries: Seq<(Symbol, Expr)>) -> Seq<(Seq<char>, Value)>
    decreases entries,
{
    if entries.len() == 0 {
        Seq::empty()
    } else {
        bindings(entries.drop_last()).push((entries.last().0@, entries.last().1@))
    }
}

/// No name is bound twice.
pub open spec fn apart(scope: Bindings) -> bool {
    forall|i: int, j: int|
        0 <= i < j < scope.len() ==> (#[trigger] scope[i]).0 != (#[trigger] scope[j]).0
}

impl View for Scope {
    type V = Bindings;

    closed spec fn view(&self) -> Bindings
        decreases self,
    {
        bindings(self.0@)
    }
}

/// The bindings of entries are the bindings of each, in order.
pub proof fn lemma_bindings(entries: Seq<(Symbol, Expr)>)
    ensures
        bindings(entries).len() == entries.len(),
        forall|i: int|
            0 <= i < entries.len() ==> (#[trigger] bindings(entries)[i]) == (
                entries[i].0@,
                entries[i].1@,
            ),
    decreases entries.len(),
{
    reveal_with_fuel(bindings, 2);
    if entries.len() > 0 {
        lemma_bindings(entries.drop_last());
        assert(bindings(entries) == bindings(entries.drop_last()).push(
            (entries.last().0@, entries.last().1@),
        ));
    } else {
        assert(bindings(entries) == Seq::<(Seq<char>, Value)>::empty());
    }
}

/// The bindings of one more entry are one more binding.
pub proof fn lemma_bindings_push(entries: Seq<(Symbol, Expr)>, entry: (Symbol, Expr))
    ensures
        bindings(entries.push(entry)) == bindings(entries).push((entry.0@, entry.1@)),
{
    reveal_with_fuel(bindings, 2);
    assert(entries.push(entry).drop_last() =~= entries);
}

/// Copies of the entries, in order.
fn clone_entries(entries: &Vec<(Symbol, Expr)>) -> (r: Vec<(Symbol, Expr)>)
    ensures
        bindings(r@) == bindings(entries@),
        r@.len() == entries@.len(),
    decreases entries,
{
    let mut out: Vec<(Symbol, Expr)> = Vec::new();
    let mut i: usize = 0;
    while i < entries.len()
        invariant
            i <= entries.len(),
            out@.len() == i,
            bindings(out@) == bindings(entries@.take(i as int)),
        decreases entries.len() - i,
    {
        let copy = (entries[i].0.clone(), entries[i].1.clone());
        proof {
            lemma_bindings_push(out@, copy);
            lemma_bindings_push(entries@.take(i as int), entries@[i as int]);
            assert(entries@.take(i + 1) =~= entries@.take(i as int).push(entries@[i as int]));
        }
        out.push(copy);
        i += 1;
    }
    assert(entries@.take(i as int) =~= entries@);
    out
}

impl Default for Scope {
    /// A scope without bindings.
    fn default() -> (r: Self)
        ensures
            r@ == Seq::<(Seq<char>, Value)>::empty(),
    {
        Scope::new()
    }
}

impl Clone for Scope {
    fn clone(&self) -> (r: Self)
        ensures
            r@ == self@,
        decreases self,
    {
        proof {
            use_type_invariant(self);
        }
        Scope(clone_entries(&self.0))
    }
}


/// The index of the first binding of `name`; the number of bindings where
/// there is none.
pub open spec fn index_of(scope: Bindings, name: Seq<char>) -> int
    decreases scope.len(),
{
    if scope.len() == 0 {
        0
    } else if scope[0].0 == name {
        0
    } else {
        1 + index_of(scope.drop_first(), name)
    }
}

/// What `name` is bound to.
pub open spec fn lookup(scope: Bindings, name: Seq<char>) -> Option<Value> {
    if index_of(scope, name) < scope.len() {
        Some(scope[index_of(scope, name)].1)
    } else {
        None
    }
}

/// The scope with `name` bound to `value`: in place of what it was bound
/// to, or as one more binding.
pub open spec fn bound(scope: Bindings, name: Seq<char>, value: Value) -> Bindings {
    if index_of(scope, name) < scope.len() {
        scope.update(index_of(scope, name), (name, value))
    } else {
        scope.push((name, value))
    }
}

/// `index_of` is the first index that holds the name.
pub proof fn lemma_index_of(scope: Bindings, name: Seq<char>)
    ensures
        0 <= index_of(scope, name) <= scope.len(),
        index_of(scope, name) < scope.len() ==> scope[index_of(scope, name)].0 == name,
        forall|j: int| 0 <= j < index_of(scope, name) ==> (#[trigger] scope[j]).0 != name,
    decreases scope.len(),
{
    if scope.len() > 0 && scope[0].0 != name {
        lemma_index_of(scope.drop_first(), name);
        assert forall|j: int| 0 <= j < index_of(scope, name) implies (#[trigger] scope[j]).0
            != name by {
            if j > 0 {
                assert(scope[j] == scope.drop_first()[j - 1]);
            }
        }
    }
}

/// The first index that holds the name is `index_of`.
pub proof fn lemma_first_is_index(scope: Bindings, name: Seq<char>, i: int)
    requires
        0 <= i <= scope.len(),
        i < scope.len() ==> scope[i].0 == name,
        forall|j: int| 0 <= j < i ==> (#[trigger] scope[j]).0 != name,
    ensures
        index_of(scope, name) == i,
{
    lemma_index_of(scope, name);
    let k = index_of(scope, name);
    if k < i {
        assert(scope[k].0 != name);
    }
    if i < k {
        assert(scope[i].0 != name);
    }
}

/// A name is bound to what it was last bound to; binding one name changes
/// no other.
pub proof fn law_bound_then_lookup(
    scope: Bindings,
    name: Seq<char>,
    value: Value,
    other: Seq<char>,
)
    ensures
        lookup(bound(scope, name, value), other) == if other == name {
            Some(value)
        } else {
            lookup(scope, other)
        },
{
    lemma_index_of(scope, name);
    lemma_index_of(scope, other);
    let after = bound(scope, name, value);
    let i = index_of(scope, name);
    if other == name {
        lemma_first_is_index(after, name, i);
    } else {
        let k = index_of(scope, other);
        assert forall|j: int| 0 <= j < k implies (#[trigger] after[j]).0 != other by {
            if j < scope.len() {
                if j == i {
                } else {
                    assert(after[j] == scope[j]);
                }
            }
        }
        if k < scope.len() {
            assert(after[k] == scope[k]);
            lemma_first_is_index(after, other, k);
        } else {
            assert forall|j: int| 0 <= j < after.len() implies (#[trigger] after[j]).0 != other by {
                if j < scope.len() {
                    if j == i {
                    } else {
                        assert(after[j] == scope[j]);
                    }
                }
            }
            lemma_first_is_index(after, other, after.len() as int);
        }
    }
}

/// The strings as values.
pub open spec fn strings(texts: Seq<Seq<char>>) -> Seq<Value>
    decreases texts.len(),
{
    if texts.len() == 0 {
        Seq::empty()
    } else {
        strings(texts.drop_last()).push(Value::String(texts.last()))
    }
}

/// `scope` with `name` bound to the function `op` of the language.
pub open spec fn named(scope: Bindings, name: Seq<char>, op: Builtin) -> Bindings {
    bound(scope, name, Value::BuiltinFn(name, op))
}

/// The globals that a context is born with: the arguments of the program,
/// and the functions of the language under their names.
pub open spec fn born(args: Seq<Seq<char>>) -> Bindings {
    let s = bound(Seq::empty(), "@cmd-args"@, Value::Vector(strings(args)));
    let s = named(s, "+"@, Builtin::Add);
    let s = named(s, "*"@, Builtin::Multiply);
    let s = named(s, "-"@, Builtin::Subtract);
    let s = named(s, "/"@, Builtin::Divide);
    let s = named(s, "="@, Builtin::Equal);
    let s = named(s, "<"@, Builtin::Less);
    let s = named(s, ">"@, Builtin::Greater);
    let s = named(s, "<="@, Builtin::LessOrEqual);
    let s = named(s, ">="@, Builtin::GreaterOrEqual);
    let s = named(s, "str"@, Builtin::Str);
    let s = named(s, "chars"@, Builtin::Chars);
    let s = named(s, "join"@, Builtin::Join);
    let s = named(s, "println"@, Builtin::Println);
    let s = named(s, "quote"@, Builtin::Quote);
    let s = named(s, "list"@, Builtin::List);
    let s = named(s, "vector"@, Builtin::Vector);
    let s = named(s, "vec"@, Builtin::Vec);
    let s = named(s, "nth"@, Builtin::Nth);
    let s = named(s, "lambda"@, Builtin::Lambda);
    let s = named(s, "\u{3bb}"@, Builtin::Lambda);
    let s = named(s, "fn"@, Builtin::Fn);
    let s = named(s, "let"@, Builtin::Let);
    let s = named(s, "const"@, Builtin::Const);
    let s = named(s, "if"@, Builtin::If);
    let s = named(s, "and"@, Builtin::And);
    let s = named(s, "or"@, Builtin::Or);
    let s = named(s, "not"@, Builtin::Not);
    let s = named(s, "parse-num"@, Builtin::ParseNum);
    s
}

/// The names are in rising order, none twice.
pub open spec fn rising(names: Seq<Seq<char>>) -> bool {
    forall|i: int, j: int|
        0 <= i < j < names.len() ==> precedes(
            encode_utf8(#[trigger] names[i]),
            encode_utf8(#[trigger] names[j]),
        )
}

/// Puts `name` at its place among the names, unless it is there.
fn place(out: &mut Vec<Symbol>, name: Symbol)
    requires
        rising(names(old(out)@)),
    ensures
        rising(names(final(out)@)),
        forall|n: Seq<char>|
            names(final(out)@).contains(n) <==> (names(old(out)@).contains(n) || n == name@),
{
    let ghost before = names(out@);
    let mut p: usize = out.len();
    while p > 0 && less(name.0.as_str(), out[p - 1].0.as_str())
        invariant
            p <= out@.len(),
            names(out@) == before,
            forall|k: int|
                p <= k < out@.len() ==> precedes(
                    encode_utf8(name@),
                    encode_utf8(#[trigger] before[k]),
                ),
        decreases p,
    {
        p -= 1;
    }
    if p > 0 && !less(out[p - 1].0.as_str(), name.0.as_str()) {
        proof {
            lemma_precedes_total(encode_utf8(before[p - 1]), encode_utf8(name@));
            lemma_same_bytes(before[p - 1], name@);
            assert forall|n: Seq<char>| names(out@).contains(n) <==> (before.contains(n) || n
                == name@) by {
                if n == name@ {
                    assert(before[p - 1] == n);
                }
            }
        }
        return ;
    }
    let ghost x = name@;
    out.insert(p, name);
    proof {
        let after = names(out@);
        assert(after =~= before.insert(p as int, x));
        assert forall|i: int, j: int| 0 <= i < j < after.len() implies precedes(
            encode_utf8(#[trigger] after[i]),
            encode_utf8(#[trigger] after[j]),
        ) by {
            if j < p {
                assert(after[i] == before[i] && after[j] == before[j]);
            } else if j == p {
                assert(after[i] == before[i]);
                if i < p - 1 {
                    assert(precedes(encode_utf8(before[i]), encode_utf8(before[p - 1])));
                    lemma_precedes_transitive(
                        encode_utf8(before[i]),
                        encode_utf8(before[p - 1]),
                        encode_utf8(x),
                    );
                }
            } else if i < p {
                assert(after[i] == before[i] && after[j] == before[j - 1]);
                if j - 1 == i {
                    lemma_precedes_transitive(
                        encode_utf8(before[i]),
                        encode_utf8(x),
                        encode_utf8(before[j - 1]),
                    );
                }
            } else if i == p {
                assert(after[j] == before[j - 1]);
            } else {
                assert(after[i] == before[i - 1] && after[j] == before[j - 1]);
            }
        }
        assert forall|n: Seq<char>| after.contains(n) <==> (before.contains(n) || n == x) by {
            if after.contains(n) {
                let k = choose|k: int| 0 <= k < after.len() && after[k] == n;
                if k < p {
                    assert(before[k] == n);
                } else if k > p {
                    assert(before[k - 1] == n);
                }
            }
            if before.contains(n) {
                let k = choose|k: int| 0 <= k < before.len() && before[k] == n;
                if k < p {
                    assert(after[k] == n);
                } else {
                    assert(after[k + 1] == n);
                }
            }
            if n == x {
                assert(after[p as int] == n);
            }
        }
    }
}

impl Scope {
    #[verifier::type_invariant]
    spec fn inv(self) -> bool {
        apart(bindings(self.0@))
    }

    /// The names that are bound, in rising order, each once.
    pub fn names(&self) -> (r: Vec<Symbol>)
        ensures
            rising(names(r@)),
            forall|n: Seq<char>| names(r@).contains(n) <==> lookup(self@, n) is Some,
    {
        let mut out: Vec<Symbol> = Vec::new();
        let mut i: usize = 0;
        proof {
            lemma_bindings(self.0@);
        }
        while i < self.0.len()
            invariant
                i <= self.0@.len(),
                self@.len() == self.0@.len(),
                forall|j: int| 0 <= j < self.0@.len() ==> (#[trigger] self@[j]) == (
                    self.0@[j].0@,
                    self.0@[j].1@,
                ),
                rising(names(out@)),
                forall|n: Seq<char>|
                    names(out@).contains(n) <==> exists|j: int|
                        0 <= j < i && (#[trigger] self@[j]).0 == n,
            decreases self.0.len() - i,
        {
            let ghost before = names(out@);
            let name = self.0[i].0.clone();
            place(&mut out, name);
            proof {
                assert forall|n: Seq<char>| names(out@).contains(n) <==> exists|j: int|
                    0 <= j < i + 1 && (#[trigger] self@[j]).0 == n by {
                    if before.contains(n) {
                        let j = choose|j: int| 0 <= j < i && (#[trigger] self@[j]).0 == n;
                        assert(0 <= j < i + 1 && self@[j].0 == n);
                    }
                    if n == self@[i as int].0 {
                        assert(0 <= i < i + 1 && self@[i as int].0 == n);
                    }
                    if exists|j: int| 0 <= j < i + 1 && (#[trigger] self@[j]).0 == n {
                        let j = choose|j: int| 0 <= j < i + 1 && (#[trigger] self@[j]).0 == n;
                        if j < i {
                            assert(before.contains(n));
                        }
                    }
                }
            }
            i += 1;
        }
        proof {
            assert forall|n: Seq<char>| names(out@).contains(n) <==> lookup(self@, n) is Some by {
                lemma_index_of(self@, n);
                if names(out@).contains(n) {
                    let j = choose|j: int| 0 <= j < i && (#[trigger] self@[j]).0 == n;
                    if index_of(self@, n) > j {
                        assert(self@[j].0 != n);
                    }
                }
                if lookup(self@, n) is Some {
                    let j = index_of(self@, n);
                    assert(0 <= j < i && self@[j].0 == n);
                }
            }
        }
        out
    }

    /// A scope without bindings.
    pub fn new() -> (r: Self)
        ensures
            r@ == Seq::<(Seq<char>, Value)>::empty(),
    {
        proof {
            lemma_bindings(Seq::<(Symbol, Expr)>::empty());
            assert(bindings(Seq::<(Symbol, Expr)>::empty()) =~= Seq::<(Seq<char>, Value)>::empty());
        }
        Scope(Vec::new())
    }

    /// The index of the first binding of `k`; the number of bindings where
    /// there is none.
    fn find(&self, k: &Symbol) -> (r: usize)
        ensures
            r == index_of(self@, k@),
            r <= self.0@.len(),
            self@.len() == self.0@.len(),
    {
        proof {
            lemma_bindings(self.0@);
        }
        let mut i: usize = 0;
        while i < self.0.len()
            invariant
                i <= self.0@.len(),
                self@.len() == self.0@.len(),
                forall|j: int| 0 <= j < self.0@.len() ==> (#[trigger] self@[j]) == (
                    self.0@[j].0@,
                    self.0@[j].1@,
                ),
                forall|j: int| 0 <= j < i ==> (#[trigger] self@[j]).0 != k@,
            decreases self.0.len() - i,
        {
            if self.0[i].0.0 == k.0 {
                proof {
                    lemma_first_is_index(self@, k@, i as int);
                }
                return i;
            }
            i += 1;
        }
        proof {
            lemma_first_is_index(self@, k@, i as int);
        }
        i
    }

    /// What `k` is bound to.
    pub fn get(&self, k: &Symbol) -> (r: Option<&Expr>)
        ensures
            match lookup(self@, k@) {
                Some(value) => r matches Some(e) && e@ == value,
                None => r is None,
            },
    {
        let i = self.find(k);
        proof {
            lemma_bindings(self.0@);
        }
        if i < self.0.len() {
            Some(&self.0[i].1)
        } else {
            None
        }
    }

    /// Binds `k` to `v`, in place of what it was bound to before.
    pub fn insert(&mut self, k: Symbol, v: Expr)
        ensures
            final(self)@ == bound(old(self)@, k@, v@),
            apart(old(self)@),
            apart(final(self)@),
    {
        let i = self.find(&k);
        proof {
            use_type_invariant(&*self);
            lemma_bindings(self.0@);
        }
        let mut taken = Scope(Vec::new());
        proof {
            lemma_bindings(taken.0@);
        }
        core::mem::swap(self, &mut taken);
        let Scope(mut entries) = taken;
        let ghost before = entries@;
        if i < entries.len() {
            entries.set(i, (k, v));
            proof {
                lemma_bindings(entries@);
                assert(bindings(entries@) =~= bound(bindings(before), k@, v@));
            }
        } else {
            proof {
                lemma_bindings_push(entries@, (k, v));
                lemma_index_of(bindings(before), k@);
            }
            entries.push((k, v));
        }
        proof {
            lemma_bound_apart(bindings(before), k@, v@);
        }
        *self = Scope(entries);
    }
}

/// Binding a name keeps the names apart.
pub proof fn lemma_bound_apart(scope: Bindings, name: Seq<char>, value: Value)
    requires
        apart(scope),
    ensures
        apart(bound(scope, name, value)),
{
    lemma_index_of(scope, name);
    let after = bound(scope, name, value);
    let k = index_of(scope, name);
    assert forall|i: int, j: int| 0 <= i < j < after.len() implies (#[trigger] after[i]).0 != (
    #[trigger] after[j]).0 by {
        if k < scope.len() {
            if i == k {
                assert(after[j] == scope[j]);
                assert(scope[k].0 != scope[j].0);
            } else if j == k {
                assert(after[i] == scope[i]);
                assert(scope[i].0 != scope[k].0);
            } else {
                assert(after[i] == scope[i] && after[j] == scope[j]);
            }
        } else {
            if j == scope.len() {
                assert(after[i] == scope[i]);
            } else {
                assert(after[i] == scope[i] && after[j] == scope[j]);
            }
        }
    }
}

/// The strings as values.
fn strings_of(args: Vec<String>) -> (r: Vec<Expr>)
    ensures
        values(r@) == strings(texts(args@)),
{
    let mut out: Vec<Expr> = Vec::new();
    let mut i: usize = 0;
    proof {
        lemma_values(out@);
        assert(texts(args@).take(0) =~= Seq::<Seq<char>>::empty());
    }
    while i < args.len()
        invariant
            i <= args.len(),
            values(out@) == strings(texts(args@).take(i as int)),
        decreases args.len() - i,
    {
        let s = Expr::String(args[i].clone());
        proof {
            lemma_values_push(out@, s);
            assert(texts(args@).take(i + 1).drop_last() =~= texts(args@).take(i as int));
        }
        out.push(s);
        i += 1;
    }
    assert(texts(args@).take(i as int) =~= texts(args@));
    out
}

impl Scope {
    /// Binds `name` to the function `op` of the language.
    fn register(&mut self, name: &str, op: Builtin)
        ensures
            final(self)@ == named(old(self)@, name@, op),
    {
        self.insert(Symbol::from(name), Expr::BuiltinFn(BuiltinFn::new(name, op)));
    }

    /// The globals that a context is born with.
    pub fn builtins(args: Vec<String>) -> (r: Self)
        ensures
            r@ == born(texts(args@)),
    {
        let mut scope = Scope::new();
        scope.insert(Symbol::from("@cmd-args"), Expr::Vector(strings_of(args)));
        scope.register("+", Builtin::Add);
        scope.register("*", Builtin::Multiply);
        scope.register("-", Builtin::Subtract);
        scope.register("/", Builtin::Divide);
        scope.register("=", Builtin::Equal);
        scope.register("<", Builtin::Less);
        scope.register(">", Builtin::Greater);
        scope.register("<=", Builtin::LessOrEqual);
        scope.register(">=", Builtin::GreaterOrEqual);
        scope.register("str", Builtin::Str);
        scope.register("chars", Builtin::Chars);
        scope.register("join", Builtin::Join);
        scope.register("println", Builtin::Println);
        scope.register("quote", Builtin::Quote);
        scope.register("list", Builtin::List);
        scope.register("vector", Builtin::Vector);
        scope.register("vec", Builtin::Vec);
        scope.register("nth", Builtin::Nth);
        scope.register("lambda", Builtin::Lambda);
        scope.register("\u{3bb}", Builtin::Lambda);
        scope.register("fn", Builtin::Fn);
        scope.register("let", Builtin::Let);
        scope.register("const", Builtin::Const);
        scope.register("if", Builtin::If);
        scope.register("and", Builtin::And);
        scope.register("or", Builtin::Or);
        scope.register("not", Builtin::Not);
        scope.register("parse-num", Builtin::ParseNum);
        scope
    }
}

} // verus!
