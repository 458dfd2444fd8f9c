//! Nodes as values, and values compared.

use super::expr::{lemma_values, values, Expr, Value};
use crate::number::{equal as number_equal, same_number};
use crate::parser::node::{lemma_trees, trees};
use crate::parser::{Node, NodeKind, Shape, Tree};
use vstd::prelude::*;

verus! {

broadcast use vstd::std_specs::vec::group_vec_axioms;

/// The value that a node is when it is not evaluated: itself. The empty
/// list is nil.
pub open spec fn literal(tree: Tree) -> Value
    decreases tree,
{
    match tree.kind {
        Shape::Number(n) => Value::Number(n),
        Shape::Bool(b) => Value::Bool(b),
        Shape::String(s) => Value::String(s),
        Shape::Char(c) => Value::Char(c),
        Shape::Symbol(s) => Value::Symbol(s),
        Shape::Keyword(s) => Value::Keyword(s),
        Shape::List(l) => if l.len() == 0 {
            Value::Nil
        } else {
            Value::List(literals(l))
        },
        Shape::Vector(v) => Value::Vector(literals(v)),
        Shape::Nil => Value::Nil,
    }
}

/// The values that nodes are when they are not evaluated.
pub open spec fn literals(trees: Seq<Tree>) -> Seq<Value>
    decreases trees,
{
    if trees.len() == 0 {
        Seq::empty()
    } else {
        literals(trees.drop_last()).push(literal(trees.last()))
    }
}

/// The literals of trees are the literals of each, in order.
pub proof fn lemma_literals(trees: Seq<Tree>)
    ensures
        literals(trees).len() == trees.len(),
        forall|i: int| 0 <= i < trees.len() ==> (#[trigger] literals(trees)[i]) == literal(trees[i]),
    decreases trees.len(),
{
    reveal_with_fuel(literals, 2);
    if trees.len() > 0 {
        lemma_literals(trees.drop_last());
        assert(literals(trees) == literals(trees.drop_last()).push(literal(trees.last())));
    } else {
        assert(literals(trees) == Seq::<Value>::empty());
    }
}

/// The nodes as values, in order.
fn quote_all(nodes: &Vec<Node>) -> (r: Vec<Expr>)
    ensures
        values(r@) == literals(trees(nodes@)),
        r@.len() == nodes@.len(),
    decreases nodes,
{
    let mut out: Vec<Expr> = Vec::new();
    let mut i: usize = 0;
    proof {
        lemma_trees(nodes@);
        lemma_literals(trees(nodes@));
    }
    while i < nodes.len()
        invariant
            i <= nodes.len(),
            out@.len() == i,
            trees(nodes@).len() == nodes@.len(),
            forall|j: int| 0 <= j < nodes@.len() ==> (#[trigger] trees(nodes@)[j]) == nodes@[j]@,
            forall|j: int| 0 <= j < i ==> (#[trigger] out@[j])@ == literal(nodes@[j]@),
        decreases nodes.len() - i,
    {
        let value = quote(&nodes[i]);
        out.push(value);
        i += 1;
    }
    proof {
        lemma_values(out@);
        assert(values(out@) =~= literals(trees(nodes@)));
    }
    out
}

/// The node as a value, without evaluating anything.
pub fn quote(ast: &Node) -> (r: Expr)
    ensures
        r@ == literal(ast@),
    decreases ast,
{
    match &ast.kind {
        NodeKind::Number(n) => Expr::Number(*n),
        NodeKind::Bool(b) => Expr::Bool(*b),
        NodeKind::String(s) => Expr::String(s.clone()),
        NodeKind::Char(c) => Expr::Char(*c),
        NodeKind::Symbol(s) => Expr::Symbol(s.clone()),
        NodeKind::Keyword(s) => Expr::Keyword(s.0.clone()),
        NodeKind::List(l) => {
            proof {
                lemma_trees(l@);
            }
            if l.len() == 0 {
                Expr::Nil
            } else {
                Expr::List(quote_all(l))
            }
        },
        NodeKind::Vector(v) => Expr::Vector(quote_all(v)),
        NodeKind::Nil => Expr::Nil,
    }
}

/// Whether two values are equal. Numbers are equal as numbers; lists and
/// vectors where their elements are; a function equals nothing, not even
/// itself.
pub open spec fn equal(a: Value, b: Value) -> bool
    decreases a,
{
    match (a, b) {
        (Value::Number(x), Value::Number(y)) => same_number(x, y),
        (Value::Bool(x), Value::Bool(y)) => x == y,
        (Value::String(x), Value::String(y)) => x == y,
        (Value::Display(x), Value::Display(y)) => x == y,
        (Value::Char(x), Value::Char(y)) => x == y,
        (Value::Symbol(x), Value::Symbol(y)) => x == y,
        (Value::Keyword(x), Value::Keyword(y)) => x == y,
        (Value::List(x), Value::List(y)) => all_equal(x, y),
        (Value::Vector(x), Value::Vector(y)) => all_equal(x, y),
        (Value::Nil, Value::Nil) => true,
        _ => false,
    }
}

/// Whether two sequences are as long as each other and hold equal values
/// at each place.
pub open spec fn all_equal(a: Seq<Value>, b: Seq<Value>) -> bool
    decreases a,
{
    a.len() == b.len() && (a.len() == 0 || (all_equal(a.drop_last(), b.drop_last()) && equal(
        a.last(),
        b.last(),
    )))
}

/// Two sequences are equal throughout where they are as long as each other
/// and equal at each place.
pub proof fn lemma_all_equal(a: Seq<Value>, b: Seq<Value>)
    ensures
        all_equal(a, b) <==> (a.len() == b.len() && forall|i: int|
            0 <= i < a.len() ==> equal(#[trigger] a[i], b[i])),
    decreases a.len(),
{
    reveal_with_fuel(all_equal, 2);
    if a.len() > 0 && a.len() == b.len() {
        lemma_all_equal(a.drop_last(), b.drop_last());
        if all_equal(a, b) {
            assert forall|i: int| 0 <= i < a.len() implies equal(#[trigger] a[i], b[i]) by {
                if i < a.len() - 1 {
                    assert(a.drop_last()[i] == a[i]);
                    assert(b.drop_last()[i] == b[i]);
                }
            }
        }
        if forall|i: int| 0 <= i < a.len() ==> equal(#[trigger] a[i], b[i]) {
            assert forall|i: int| 0 <= i < a.drop_last().len() implies equal(
                #[trigger] a.drop_last()[i],
                b.drop_last()[i],
            ) by {
                assert(a.drop_last()[i] == a[i]);
                assert(b.drop_last()[i] == b[i]);
            }
        }
    }
}

/// Whether the two sequences hold equal values at each place.
fn equal_all(a: &Vec<Expr>, b: &Vec<Expr>) -> (r: bool)
    ensures
        r == all_equal(values(a@), values(b@)),
    decreases a,
{
    proof {
        lemma_values(a@);
        lemma_values(b@);
        lemma_all_equal(values(a@), values(b@));
    }
    if a.len() != b.len() {
        return false;
    }
    let mut i: usize = 0;
    while i < a.len()
        invariant
            i <= a.len(),
            a.len() == b.len(),
            values(a@).len() == a@.len(),
            values(b@).len() == b@.len(),
            forall|j: int| 0 <= j < a@.len() ==> (#[trigger] values(a@)[j]) == a@[j]@,
            forall|j: int| 0 <= j < b@.len() ==> (#[trigger] values(b@)[j]) == b@[j]@,
            forall|j: int| 0 <= j < i ==> equal(#[trigger] values(a@)[j], values(b@)[j]),
        decreases a.len() - i,
    {
        if !a[i].equals(&b[i]) {
            proof {
                lemma_all_equal(values(a@), values(b@));
                assert(!equal(values(a@)[i as int], values(b@)[i as int]));
            }
            return false;
        }
        i += 1;
    }
    proof {
        lemma_all_equal(values(a@), values(b@));
    }
    true
}

/// `==` on values is [`Expr::equals`].
impl PartialEq for Expr {
    fn eq(&self, other: &Self) -> (r: bool) {
        self.equals(other)
    }
}

impl vstd::std_specs::cmp::PartialEqSpecImpl for Expr {
    open spec fn obeys_eq_spec() -> bool {
        true
    }

    open spec fn eq_spec(&self, other: &Self) -> bool {
        equal(self@, other@)
    }
}

impl Expr {
    /// Whether `self` and `other` are equal values.
    pub fn equals(&self, other: &Expr) -> (r: bool)
        ensures
            r == equal(self@, other@),
        decreases self,
    {
        match (self, other) {
            (Expr::Number(x), Expr::Number(y)) => number_equal(*x, *y),
            (Expr::Bool(x), Expr::Bool(y)) => *x == *y,
            (Expr::String(x), Expr::String(y)) => *x == *y,
            (Expr::Display(x), Expr::Display(y)) => *x == *y,
            (Expr::Char(x), Expr::Char(y)) => *x == *y,
            (Expr::Symbol(x), Expr::Symbol(y)) => x.0 == y.0,
            (Expr::Keyword(x), Expr::Keyword(y)) => *x == *y,
            (Expr::List(x), Expr::List(y)) => equal_all(x, y),
            (Expr::Vector(x), Expr::Vector(y)) => equal_all(x, y),
            (Expr::Nil, Expr::Nil) => true,
            _ => false,
        }
    }
}

} // verus!
