use super::error::{Error, ErrorKind, ErrorView, Fault};
use crate::lexer::{Lexeme, Symbol, Token, TokenKind};
use crate::span::Span;
use vstd::prelude::*;

verus! {

broadcast use vstd::std_specs::vec::group_vec_axioms;

/// What a node is.
#[derive(Debug, PartialEq)]
pub enum NodeKind {
    /// A number, as the bit pattern of a 64-bit binary floating-point number.
    Number(u64),
    Bool(bool),
    String(String),
    Char(char),
    Symbol(Symbol),
    Keyword(Symbol),
    /// What stands between `(` and `)`.
    List(Vec<Node>),
    /// What stands between `[` and `]`.
    Vector(Vec<Node>),
    Nil,
}

/// A node of the syntax tree and the bytes of the source that it covers.
#[derive(Debug, PartialEq)]
pub struct Node {
    pub kind: NodeKind,
    pub span: Span,
}

/// A node kind with its texts and children as sequences.
pub enum Shape {
    Number(u64),
    Bool(bool),
    String(Seq<char>),
    Char(char),
    Symbol(Seq<char>),
    Keyword(Seq<char>),
    List(Seq<Tree>),
    Vector(Seq<Tree>),
    Nil,
}

/// A node with its texts and children as sequences.
pub struct Tree {
    pub kind: Shape,
    pub span: Span,
}

/// The trees of a sequence of nodes.
pub open spec fn trees(nodes: Seq<Node>) -> Seq<Tree>
    decreases nodes,
{
    if nodes.len() == 0 {
        Seq::empty()
    } else {
        trees(nodes.drop_last()).push(nodes.last()@)
    }
}

impl View for NodeKind {
    type V = Shape;

    open spec fn view(&self) -> Shape
        decreases self,
    {
        match self {
            NodeKind::Number(n) => Shape::Number(*n),
            NodeKind::Bool(b) => Shape::Bool(*b),
            NodeKind::String(s) => Shape::String(s@),
            NodeKind::Char(c) => Shape::Char(*c),
            NodeKind::Symbol(s) => Shape::Symbol(s@),
            NodeKind::Keyword(s) => Shape::Keyword(s@),
            NodeKind::List(v) => Shape::List(trees(v@)),
            NodeKind::Vector(v) => Shape::Vector(trees(v@)),
            NodeKind::Nil => Shape::Nil,
        }
    }
}

impl View for Node {
    type V = Tree;

    open spec fn view(&self) -> Tree
        decreases self,
    {
        Tree { kind: self.kind@, span: self.span }
    }
}

/// The trees of nodes are the trees of each, in order.
pub proof fn lemma_trees(nodes: Seq<Node>)
    ensures
        trees(nodes).len() == nodes.len(),
        forall|i: int| 0 <= i < nodes.len() ==> (#[trigger] trees(nodes)[i]) == nodes[i]@,
    decreases nodes.len(),
{
    reveal_with_fuel(trees, 2);
    if nodes.len() > 0 {
        lemma_trees(nodes.drop_last());
        assert(trees(nodes) == trees(nodes.drop_last()).push(nodes.last()@));
    } else {
        assert(trees(nodes) == Seq::<Tree>::empty());
    }
}

/// The trees of one more node are one more tree.
pub proof fn lemma_trees_push(nodes: Seq<Node>, node: Node)
    ensures
        trees(nodes.push(node)) == trees(nodes).push(node@),
{
    reveal_with_fuel(trees, 2);
    assert(nodes.push(node).drop_last() =~= nodes);
}

/// The leaf that a token stands for; none for brackets and comments.
pub open spec fn leaf(kind: Lexeme) -> Option<Shape> {
    match kind {
        Lexeme::Number(n) => Some(Shape::Number(n)),
        Lexeme::Bool(b) => Some(Shape::Bool(b)),
        Lexeme::Symbol(s) => Some(Shape::Symbol(s)),
        Lexeme::String(s) => Some(Shape::String(s)),
        Lexeme::Char(c) => Some(Shape::Char(c)),
        Lexeme::Keyword(k) => Some(Shape::Keyword(k)),
        Lexeme::Nil => Some(Shape::Nil),
        _ => None,
    }
}

/// `tree` with `child` as one more, last, child; none where `tree` is
/// neither a list nor a vector.
pub open spec fn with_child(tree: Tree, child: Tree) -> Option<Tree> {
    match tree.kind {
        Shape::List(c) => Some(Tree { kind: Shape::List(c.push(child)), span: tree.span }),
        Shape::Vector(c) => Some(Tree { kind: Shape::Vector(c.push(child)), span: tree.span }),
        _ => None,
    }
}

/// Copies of the nodes, in order.
fn clone_nodes(nodes: &Vec<Node>) -> (r: Vec<Node>)
    ensures
        trees(r@) == trees(nodes@),
        r@.len() == nodes@.len(),
    decreases nodes,
{
    let mut out: Vec<Node> = Vec::new();
    let mut i: usize = 0;
    while i < nodes.len()
        invariant
            i <= nodes.len(),
            out@.len() == i,
            trees(out@) == trees(nodes@.take(i as int)),
        decreases nodes.len() - i,
    {
        let copy = nodes[i].clone();
        proof {
            lemma_trees_push(out@, copy);
            lemma_trees_push(nodes@.take(i as int), nodes@[i as int]);
            assert(nodes@.take(i + 1) =~= nodes@.take(i as int).push(nodes@[i as int]));
        }
        out.push(copy);
        i += 1;
    }
    assert(nodes@.take(i as int) =~= nodes@);
    out
}

impl Clone for NodeKind {
    fn clone(&self) -> (r: Self)
        ensures
            r@ == self@,
        decreases self,
    {
        match self {
            NodeKind::Number(n) => NodeKind::Number(*n),
            NodeKind::Bool(b) => NodeKind::Bool(*b),
            NodeKind::String(s) => NodeKind::String(s.clone()),
            NodeKind::Char(c) => NodeKind::Char(*c),
            NodeKind::Symbol(s) => NodeKind::Symbol(s.clone()),
            NodeKind::Keyword(s) => NodeKind::Keyword(s.clone()),
            NodeKind::List(v) => NodeKind::List(clone_nodes(v)),
            NodeKind::Vector(v) => NodeKind::Vector(clone_nodes(v)),
            NodeKind::Nil => NodeKind::Nil,
        }
    }
}

impl Clone for Node {
    fn clone(&self) -> (r: Self)
        ensures
            r@ == self@,
        decreases self,
    {
        Node { kind: self.kind.clone(), span: self.span.clone() }
    }
}

impl Node {
    /// A node of the kind `kind` that covers the bytes `span`.
    pub fn new(kind: NodeKind, span: Span) -> (r: Self)
        ensures
            r.kind == kind,
            r.span == span,
    {
        Self { kind, span }
    }

    /// Appends a child to a list or a vector. On any other node this is an
    /// error, and the node stays as it is.
    pub fn push_node(&mut self, child: Self) -> (r: Result<(), Error>)
        ensures
            match with_child(old(self)@, child@) {
                Some(tree) => r is Ok && final(self)@ == tree,
                None => final(self)@ == old(self)@ && (r matches Err(e) && e@ == (ErrorView {
                    kind: Fault::Unreachable,
                    span: child.span,
                })),
            },
    {
        match &mut self.kind {
            NodeKind::List(c) => {
                proof {
                    lemma_trees_push(c@, child);
                }
                c.push(child);
                Ok(())
            },
            NodeKind::Vector(c) => {
                proof {
                    lemma_trees_push(c@, child);
                }
                c.push(child);
                Ok(())
            },
            _ => Err(Error::new(ErrorKind::Unreachable, child.span)),
        }
    }

    /// The leaf that a token stands for. Brackets and comments stand for
    /// none.
    pub fn try_from(token: Token) -> (r: Result<Self, Error>)
        ensures
            match leaf(token.kind@) {
                Some(shape) => r matches Ok(node) && node@ == (Tree {
                    kind: shape,
                    span: token.span,
                }),
                None => r matches Err(e) && e@ == (ErrorView {
                    kind: Fault::Unreachable,
                    span: token.span,
                }),
            },
    {
        let kind = match token.kind {
            TokenKind::Number(n) => NodeKind::Number(n),
            TokenKind::Bool(b) => NodeKind::Bool(b),
            TokenKind::Symbol(s) => NodeKind::Symbol(s),
            TokenKind::String(s) => NodeKind::String(s),
            TokenKind::Char(c) => NodeKind::Char(c),
            TokenKind::Keyword(k) => NodeKind::Keyword(k),
            TokenKind::Nil => NodeKind::Nil,
            _ => {
                return Err(Error::new(ErrorKind::Unreachable, token.span));
            },
        };
        Ok(Self::new(kind, token.span))
    }
}

} // verus!
