//! The parser: from tokens to a forest of located nodes.

pub mod error;
pub mod forest;
pub mod laws;
pub mod node;

pub use error::{Error, ErrorKind, ErrorView, Fault};
pub use node::{Node, NodeKind, Shape, Tree};

use crate::host::{reads_numbers, Host};
use crate::lexer::scan::lemma_scan;
use crate::lexer::stream::{
    lemma_may_read, lemma_reach_on, lemma_reads, lex, may_reach, may_read, outcome,
};
use crate::lexer::{ErrorView as LexerErrorView, Lexer, TokenKind, TokenView};
use crate::span::Source;
use forest::{
    build, finish, initial, is_container, lemma_build_runs, lemma_run_push, parsed_forest, run,
    step, State,
};
use node::{lemma_trees, lemma_trees_push, trees};
use std::sync::Arc;
use vstd::prelude::*;

verus! {

/// A parser over one text.
pub struct Parser {
    lexer: Lexer,
}

/// What `parse` returned, with texts and children as sequences.
pub open spec fn forest(r: Result<Vec<Node>, Error>) -> Result<Seq<Tree>, ErrorView> {
    match r {
        Ok(nodes) => Ok(trees(nodes@)),
        Err(e) => Err(e@),
    }
}

/// `result` is what building a forest gives over tokens that the lexer may
/// have read from `pos` on: all the tokens up to the end of the text or to
/// an error of the lexer, `end`, or the tokens up to and with the first
/// that the parser rejects.
pub open spec fn parses<H: Host>(
    host: &H,
    origin: Arc<Source>,
    text: Seq<char>,
    pos: int,
    tokens: Seq<TokenView>,
    to: int,
    end: Option<LexerErrorView>,
    result: Result<Seq<Tree>, ErrorView>,
) -> bool {
    &&& may_reach(host, origin, text, pos, tokens, to)
    &&& result == build(initial(origin, text, pos), tokens, end)
    &&& run(initial(origin, text, pos), tokens) is Err || may_read(
        host,
        origin,
        text,
        to,
        match end {
            Some(e) => Err(e),
            None => Ok(None),
        },
    )
}

impl Parser {
    /// The text that the parser reads.
    pub closed spec fn text(&self) -> Seq<char> {
        self.lexer.text()
    }

    /// The index of the character at which the parser stands.
    pub closed spec fn position(&self) -> int {
        self.lexer.position()
    }

    /// The source that the spans of the nodes point into.
    pub closed spec fn origin(&self) -> Arc<Source> {
        self.lexer.origin()
    }

    /// A parser at the start of `input`.
    pub fn new(input: &str) -> (r: Self)
        ensures
            r.text() == input@,
            r.position() == 0,
            r.origin().text() == input@,
            r.origin().label() == None::<Seq<char>>,
    {
        Self { lexer: Lexer::new(input) }
    }

    /// Gives the source a name.
    pub fn set_name(&mut self, name: String)
        ensures
            final(self).text() == old(self).text(),
            final(self).position() == old(self).position(),
            final(self).origin().text() == old(self).text(),
            final(self).origin().label() == Some(name@),
    {
        self.lexer.set_name(name);
    }

    /// The source that the spans of the nodes point into.
    pub fn source(&self) -> (r: Arc<Source>)
        ensures
            r == self.origin(),
    {
        self.lexer.source()
    }

    /// Reads the rest of the text as a forest: the top-level nodes in order.
    /// Stops at the first error.
    ///
    /// The result is what building gives over the tokens that the lexer
    /// read. Where the host reads a numeral always the same way, those are
    /// a function of the text, and so is the result.
    pub fn parse<H: Host>(&mut self, host: &H) -> (r: Result<Vec<Node>, Error>)
        ensures
            final(self).text() == old(self).text(),
            final(self).origin() == old(self).origin(),
            exists|tokens: Seq<TokenView>, to: int, end: Option<LexerErrorView>| #[trigger]
                parses(
                    host,
                    old(self).origin(),
                    old(self).text(),
                    old(self).position(),
                    tokens,
                    to,
                    end,
                    forest(r),
                ),
            reads_numbers(host) ==> forest(r) == parsed_forest(
                host,
                old(self).origin(),
                old(self).text(),
                old(self).position(),
            ),
            !(r matches Err(e) && e.kind is Unreachable),
    {
        let ghost text = self.lexer.text();
        let ghost origin = self.lexer.origin();
        let ghost start = self.lexer.position();
        let ghost begin = initial(origin, text, start);
        let ghost goal = parsed_forest(host, origin, text, start);
        let ghost mut seen: Seq<TokenView> = Seq::empty();
        let mut parents: Vec<Node> = Vec::new();
        let mut cur_node = Node::new(NodeKind::List(Vec::new()), self.lexer.span());
        assert(trees(parents@) =~= Seq::<Tree>::empty()) by {
            lemma_trees(parents@);
        }
        assert(cur_node@.kind == Shape::List(Seq::<Tree>::empty())) by {
            lemma_trees(Seq::<Node>::empty());
            assert(trees(Seq::<Node>::empty()) =~= Seq::<Tree>::empty());
        }
        loop
            invariant_except_break
                may_reach(host, origin, text, start, seen, self.lexer.position()),
            invariant
                text == old(self).text(),
                origin == old(self).origin(),
                start == old(self).position(),
                begin == initial(origin, text, start),
                goal == parsed_forest(host, origin, text, start),
                self.lexer.text() == text,
                self.lexer.origin() == origin,
                0 <= self.lexer.position() <= text.len(),
                if parents@.len() == 0 {
                    cur_node@.kind is List
                } else {
                    parents@[0]@.kind is List
                },
                cur_node.span.source == origin,
                forall|i: int|
                    0 <= i < parents@.len() ==> (#[trigger] parents@[i]).span.source == origin,
                is_container(cur_node@),
                forall|i: int| 0 <= i < parents@.len() ==> is_container(#[trigger] parents@[i]@),
                run(begin, seen) == Ok::<State, ErrorView>(
                    State { parents: trees(parents@), current: cur_node@ },
                ),
                reads_numbers(host) ==> build(
                    State { parents: trees(parents@), current: cur_node@ },
                    lex(host, origin, text, self.lexer.position()).tokens,
                    lex(host, origin, text, self.lexer.position()).error,
                ) == goal,
            ensures
                exists|to: int| #[trigger]
                    parses(
                        host,
                        origin,
                        text,
                        start,
                        seen,
                        to,
                        None,
                        finish(State { parents: trees(parents@), current: cur_node@ }),
                    ),
                reads_numbers(host) ==> finish(State { parents: trees(parents@), current: cur_node@ })
                    == goal,
                parents@.len() == 0 ==> cur_node@.kind is List,
            decreases text.len() - self.lexer.position(),
        {
            let ghost pos = self.lexer.position();
            let ghost before = State { parents: trees(parents@), current: cur_node@ };
            let read = self.lexer.read(host);
            proof {
                lemma_scan(text, pos);
                lemma_trees(parents@);
                lemma_may_read(host, origin, text, pos, read);
                lemma_build_runs(begin, seen, outcome(read).err());
                if reads_numbers(host) {
                    lemma_reads(host, origin, text, pos, read);
                }
            }
            let token = match read {
                Ok(Some(token)) => token,
                Ok(None) => {
                    assert(parses(host, origin, text, start, seen, pos, None, finish(before)));
                    break ;
                },
                Err(e) => {
                    let wrapped = Error::from(e);
                    assert(parses(
                        host,
                        origin,
                        text,
                        start,
                        seen,
                        pos,
                        Some(e@),
                        Err(wrapped@),
                    ));
                    return Err(wrapped);
                },
            };
            let ghost rest = lex(host, origin, text, self.lexer.position());
            let ghost stepped = step(before, token@);
            let ghost seen_now = seen.push(token@);
            proof {
                lemma_reach_on(host, origin, text, start, seen, pos, token@);
                lemma_run_push(begin, seen, token@);
                lemma_build_runs(begin, seen_now, None);
                if reads_numbers(host) {
                    assert((seq![token@] + rest.tokens).drop_first() =~= rest.tokens);
                    assert(build(before, seq![token@] + rest.tokens, rest.error) == match stepped {
                        Ok(next) => build(next, rest.tokens, rest.error),
                        Err(e) => Err(e),
                    });
                }
                // where the step is an error, that error is the result
                assert(stepped matches Err(e) ==> parses(
                    host,
                    origin,
                    text,
                    start,
                    seen_now,
                    self.lexer.position(),
                    None,
                    Err(e),
                ));
            }
            match token.kind {
                TokenKind::Comment(_) => {},
                TokenKind::OpenParen => {
                    let child = Node::new(NodeKind::List(Vec::new()), token.span);
                    proof {
                        lemma_trees_push(parents@, cur_node);
                        lemma_trees(Seq::<Node>::empty());
                        assert(trees(Seq::<Node>::empty()) =~= Seq::<Tree>::empty());
                    }
                    parents.push(cur_node);
                    cur_node = child;
                },
                TokenKind::OpenBracket => {
                    let child = Node::new(NodeKind::Vector(Vec::new()), token.span);
                    proof {
                        lemma_trees_push(parents@, cur_node);
                        lemma_trees(Seq::<Node>::empty());
                        assert(trees(Seq::<Node>::empty()) =~= Seq::<Tree>::empty());
                    }
                    parents.push(cur_node);
                    cur_node = child;
                },
                TokenKind::CloseParen => {
                    let ghost all = parents@;
                    let mut parent = match parents.pop() {
                        Some(parent) => parent,
                        None => {
                            return Err(Error::new(ErrorKind::UnexpectedCloseBracket, token.span));
                        },
                    };
                    proof {
                        lemma_trees(all);
                        lemma_trees(parents@);
                        assert(trees(parents@) =~= trees(all).drop_last());
                    }
                    cur_node.span.extend(&token.span);
                    match &cur_node.kind {
                        NodeKind::List(_) => {},
                        _ => {
                            return Err(Error::new(ErrorKind::UnmatchedBracket, token.span));
                        },
                    }
                    match parent.push_node(cur_node) {
                        Ok(()) => {},
                        Err(e) => {
                            return Err(e);
                        },
                    }
                    cur_node = parent;
                },
                TokenKind::CloseBracket => {
                    let ghost all = parents@;
                    let mut parent = match parents.pop() {
                        Some(parent) => parent,
                        None => {
                            return Err(Error::new(ErrorKind::UnexpectedCloseBracket, token.span));
                        },
                    };
                    proof {
                        lemma_trees(all);
                        lemma_trees(parents@);
                        assert(trees(parents@) =~= trees(all).drop_last());
                    }
                    cur_node.span.extend(&token.span);
                    match &cur_node.kind {
                        NodeKind::Vector(_) => {},
                        _ => {
                            return Err(Error::new(ErrorKind::UnmatchedBracket, token.span));
                        },
                    }
                    match parent.push_node(cur_node) {
                        Ok(()) => {},
                        Err(e) => {
                            return Err(e);
                        },
                    }
                    cur_node = parent;
                },
                _ => {
                    let leaf = match Node::try_from(token) {
                        Ok(leaf) => leaf,
                        Err(e) => {
                            return Err(e);
                        },
                    };
                    match cur_node.push_node(leaf) {
                        Ok(()) => {},
                        Err(e) => {
                            return Err(e);
                        },
                    }
                },
            }
            proof {
                seen = seen_now;
                assert(stepped == Ok::<State, ErrorView>(
                    State { parents: trees(parents@), current: cur_node@ },
                ));
            }
        }
        proof {
            lemma_trees(parents@);
        }
        if parents.len() > 0 {
            return Err(Error::new(ErrorKind::UnclosedBracket, cur_node.span));
        }
        match cur_node.kind {
            NodeKind::List(body) => Ok(body),
            _ => Err(Error::new(ErrorKind::Unreachable, cur_node.span)),
        }
    }
}

} // verus!
