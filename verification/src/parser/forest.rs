//! How a forest is built from tokens, as a function of the tokens.

use super::error::{wrap, ErrorView, Fault};
use super::node::{leaf, with_child, Shape, Tree};
use crate::host::Host;
use crate::lexer::scan::span_at;
use crate::lexer::stream::lex;
use crate::lexer::{ErrorView as LexerErrorView, Lexeme, TokenView};
use crate::span::{Source, Span};
use std::ops::Range;
use std::sync::Arc;
use vstd::prelude::*;

verus! {

/// The parser between two tokens: the list or vector that is being filled,
/// and those around it that are still open, the outermost first.
pub struct State {
    pub parents: Seq<Tree>,
    pub current: Tree,
}

/// `span` with its end moved to the end of `other`.
pub open spec fn extended(span: Span, other: Span) -> Span {
    Span { bytes: Range { start: span.bytes.start, end: other.bytes.end }, source: span.source }
}

/// A list or a vector.
pub open spec fn is_container(tree: Tree) -> bool {
    tree.kind is List || tree.kind is Vector
}

/// The state after an opening bracket: a new, empty node is being filled.
pub open spec fn opened(state: State, kind: Shape, token: TokenView) -> State {
    State {
        parents: state.parents.push(state.current),
        current: Tree { kind, span: token.span },
    }
}

/// The state after a closing bracket, which closes a list where `list`
/// holds and a vector where not.
pub open spec fn closed(state: State, token: TokenView, list: bool) -> Result<State, ErrorView> {
    if state.parents.len() == 0 {
        Err(ErrorView { kind: Fault::UnexpectedCloseBracket, span: token.span })
    } else if (list && !(state.current.kind is List)) || (!list && !(state.current.kind
        is Vector)) {
        Err(ErrorView { kind: Fault::UnmatchedBracket, span: token.span })
    } else {
        let done = Tree {
            kind: state.current.kind,
            span: extended(state.current.span, token.span),
        };
        match with_child(state.parents.last(), done) {
            Some(parent) => Ok(State { parents: state.parents.drop_last(), current: parent }),
            None => Err(ErrorView { kind: Fault::Unreachable, span: done.span }),
        }
    }
}

/// The state after one more token.
pub open spec fn step(state: State, token: TokenView) -> Result<State, ErrorView> {
    match token.kind {
        Lexeme::Comment(_) => Ok(state),
        Lexeme::OpenParen => Ok(opened(state, Shape::List(Seq::empty()), token)),
        Lexeme::OpenBracket => Ok(opened(state, Shape::Vector(Seq::empty()), token)),
        Lexeme::CloseParen => closed(state, token, true),
        Lexeme::CloseBracket => closed(state, token, false),
        _ => match leaf(token.kind) {
            Some(shape) => match with_child(state.current, Tree { kind: shape, span: token.span }) {
                Some(current) => Ok(State { parents: state.parents, current }),
                None => Err(ErrorView { kind: Fault::Unreachable, span: token.span }),
            },
            None => Err(ErrorView { kind: Fault::Unreachable, span: token.span }),
        },
    }
}

/// The result at the end of the text.
pub open spec fn finish(state: State) -> Result<Seq<Tree>, ErrorView> {
    if state.parents.len() > 0 {
        Err(ErrorView { kind: Fault::UnclosedBracket, span: state.current.span })
    } else {
        match state.current.kind {
            Shape::List(body) => Ok(body),
            _ => Err(ErrorView { kind: Fault::Unreachable, span: state.current.span }),
        }
    }
}

/// The result of going on from `state` with `tokens`, after which the
/// lexer stopped with `error`, or at the end of the text.
pub open spec fn build(state: State, tokens: Seq<TokenView>, error: Option<LexerErrorView>) -> Result<
    Seq<Tree>,
    ErrorView,
>
    decreases tokens.len(),
{
    if tokens.len() == 0 {
        match error {
            Some(e) => Err(wrap(e)),
            None => finish(state),
        }
    } else {
        match step(state, tokens[0]) {
            Ok(next) => build(next, tokens.drop_first(), error),
            Err(e) => Err(e),
        }
    }
}

/// The state after `tokens`, or the first error.
pub open spec fn run(state: State, tokens: Seq<TokenView>) -> Result<State, ErrorView>
    decreases tokens.len(),
{
    if tokens.len() == 0 {
        Ok(state)
    } else {
        match step(state, tokens[0]) {
            Ok(next) => run(next, tokens.drop_first()),
            Err(e) => Err(e),
        }
    }
}

/// Building is running, and then ending.
pub proof fn lemma_build_runs(state: State, tokens: Seq<TokenView>, error: Option<LexerErrorView>)
    ensures
        build(state, tokens, error) == match run(state, tokens) {
            Ok(end) => match error {
                Some(e) => Err(wrap(e)),
                None => finish(end),
            },
            Err(e) => Err(e),
        },
    decreases tokens.len(),
{
    if tokens.len() > 0 {
        match step(state, tokens[0]) {
            Ok(next) => lemma_build_runs(next, tokens.drop_first(), error),
            Err(e) => {},
        }
    }
}

/// Running over two runs of tokens is running over the first and then over
/// the second.
pub proof fn lemma_run_append(state: State, a: Seq<TokenView>, b: Seq<TokenView>)
    ensures
        run(state, a + b) == match run(state, a) {
            Ok(mid) => run(mid, b),
            Err(e) => Err(e),
        },
    decreases a.len(),
{
    if a.len() == 0 {
        assert(a + b =~= b);
    } else {
        assert((a + b)[0] == a[0]);
        assert((a + b).drop_first() =~= a.drop_first() + b);
        match step(state, a[0]) {
            Ok(next) => lemma_run_append(next, a.drop_first(), b),
            Err(e) => {},
        }
    }
}

/// Running over one more token is running, and then one step.
pub proof fn lemma_run_push(state: State, tokens: Seq<TokenView>, token: TokenView)
    ensures
        run(state, tokens.push(token)) == match run(state, tokens) {
            Ok(mid) => step(mid, token),
            Err(e) => Err(e),
        },
{
    lemma_run_append(state, tokens, seq![token]);
    assert(tokens.push(token) =~= tokens + seq![token]);
    assert forall|mid: State| run(mid, seq![token]) == step(mid, token) by {
        reveal_with_fuel(run, 3);
        assert(seq![token].len() == 1 && seq![token][0] == token);
        assert(seq![token].drop_first() =~= Seq::<TokenView>::empty());
    }
}

/// The state in which parsing begins: an empty list, which covers `span`,
/// is being filled, and nothing is open.
pub open spec fn begun(span: Span) -> State {
    State { parents: Seq::empty(), current: Tree { kind: Shape::List(Seq::empty()), span } }
}

/// The state in which parsing begins at `pos`.
pub open spec fn initial(origin: Arc<Source>, text: Seq<char>, pos: int) -> State {
    begun(span_at(origin, text, pos, pos))
}

/// The forest that `text` from `pos` on is read as, or the first error.
pub open spec fn parsed_forest<H: Host>(
    host: &H,
    origin: Arc<Source>,
    text: Seq<char>,
    pos: int,
) -> Result<Seq<Tree>, ErrorView> {
    let lexed = lex(host, origin, text, pos);
    build(initial(origin, text, pos), lexed.tokens, lexed.error)
}

} // verus!
