//! What holds of every text: how the brackets of a text decide the result
//! of parsing it.

use super::error::{wrap, ErrorView, Fault};
use super::forest::{
    begun, build, closed, extended, is_container, lemma_build_runs, lemma_run_append, opened, run,
    step, State,
};
use super::node::{leaf, with_child, Shape, Tree};
use crate::lexer::{ErrorView as LexerErrorView, Lexeme, TokenView};
use crate::span::Span;
use vstd::prelude::*;

verus! {

/// The open brackets after one more token, the innermost last: `true` for
/// `(`, `false` for `[`. None where the token closes a bracket that is not
/// the innermost open one.
pub open spec fn after_token(stack: Seq<bool>, token: TokenView) -> Option<Seq<bool>> {
    match token.kind {
        Lexeme::OpenParen => Some(stack.push(true)),
        Lexeme::OpenBracket => Some(stack.push(false)),
        Lexeme::CloseParen => if stack.len() > 0 && stack.last() {
            Some(stack.drop_last())
        } else {
            None
        },
        Lexeme::CloseBracket => if stack.len() > 0 && !stack.last() {
            Some(stack.drop_last())
        } else {
            None
        },
        _ => Some(stack),
    }
}

/// The open brackets after `tokens`, where `stack` were open before them.
pub open spec fn track(stack: Seq<bool>, tokens: Seq<TokenView>) -> Option<Seq<bool>>
    decreases tokens.len(),
{
    if tokens.len() == 0 {
        Some(stack)
    } else {
        match after_token(stack, tokens[0]) {
            Some(next) => track(next, tokens.drop_first()),
            None => None,
        }
    }
}

/// Every bracket of `tokens` is closed by one of its kind, in order.
pub open spec fn balanced(tokens: Seq<TokenView>) -> bool {
    track(Seq::empty(), tokens) == Some(Seq::<bool>::empty())
}

/// The nodes that are open in a state, the outermost first.
pub open spec fn chain(state: State) -> Seq<Tree> {
    state.parents.push(state.current)
}

/// Two nodes that differ at most in their children.
pub open spec fn same_frame(a: Tree, b: Tree) -> bool {
    &&& a.span == b.span
    &&& a.kind is List <==> b.kind is List
    &&& a.kind is Vector <==> b.kind is Vector
}

/// The open nodes above the one at `base` are those that `stack` tells of,
/// and from `base` on all are lists or vectors.
pub open spec fn fits(state: State, base: int, stack: Seq<bool>) -> bool {
    &&& 0 <= base
    &&& chain(state).len() == base + 1 + stack.len()
    &&& forall|k: int| base <= k < chain(state).len() ==> is_container(#[trigger] chain(state)[k])
    &&& forall|j: int|
        0 <= j < stack.len() ==> (#[trigger] stack[j]) == (chain(state)[base + 1 + j].kind is List)
}

/// One token that the brackets admit takes a fitting state to a fitting
/// state, and leaves what is open at `base` and below as it is, but for
/// the children of the node at `base`.
pub proof fn lemma_step_fits(state: State, base: int, stack: Seq<bool>, token: TokenView)
    requires
        fits(state, base, stack),
        after_token(stack, token) is Some,
    ensures
        step(state, token) matches Ok(next) && fits(next, base, after_token(stack, token).unwrap())
            && chain(next).take(base) == chain(state).take(base) && same_frame(
            chain(next)[base],
            chain(state)[base],
        ),
{
    let c = chain(state);
    let n = c.len() as int;
    assert(c[n - 1] == state.current);
    assert(is_container(c[n - 1]));
    match token.kind {
        Lexeme::Comment(_) => {},
        Lexeme::OpenParen => {
            let next = opened(state, Shape::List(Seq::empty()), token);
            assert(chain(next) =~= c.push(next.current));
            assert(chain(next).take(base) =~= c.take(base));
            assert forall|k: int| base <= k < chain(next).len() implies is_container(
                #[trigger] chain(next)[k],
            ) by {
                if k < n {
                    assert(chain(next)[k] == c[k]);
                }
            }
        },
        Lexeme::OpenBracket => {
            let next = opened(state, Shape::Vector(Seq::empty()), token);
            assert(chain(next) =~= c.push(next.current));
            assert(chain(next).take(base) =~= c.take(base));
            assert forall|k: int| base <= k < chain(next).len() implies is_container(
                #[trigger] chain(next)[k],
            ) by {
                if k < n {
                    assert(chain(next)[k] == c[k]);
                }
            }
        },
        Lexeme::CloseParen => {
            lemma_close_fits(state, base, stack, token, true);
        },
        Lexeme::CloseBracket => {
            lemma_close_fits(state, base, stack, token, false);
        },
        _ => {
            let shape = leaf(token.kind).unwrap();
            let next = step(state, token)->Ok_0;
            assert(chain(next) =~= c.update(n - 1, next.current));
            assert(chain(next).take(base) =~= c.take(base));
            assert forall|k: int| base <= k < chain(next).len() implies is_container(
                #[trigger] chain(next)[k],
            ) by {
                if k < n - 1 {
                    assert(chain(next)[k] == c[k]);
                }
            }
        },
    }
}

/// A closing bracket of the kind of the innermost open one takes a fitting
/// state to a fitting state.
pub proof fn lemma_close_fits(
    state: State,
    base: int,
    stack: Seq<bool>,
    token: TokenView,
    list: bool,
)
    requires
        fits(state, base, stack),
        stack.len() > 0,
        stack.last() == list,
    ensures
        closed(state, token, list) matches Ok(next) && fits(next, base, stack.drop_last())
            && chain(next).take(base) == chain(state).take(base) && same_frame(
            chain(next)[base],
            chain(state)[base],
        ),
{
    let c = chain(state);
    let n = c.len() as int;
    assert(c[n - 1] == state.current);
    assert(c[n - 2] == state.parents.last());
    assert(stack[stack.len() - 1] == (c[base + 1 + (stack.len() - 1)].kind is List));
    assert(is_container(c[n - 1]));
    assert(is_container(c[n - 2]));
    let next = closed(state, token, list)->Ok_0;
    assert(chain(next) =~= c.drop_last().update(n - 2, next.current));
    assert(chain(next).take(base) =~= c.take(base));
    assert forall|k: int| base <= k < chain(next).len() implies is_container(
        #[trigger] chain(next)[k],
    ) by {
        if k < n - 2 {
            assert(chain(next)[k] == c[k]);
        }
    }
    assert forall|j: int| 0 <= j < stack.drop_last().len() implies (#[trigger] stack.drop_last()[j])
        == (chain(next)[base + 1 + j].kind is List) by {
        assert(stack.drop_last()[j] == stack[j]);
        if base + 1 + j == n - 2 {
            assert(chain(next)[n - 2] == next.current);
            assert(next.current.kind is List == c[n - 2].kind is List);
        } else {
            assert(chain(next)[base + 1 + j] == c[base + 1 + j]);
        }
    }
}

/// Tokens that the brackets admit take a fitting state to a fitting state.
pub proof fn lemma_run_fits(state: State, base: int, stack: Seq<bool>, tokens: Seq<TokenView>)
    requires
        fits(state, base, stack),
        track(stack, tokens) is Some,
    ensures
        run(state, tokens) matches Ok(end) && fits(end, base, track(stack, tokens).unwrap())
            && chain(end).take(base) == chain(state).take(base) && same_frame(
            chain(end)[base],
            chain(state)[base],
        ),
    decreases tokens.len(),
{
    if tokens.len() > 0 {
        lemma_step_fits(state, base, stack, tokens[0]);
        let next = step(state, tokens[0])->Ok_0;
        lemma_run_fits(next, base, after_token(stack, tokens[0]).unwrap(), tokens.drop_first());
    }
}

/// The state in which parsing begins fits no open bracket.
pub proof fn lemma_begun_fits(span: Span)
    ensures
        fits(begun(span), 0, Seq::empty()),
        chain(begun(span))[0].kind is List,
{
    assert(chain(begun(span))[0] == begun(span).current);
}

/// Tokens whose brackets are balanced, read to the end of a text, parse to
/// a forest.
pub proof fn law_balanced_parses(span: Span, tokens: Seq<TokenView>)
    requires
        balanced(tokens),
    ensures
        build(begun(span), tokens, None) is Ok,
{
    let init = begun(span);
    lemma_begun_fits(span);
    lemma_run_fits(init, 0, Seq::empty(), tokens);
    lemma_build_runs(init, tokens, None);
    let end = run(init, tokens)->Ok_0;
    assert(chain(end)[0] == end.current);
}

/// Tokens read to the end of a text, at which a bracket is still open, are
/// rejected as unclosed: never as anything else, and never accepted.
pub proof fn law_open_at_end_is_unclosed(span: Span, tokens: Seq<TokenView>)
    requires
        track(Seq::empty(), tokens) matches Some(stack) && stack.len() > 0,
    ensures
        build(begun(span), tokens, None) matches Err(e) && e.kind is UnclosedBracket,
{
    let init = begun(span);
    lemma_begun_fits(span);
    lemma_run_fits(init, 0, Seq::empty(), tokens);
    lemma_build_runs(init, tokens, None);
}

/// Where the lexer rejects a part of the text, and the parser none of the
/// tokens before it, the result is the error of the lexer, wrapped, and
/// about the same bytes.
pub proof fn law_lexer_error_is_kept(span: Span, tokens: Seq<TokenView>, error: LexerErrorView)
    requires
        track(Seq::empty(), tokens) is Some,
    ensures
        build(begun(span), tokens, Some(error)) == Err::<Seq<Tree>, ErrorView>(wrap(error)),
        wrap(error).span == error.span,
{
    let init = begun(span);
    lemma_begun_fits(span);
    lemma_run_fits(init, 0, Seq::empty(), tokens);
    lemma_build_runs(init, tokens, Some(error));
}

/// The result of parsing tokens of which the one at `i` is the first that
/// the parser rejects.
proof fn lemma_stops_at(
    state: State,
    tokens: Seq<TokenView>,
    error: Option<LexerErrorView>,
    i: int,
    e: ErrorView,
)
    requires
        0 <= i < tokens.len(),
        run(state, tokens.take(i)) matches Ok(mid) && step(mid, tokens[i]) == Err::<State, ErrorView>(e),
    ensures
        build(state, tokens, error) == Err::<Seq<Tree>, ErrorView>(e),
{
    let head = tokens.take(i);
    let tail = tokens.skip(i);
    assert(tokens =~= head + tail);
    lemma_run_append(state, head, tail);
    lemma_build_runs(state, tokens, error);
    assert(tail[0] == tokens[i]);
}

/// A `)` where the innermost open bracket is a `[`, or a `]` where it is a
/// `(`, is rejected as unmatched, at the closing bracket, whatever comes
/// after it.
pub proof fn law_other_bracket_is_unmatched(
    span: Span,
    tokens: Seq<TokenView>,
    error: Option<LexerErrorView>,
    i: int,
)
    requires
        0 <= i < tokens.len(),
        track(Seq::empty(), tokens.take(i)) matches Some(stack) && stack.len() > 0 && ((
        tokens[i].kind is CloseParen && !stack.last()) || (tokens[i].kind is CloseBracket
            && stack.last())),
    ensures
        build(begun(span), tokens, error) == Err::<Seq<Tree>, ErrorView>(
            ErrorView { kind: Fault::UnmatchedBracket, span: tokens[i].span },
        ),
{
    let init = begun(span);
    let stack = track(Seq::empty(), tokens.take(i)).unwrap();
    lemma_begun_fits(span);
    lemma_run_fits(init, 0, Seq::empty(), tokens.take(i));
    let mid = run(init, tokens.take(i))->Ok_0;
    assert(chain(mid)[chain(mid).len() - 1] == mid.current);
    assert(stack[stack.len() - 1] == (chain(mid)[0 + 1 + (stack.len() - 1)].kind is List));
    lemma_stops_at(
        init,
        tokens,
        error,
        i,
        ErrorView { kind: Fault::UnmatchedBracket, span: tokens[i].span },
    );
}

/// A closing bracket where no bracket is open is rejected as unexpected,
/// at the closing bracket, whatever comes after it.
pub proof fn law_close_without_open_is_unexpected(
    span: Span,
    tokens: Seq<TokenView>,
    error: Option<LexerErrorView>,
    i: int,
)
    requires
        0 <= i < tokens.len(),
        balanced(tokens.take(i)),
        tokens[i].kind is CloseParen || tokens[i].kind is CloseBracket,
    ensures
        build(begun(span), tokens, error) == Err::<Seq<Tree>, ErrorView>(
            ErrorView { kind: Fault::UnexpectedCloseBracket, span: tokens[i].span },
        ),
{
    let init = begun(span);
    lemma_begun_fits(span);
    lemma_run_fits(init, 0, Seq::empty(), tokens.take(i));
    lemma_stops_at(
        init,
        tokens,
        error,
        i,
        ErrorView { kind: Fault::UnexpectedCloseBracket, span: tokens[i].span },
    );
}

/// The node that an opening bracket, balanced tokens and the closing
/// bracket of the same kind make: it spans from the start of the opening
/// bracket to the end of the closing one.
pub open spec fn is_form(tree: Tree, open: TokenView, close: TokenView) -> bool {
    &&& tree.span == extended(open.span, close.span)
    &&& open.kind is OpenParen ==> tree.kind is List
    &&& open.kind is OpenBracket ==> tree.kind is Vector
}

/// An opening bracket, tokens with balanced brackets, and the closing
/// bracket of the same kind add exactly one child to the list or vector
/// that is being filled: a node that covers the text from the first
/// character of the opening bracket to the last of the closing one. Nothing
/// else changes.
pub proof fn law_form_spans_its_brackets(
    state: State,
    open: TokenView,
    inner: Seq<TokenView>,
    close: TokenView,
)
    requires
        is_container(state.current),
        (open.kind is OpenParen && close.kind is CloseParen) || (open.kind is OpenBracket
            && close.kind is CloseBracket),
        balanced(inner),
    ensures
        run(state, seq![open] + inner + seq![close]) matches Ok(end) && end.parents
            == state.parents && exists|tree: Tree| #[trigger]
            is_form(tree, open, close) && Some(end.current) == with_child(state.current, tree),
{
    let first = step(state, open)->Ok_0;
    let base = chain(state).len() as int;
    assert(chain(first) =~= chain(state).push(first.current));
    assert(fits(first, base, Seq::empty()));
    lemma_run_fits(first, base, Seq::empty(), inner);
    let mid = run(first, inner)->Ok_0;
    assert(chain(mid).len() == base + 1);
    assert(chain(mid)[base] == mid.current);
    assert(chain(first)[base] == first.current);
    assert(mid.parents =~= chain(mid).take(base));
    assert(chain(first).take(base) =~= chain(state));
    assert(mid.parents.last() == state.current);
    assert(mid.parents.drop_last() =~= state.parents);
    let tree = Tree { kind: mid.current.kind, span: extended(open.span, close.span) };
    assert(is_form(tree, open, close));
    let end = step(mid, close)->Ok_0;
    assert(Some(end.current) == with_child(state.current, tree));
    lemma_run_append(state, seq![open], inner + seq![close]);
    lemma_run_append(first, inner, seq![close]);
    assert(seq![open] + inner + seq![close] =~= seq![open] + (inner + seq![close]));
    assert(run(state, seq![open]) == Ok::<State, ErrorView>(first)) by {
        reveal_with_fuel(run, 3);
        assert(seq![open].len() == 1 && seq![open][0] == open);
        assert(seq![open].drop_first() =~= Seq::<TokenView>::empty());
    }
    assert(run(mid, seq![close]) == step(mid, close)) by {
        reveal_with_fuel(run, 3);
        assert(seq![close].len() == 1 && seq![close][0] == close);
        assert(seq![close].drop_first() =~= Seq::<TokenView>::empty());
    }
}

} // verus!
