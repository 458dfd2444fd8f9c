//! The tokens of a text, as a function of the text and of how the host
//! reads numbers.

use super::error::{Error, ErrorView, Fault};
use super::scan::{
    lemma_scan, lemma_word_end, scan, skip_blank, span_at, starts_number, word_end, Found,
};
use crate::text::is_separator;
use super::token::{Lexeme, Token, TokenView};
use super::reads;
use crate::host::{lemma_may_parse, may_parse, parsed, reads_numbers, Host};
use crate::span::Source;
use std::sync::Arc;
use vstd::prelude::*;

verus! {

/// The token, the end or the error that the lexer finds when it reads on
/// from `pos`, where the host reads a numeral always the same way.
pub open spec fn token_at<H: Host>(
    host: &H,
    origin: Arc<Source>,
    text: Seq<char>,
    pos: int,
) -> Result<Option<TokenView>, ErrorView> {
    let s = scan(text, pos);
    let span = span_at(origin, text, s.from, s.to);
    match s.found {
        Found::End => Ok(None),
        Found::Token(lexeme) => Ok(Some(TokenView { kind: lexeme, span })),
        Found::Fault(fault) => Err(ErrorView { kind: fault, span }),
        Found::Numeral(word) => match parsed(host, word) {
            Some(n) => Ok(Some(TokenView { kind: Lexeme::Number(n), span })),
            None => Err(ErrorView { kind: Fault::InvalidNumber(word), span }),
        },
    }
}

/// What a call of `read` returned, with texts as sequences of characters.
pub open spec fn outcome(r: Result<Option<Token>, Error>) -> Result<Option<TokenView>, ErrorView> {
    match r {
        Ok(Some(t)) => Ok(Some(t@)),
        Ok(None) => Ok(None),
        Err(e) => Err(e@),
    }
}

/// What a call of `read` at `pos` may return: what stands there, where
/// that is no numeral; for a numeral, the number or the refusal that some
/// call of the host on it returns.
pub open spec fn may_read<H: Host>(
    host: &H,
    origin: Arc<Source>,
    text: Seq<char>,
    pos: int,
    read: Result<Option<TokenView>, ErrorView>,
) -> bool {
    let s = scan(text, pos);
    let span = span_at(origin, text, s.from, s.to);
    match s.found {
        Found::End => read == Ok::<Option<TokenView>, ErrorView>(None),
        Found::Token(lexeme) => read == Ok::<Option<TokenView>, ErrorView>(
            Some(TokenView { kind: lexeme, span }),
        ),
        Found::Fault(fault) => read == Err::<Option<TokenView>, ErrorView>(
            ErrorView { kind: fault, span },
        ),
        Found::Numeral(word) => match read {
            Ok(Some(t)) => t.span == span && (t.kind matches Lexeme::Number(n) && may_parse(
                host,
                word,
                Some(n),
            )),
            Ok(None) => false,
            Err(e) => e == (ErrorView { kind: Fault::InvalidNumber(word), span }) && may_parse(
                host,
                word,
                None,
            ),
        },
    }
}

/// The tokens that successive calls of `read` may return from `pos` on, up
/// to the position `to`.
pub open spec fn may_reach<H: Host>(
    host: &H,
    origin: Arc<Source>,
    text: Seq<char>,
    pos: int,
    tokens: Seq<TokenView>,
    to: int,
) -> bool
    decreases tokens.len(),
{
    if tokens.len() == 0 {
        pos == to
    } else {
        may_read(host, origin, text, pos, Ok(Some(tokens[0]))) && may_reach(
            host,
            origin,
            text,
            scan(text, pos).next,
            tokens.drop_first(),
            to,
        )
    }
}

/// What `read` returns is what it may return.
pub proof fn lemma_may_read<H: Host>(
    host: &H,
    origin: Arc<Source>,
    text: Seq<char>,
    pos: int,
    r: Result<Option<Token>, Error>,
)
    requires
        reads(host, origin, text, pos, r),
    ensures
        may_read(host, origin, text, pos, outcome(r)),
{
}

/// One more token that `read` may return reaches on to where the lexer
/// goes on after it.
pub proof fn lemma_reach_on<H: Host>(
    host: &H,
    origin: Arc<Source>,
    text: Seq<char>,
    pos: int,
    tokens: Seq<TokenView>,
    to: int,
    token: TokenView,
)
    requires
        may_reach(host, origin, text, pos, tokens, to),
        may_read(host, origin, text, to, Ok(Some(token))),
    ensures
        may_reach(host, origin, text, pos, tokens.push(token), scan(text, to).next),
    decreases tokens.len(),
{
    if tokens.len() == 0 {
        assert(tokens.push(token)[0] == token);
        assert(tokens.push(token).drop_first() =~= Seq::<TokenView>::empty());
        assert(may_reach(
            host,
            origin,
            text,
            scan(text, to).next,
            Seq::<TokenView>::empty(),
            scan(text, to).next,
        ));
    } else {
        lemma_reach_on(
            host,
            origin,
            text,
            scan(text, pos).next,
            tokens.drop_first(),
            to,
            token,
        );
        assert(tokens.push(token)[0] == tokens[0]);
        assert(tokens.push(token).drop_first() =~= tokens.drop_first().push(token));
    }
}

/// Where the host reads a numeral always the same way, what `read` returns
/// is a function of the text and the position.
pub proof fn lemma_reads<H: Host>(
    host: &H,
    origin: Arc<Source>,
    text: Seq<char>,
    pos: int,
    r: Result<Option<Token>, Error>,
)
    requires
        reads_numbers(host),
        reads(host, origin, text, pos, r),
    ensures
        outcome(r) == token_at(host, origin, text, pos),
{
    match scan(text, pos).found {
        Found::Numeral(word) => {
            match r {
                Ok(Some(t)) => {
                    match t.kind {
                        super::token::TokenKind::Number(n) => {
                            lemma_may_parse(host, word, Some(n));
                        },
                        _ => {},
                    }
                },
                Ok(None) => {},
                Err(e) => {
                    lemma_may_parse(host, word, None);
                },
            }
        },
        _ => {},
    }
}

/// A word that begins like a number and that the host reads as the number
/// `n` is, alone in a text, the one token of that text: the number `n`,
/// whose span covers the whole word.
pub proof fn law_numeral_is_number<H: Host>(host: &H, origin: Arc<Source>, word: Seq<char>, n: u64)
    requires
        starts_number(word, 0),
        forall|i: int| 0 <= i < word.len() ==> !is_separator(#[trigger] word[i]),
        parsed(host, word) == Some(n),
    ensures
        token_at(host, origin, word, 0) == Ok::<Option<TokenView>, ErrorView>(
            Some(
                TokenView {
                    kind: Lexeme::Number(n),
                    span: span_at(origin, word, 0, word.len() as int),
                },
            ),
        ),
        scan(word, 0).next == word.len(),
        token_at(host, origin, word, word.len() as int) == Ok::<Option<TokenView>, ErrorView>(None),
{
    lemma_word_end(word, 0);
    assert(word_end(word, 0) == word.len()) by {
        if word_end(word, 0) < word.len() {
            assert(is_separator(word[word_end(word, 0)]));
        }
    }
    assert(word.subrange(0, word.len() as int) =~= word);
    assert(skip_blank(word, 0) == 0);
    assert(skip_blank(word, word.len() as int) == word.len());
}

/// The tokens of a text up to its end or to the first error of the lexer.
pub struct Lexed {
    pub tokens: Seq<TokenView>,
    pub error: Option<ErrorView>,
}

/// The tokens of `text` from `pos` on.
pub open spec fn lex<H: Host>(host: &H, origin: Arc<Source>, text: Seq<char>, pos: int) -> Lexed
    decreases text.len() - pos,
{
    if pos < 0 || pos > text.len() {
        Lexed { tokens: Seq::empty(), error: None }
    } else {
        match token_at(host, origin, text, pos) {
            Ok(None) => Lexed { tokens: Seq::empty(), error: None },
            Err(e) => Lexed { tokens: Seq::empty(), error: Some(e) },
            Ok(Some(t)) => {
                proof {
                    lemma_scan(text, pos);
                }
                let rest = lex(host, origin, text, scan(text, pos).next);
                Lexed { tokens: seq![t] + rest.tokens, error: rest.error }
            },
        }
    }
}

} // verus!
