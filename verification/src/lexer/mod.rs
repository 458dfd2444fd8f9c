//! The lexer: from a text to located tokens, one at a time.

pub mod error;
pub mod scan;
pub mod stream;
pub mod symbol;
pub mod token;

pub use error::{Error, ErrorKind, ErrorView, Fault};
pub use symbol::Symbol;
pub use token::{Lexeme, Token, TokenKind, TokenView};

use crate::host::{may_parse, Host};
use crate::span::{column_of, line_of, share, Location, Source, Span};
use crate::text::{
    char_width, decode, digit, lemma_boundary, lemma_encode_concat, lemma_offset_encoded,
    lemma_offset_monotone, lemma_same_bytes, offset, separator, space,
};
use scan::{
    close_char, lemma_line_end, lemma_skip_blank, lemma_word_end, line_end, quoted, scan, scan_char,
    scan_string, skip_blank, span_at, word_end, Found, Quoted,
};
use std::ops::Range;
use std::sync::Arc;
use vstd::prelude::*;
use vstd::utf8::encode_utf8;

verus! {

/// A position in a text, as an index of characters and as an offset of
/// bytes.
#[derive(Clone, Copy)]
struct Cursor {
    pos: usize,
    byte: usize,
}

/// A lexer over one text. It reads forward only, one token per call of
/// [`Lexer::read`].
pub struct Lexer {
    chars: Vec<char>,
    at: Cursor,
    source: Arc<Source>,
}

/// What `read` returns, given what stands at the position it read from.
pub open spec fn reads<H: Host>(
    host: &H,
    origin: Arc<Source>,
    text: Seq<char>,
    pos: int,
    r: Result<Option<Token>, Error>,
) -> bool {
    let s = scan(text, pos);
    let span = span_at(origin, text, s.from, s.to);
    match s.found {
        Found::End => r matches Ok(None),
        Found::Token(lexeme) => r matches Ok(Some(t)) && t@ == (TokenView { kind: lexeme, span }),
        Found::Fault(fault) => r matches Err(e) && e@ == (ErrorView { kind: fault, span }),
        Found::Numeral(word) => match r {
            Ok(Some(t)) => t.span == span && (t.kind matches TokenKind::Number(n) && may_parse(
                host,
                word,
                Some(n),
            )),
            Ok(None) => false,
            Err(e) => e@ == (ErrorView { kind: Fault::InvalidNumber(word), span }) && may_parse(
                host,
                word,
                None,
            ),
        },
    }
}

impl Lexer {
    #[verifier::type_invariant]
    spec fn inv(self) -> bool {
        &&& self.at.pos <= self.chars@.len()
        &&& self.at.byte == offset(self.chars@, self.at.pos as int)
        &&& offset(self.chars@, self.chars@.len() as int) <= usize::MAX
        &&& offset(self.chars@, self.chars@.len() as int) == self.source.bytes().len()
        &&& self.chars@ == self.source.text()
    }

    /// The text that the lexer reads.
    pub closed spec fn text(&self) -> Seq<char> {
        self.chars@
    }

    /// The index of the character at which the lexer stands.
    pub closed spec fn position(&self) -> int {
        self.at.pos as int
    }

    /// The source that the spans of the tokens point into.
    pub closed spec fn origin(&self) -> Arc<Source> {
        self.source
    }

    /// A lexer at the start of `input`.
    pub fn new(input: &str) -> (r: Lexer)
        ensures
            r.text() == input@,
            r.position() == 0,
            r.origin().text() == input@,
            r.origin().label() == None::<Seq<char>>,
    {
        let source = Arc::new(Source::new(None, input.to_owned()));
        let chars = decode(input);
        // the offsets of the text are as many as its bytes
        let size: usize = input.as_bytes().len();
        proof {
            lemma_offset_encoded(chars@, chars@.len() as int);
            assert(chars@.take(chars@.len() as int) =~= chars@);
        }
        Lexer { chars, at: Cursor { pos: 0, byte: 0 }, source }
    }

    /// The source that the spans of the tokens point into.
    pub fn source(&self) -> (r: Arc<Source>)
        ensures
            r == self.origin(),
    {
        share(&self.source)
    }

    /// Gives the source a name. Spans handed out before keep the source
    /// without it.
    pub fn set_name(&mut self, name: String)
        ensures
            final(self).text() == old(self).text(),
            final(self).position() == old(self).position(),
            final(self).origin().text() == old(self).text(),
            final(self).origin().label() == Some(name@),
    {
        proof {
            use_type_invariant(&*self);
        }
        let contents = self.source.contents().to_owned();
        self.source = Arc::new(Source::new(Some(name), contents));
    }

    /// The empty span at the position of the lexer.
    pub fn span(&self) -> (r: Span)
        ensures
            r == span_at(self.origin(), self.text(), self.position(), self.position()),
            r.wf(),
            0 <= self.position() <= self.text().len(),
    {
        proof {
            use_type_invariant(self);
            lemma_offset_monotone(self.chars@, self.at.pos as int, self.chars@.len() as int);
        }
        Span::new(Range { start: self.at.byte, end: self.at.byte }, share(&self.source))
    }

    /// The span from the byte offset `start`, taken at an earlier position
    /// `from`, to the position of the lexer.
    fn span_from(&self, start: usize, Ghost(from): Ghost<int>) -> (r: Span)
        requires
            0 <= from <= self.position(),
            start == offset(self.text(), from),
        ensures
            r == span_at(self.origin(), self.text(), from, self.position()),
            r.wf(),
    {
        proof {
            use_type_invariant(self);
            lemma_offset_monotone(self.chars@, self.at.pos as int, self.chars@.len() as int);
            lemma_offset_monotone(self.chars@, from, self.at.pos as int);
        }
        Span::new(Range { start, end: self.at.byte }, share(&self.source))
    }

    /// The character at the position of the lexer.
    pub fn current(&self) -> (r: Option<char>)
        ensures
            0 <= self.position() <= self.text().len(),
            r == if self.position() < self.text().len() {
                Some(self.text()[self.position()])
            } else {
                None
            },
    {
        proof {
            use_type_invariant(self);
        }
        if self.at.pos < self.chars.len() {
            Some(self.chars[self.at.pos])
        } else {
            None
        }
    }

    /// The text from the position of the lexer on.
    pub fn get_unparsed(&self) -> (r: &str)
        ensures
            r@ == self.text().skip(self.position()),
    {
        proof {
            use_type_invariant(self);
            lemma_boundary(self.chars@, self.at.pos as int);
        }
        let (_, rest) = self.source.contents().split_at(self.at.byte);
        proof {
            let text = self.chars@;
            let pos = self.at.pos as int;
            lemma_offset_encoded(text, pos);
            lemma_encode_concat(text.take(pos), text.skip(pos));
            assert(text.take(pos) + text.skip(pos) =~= text);
            assert(encode_utf8(rest@) =~= encode_utf8(text.skip(pos)));
            lemma_same_bytes(rest@, text.skip(pos));
        }
        rest
    }

    /// The line and the column of the position of the lexer.
    pub fn location(&self) -> (r: Location)
        ensures
            r.line == line_of(self.origin().bytes(), offset(self.text(), self.position()) as int),
            r.column == column_of(
                self.origin().bytes(),
                offset(self.text(), self.position()) as int,
            ),
    {
        proof {
            use_type_invariant(self);
            lemma_offset_monotone(self.chars@, self.at.pos as int, self.chars@.len() as int);
        }
        self.source.location(self.at.byte)
    }

    /// The character `n` places after the position of the lexer.
    fn peek(&self, n: usize) -> (r: Option<char>)
        ensures
            r == if self.position() + n < self.text().len() {
                Some(self.text()[self.position() + n])
            } else {
                None
            },
    {
        proof {
            use_type_invariant(self);
        }
        if n < self.chars.len() - self.at.pos {
            Some(self.chars[self.at.pos + n])
        } else {
            None
        }
    }

    /// The byte offset of the position of the lexer.
    fn byte(&self) -> (r: usize)
        ensures
            r == offset(self.text(), self.position()),
            0 <= self.position() <= self.text().len(),
    {
        proof {
            use_type_invariant(self);
        }
        self.at.byte
    }

    /// Steps over one character, if there is one, and returns it.
    fn advance(&mut self) -> (r: Option<char>)
        ensures
            final(self).text() == old(self).text(),
            final(self).origin() == old(self).origin(),
            0 <= old(self).position() <= old(self).text().len(),
            r == if old(self).position() < old(self).text().len() {
                Some(old(self).text()[old(self).position()])
            } else {
                None
            },
            final(self).position() == if old(self).position() < old(self).text().len() {
                old(self).position() + 1
            } else {
                old(self).position()
            },
    {
        proof {
            use_type_invariant(&*self);
        }
        if self.at.pos < self.chars.len() {
            let c = self.chars[self.at.pos];
            proof {
                lemma_offset_monotone(
                    self.chars@,
                    self.at.pos as int + 1,
                    self.chars@.len() as int,
                );
            }
            self.at = Cursor { pos: self.at.pos + 1, byte: self.at.byte + char_width(c) };
            Some(c)
        } else {
            None
        }
    }

    /// Reads up to the next separator.
    fn read_word(&mut self) -> (r: String)
        ensures
            final(self).text() == old(self).text(),
            final(self).origin() == old(self).origin(),
            0 <= old(self).position() <= final(self).position() <= old(self).text().len(),
            final(self).position() == word_end(old(self).text(), old(self).position()),
            r@ == old(self).text().subrange(old(self).position(), final(self).position()),
    {
        let mut word = String::new();
        let ghost start = self.position();
        let ghost text = self.text();
        proof {
            use_type_invariant(&*self);
        }
        loop
            invariant
                self.text() == text,
                self.origin() == old(self).origin(),
                0 <= start <= self.position() <= text.len(),
                word_end(text, self.position()) == word_end(text, start),
                word@ == text.subrange(start, self.position()),
            ensures
                self.position() == word_end(text, start),
            decreases text.len() - self.position(),
        {
            match self.current() {
                Some(c) => {
                    if separator(c) {
                        break ;
                    }
                    word.push(c);
                    self.advance();
                    assert(word@ =~= text.subrange(start, self.position()));
                },
                None => {
                    break ;
                },
            }
        }
        word
    }
    /// Reads the inside of a string literal and what follows it. The lexer
    /// stands after the opening quote, which stands at `from`.
    fn read_string(&mut self, start: usize, Ghost(from): Ghost<int>) -> (r: Result<
        TokenKind,
        Error,
    >)
        requires
            0 <= from,
            old(self).position() == from + 1,
            start == offset(old(self).text(), from),
        ensures
            final(self).text() == old(self).text(),
            final(self).origin() == old(self).origin(),
            final(self).position() == scan_string(old(self).text(), from).next,
            from < final(self).position() <= old(self).text().len(),
            r matches Err(e) ==> e.span.wf(),
            match scan_string(old(self).text(), from).found {
                Found::Token(lexeme) => r matches Ok(kind) && kind@ == lexeme,
                Found::Fault(fault) => r matches Err(e) && e@ == (ErrorView {
                    kind: fault,
                    span: span_at(
                        old(self).origin(),
                        old(self).text(),
                        scan_string(old(self).text(), from).from,
                        scan_string(old(self).text(), from).to,
                    ),
                }),
                _ => false,
            },
    {
        let ghost text = self.text();
        let ghost origin = self.origin();
        proof {
            use_type_invariant(&*self);
        }
        let quote_span = self.span_from(start, Ghost(from));
        let mut string = String::new();
        loop
            invariant_except_break
                quoted(text, self.position(), string@) == quoted(text, from + 1, Seq::empty()),
            invariant
                0 <= from,
                text == old(self).text(),
                origin == old(self).origin(),
                quote_span.wf(),
                self.text() == text,
                self.origin() == origin,
                from + 1 <= self.position() <= text.len(),
                quote_span == span_at(origin, text, from, from + 1),
                start == offset(text, from),
            ensures
                quoted(text, from + 1, Seq::empty()) == (Quoted::Closed {
                    text: string@,
                    next: self.position(),
                }),
            decreases text.len() - self.position(),
        {
            let ch_start = self.byte();
            let ghost ch_from = self.position();
            match self.advance() {
                Some(c) => {
                    if c == '"' {
                        break ;
                    } else if c == '\\' {
                        match self.advance() {
                            Some(e) => {
                                if e == '"' || e == '\\' {
                                    string.push(e);
                                } else if e == 'n' {
                                    string.push('\n');
                                } else if e == 'e' {
                                    string.push('\x1b');
                                } else {
                                    return Err(
                                        Error::new(
                                            ErrorKind::InvalidEscape(e),
                                            self.span_from(ch_start, Ghost(ch_from)),
                                        ),
                                    );
                                }
                            },
                            None => {
                                return Err(Error::new(ErrorKind::UnclosedString, quote_span));
                            },
                        }
                    } else {
                        string.push(c);
                    }
                },
                None => {
                    return Err(Error::new(ErrorKind::UnclosedString, quote_span));
                },
            }
        }
        match self.current() {
            Some(c) => {
                if !separator(c) {
                    self.read_word();
                    proof {
                        lemma_word_end(text, scan_string(text, from).next);
                    }
                    return Err(
                        Error::new(ErrorKind::InvalidString, self.span_from(start, Ghost(from))),
                    );
                }
            },
            None => {},
        }
        Ok(TokenKind::String(string))
    }

    /// Reads what closes a character literal that began at `from` and holds
    /// `c`. The lexer stands after `c`.
    fn finish_char(&mut self, c: char, start: usize, Ghost(from): Ghost<int>) -> (r: Result<
        TokenKind,
        Error,
    >)
        requires
            0 <= from < old(self).position(),
            start == offset(old(self).text(), from),
        ensures
            final(self).text() == old(self).text(),
            final(self).origin() == old(self).origin(),
            final(self).position() == close_char(
                old(self).text(),
                from,
                c,
                old(self).position(),
            ).next,
            from < final(self).position() <= old(self).text().len(),
            r matches Err(e) ==> e.span.wf(),
            match close_char(old(self).text(), from, c, old(self).position()).found {
                Found::Token(lexeme) => r matches Ok(kind) && kind@ == lexeme,
                Found::Fault(fault) => r matches Err(e) && e@ == (ErrorView {
                    kind: fault,
                    span: span_at(
                        old(self).origin(),
                        old(self).text(),
                        from,
                        close_char(old(self).text(), from, c, old(self).position()).to,
                    ),
                }),
                _ => false,
            },
    {
        let ghost text = self.text();
        proof {
            use_type_invariant(&*self);
        }
        match self.advance() {
            Some(q) => {
                if q == '\'' {
                    return Ok(TokenKind::Char(c));
                }
            },
            None => {},
        }
        proof {
            lemma_word_end(text, self.position());
        }
        self.read_word();
        Err(Error::new(ErrorKind::InvalidChar, self.span_from(start, Ghost(from))))
    }

    /// Reads a character literal. The lexer stands after the opening quote,
    /// which stands at `from`.
    fn read_char(&mut self, start: usize, Ghost(from): Ghost<int>) -> (r: Result<TokenKind, Error>)
        requires
            0 <= from,
            old(self).position() == from + 1,
            start == offset(old(self).text(), from),
        ensures
            final(self).text() == old(self).text(),
            final(self).origin() == old(self).origin(),
            final(self).position() == scan_char(old(self).text(), from).next,
            from < final(self).position() <= old(self).text().len(),
            r matches Err(e) ==> e.span.wf(),
            match scan_char(old(self).text(), from).found {
                Found::Token(lexeme) => r matches Ok(kind) && kind@ == lexeme,
                Found::Fault(fault) => r matches Err(e) && e@ == (ErrorView {
                    kind: fault,
                    span: span_at(
                        old(self).origin(),
                        old(self).text(),
                        from,
                        scan_char(old(self).text(), from).to,
                    ),
                }),
                _ => false,
            },
    {
        match self.advance() {
            Some(c) => {
                if c == '\\' {
                    match self.advance() {
                        Some(e) => {
                            if e == '"' || e == '\\' {
                                self.finish_char(e, start, Ghost(from))
                            } else if e == 'n' {
                                self.finish_char('\n', start, Ghost(from))
                            } else if e == 'e' {
                                self.finish_char('\x1b', start, Ghost(from))
                            } else {
                                Err(
                                    Error::new(
                                        ErrorKind::InvalidEscape(e),
                                        self.span_from(start, Ghost(from)),
                                    ),
                                )
                            }
                        },
                        None => Err(
                            Error::new(ErrorKind::UnclosedChar, self.span_from(start, Ghost(from))),
                        ),
                    }
                } else {
                    self.finish_char(c, start, Ghost(from))
                }
            },
            None => Err(Error::new(ErrorKind::InvalidChar, self.span_from(start, Ghost(from)))),
        }
    }

    /// Steps over white space and commas.
    fn skip_blanks(&mut self)
        ensures
            final(self).text() == old(self).text(),
            final(self).origin() == old(self).origin(),
            final(self).position() == skip_blank(old(self).text(), old(self).position()),
            0 <= old(self).position() <= final(self).position() <= old(self).text().len(),
    {
        let ghost text = self.text();
        let ghost start = self.position();
        proof {
            use_type_invariant(&*self);
        }
        loop
            invariant
                self.text() == text,
                self.origin() == old(self).origin(),
                0 <= start <= self.position() <= text.len(),
                skip_blank(text, self.position()) == skip_blank(text, start),
            ensures
                self.position() == skip_blank(text, start),
            decreases text.len() - self.position(),
        {
            match self.current() {
                Some(c) => {
                    if space(c) || c == ',' {
                        self.advance();
                    } else {
                        break ;
                    }
                },
                None => {
                    break ;
                },
            }
        }
    }

    /// Reads the rest of a line comment. The lexer stands after the `;`,
    /// which stands at `from`.
    fn read_comment(&mut self, Ghost(from): Ghost<int>) -> (r: String)
        requires
            0 <= from,
            old(self).position() == from + 1,
        ensures
            final(self).text() == old(self).text(),
            final(self).origin() == old(self).origin(),
            from < final(self).position() <= old(self).text().len(),
            final(self).position() == if line_end(old(self).text(), from + 1) < old(
                self,
            ).text().len() {
                line_end(old(self).text(), from + 1) + 1
            } else {
                line_end(old(self).text(), from + 1)
            },
            r@ == old(self).text().subrange(from + 1, line_end(old(self).text(), from + 1)),
    {
        let ghost text = self.text();
        let mut comment = String::new();
        proof {
            use_type_invariant(&*self);
            lemma_line_end(text, from + 1);
        }
        loop
            invariant_except_break
                line_end(text, self.position()) == line_end(text, from + 1),
                comment@ == text.subrange(from + 1, self.position()),
            invariant
                0 <= from,
                self.text() == text,
                self.origin() == old(self).origin(),
                from + 1 <= self.position() <= text.len(),
                from + 1 <= line_end(text, from + 1) <= text.len(),
            ensures
                comment@ == text.subrange(from + 1, line_end(text, from + 1)),
                self.position() == if line_end(text, from + 1) < text.len() {
                    line_end(text, from + 1) + 1
                } else {
                    line_end(text, from + 1)
                },
            decreases text.len() - self.position(),
        {
            match self.advance() {
                Some(c) => {
                    if c == '\n' {
                        break ;
                    }
                    comment.push(c);
                    assert(comment@ =~= text.subrange(from + 1, self.position()));
                },
                None => {
                    break ;
                },
            }
        }
        comment
    }

    /// Reads the next token. `Ok(None)` at the end of the text. After an
    /// error the lexer stands behind what it rejected, and may be read on.
    pub fn read<H: Host>(&mut self, host: &H) -> (r: Result<Option<Token>, Error>)
        ensures
            final(self).text() == old(self).text(),
            final(self).origin() == old(self).origin(),
            final(self).position() == scan(old(self).text(), old(self).position()).next,
            old(self).position() <= final(self).position() <= old(self).text().len(),
            reads(host, old(self).origin(), old(self).text(), old(self).position(), r),
            r matches Ok(Some(t)) ==> t.span.wf() && old(self).position() < final(self).position(),
            r matches Err(e) ==> e.span.wf(),
    {
        let ghost text = self.text();
        let ghost origin = self.origin();
        self.skip_blanks();
        let c = match self.current() {
            Some(c) => c,
            None => {
                return Ok(None);
            },
        };
        let start = self.byte();
        let ghost from = self.position();
        proof {
            lemma_word_end(text, from);
            lemma_word_end(text, from + 1);
            lemma_skip_blank(text, old(self).position());
        }
        let kind = if c == '(' {
            self.advance();
            TokenKind::OpenParen
        } else if c == ')' {
            self.advance();
            TokenKind::CloseParen
        } else if c == '[' {
            self.advance();
            TokenKind::OpenBracket
        } else if c == ']' {
            self.advance();
            TokenKind::CloseBracket
        } else if digit(c) || ((c == '+' || c == '-') && match self.peek(1) {
            Some(d) => digit(d),
            None => false,
        }) {
            let word = self.read_word();
            match host.parse_number(word.as_str()) {
                Some(n) => {
                    assert(may_parse(host, word@, Some(n)));
                    TokenKind::Number(n)
                },
                None => {
                    assert(may_parse(host, word@, None));
                    return Err(
                        Error::new(
                            ErrorKind::InvalidNumber(word),
                            self.span_from(start, Ghost(from)),
                        ),
                    );
                },
            }
        } else if c == ';' {
            self.advance();
            TokenKind::Comment(self.read_comment(Ghost(from)))
        } else if c == ':' {
            self.advance();
            TokenKind::Keyword(Symbol(self.read_word()))
        } else if c == '"' {
            self.advance();
            match self.read_string(start, Ghost(from)) {
                Ok(kind) => kind,
                Err(e) => {
                    return Err(e);
                },
            }
        } else if c == '\'' {
            self.advance();
            match self.read_char(start, Ghost(from)) {
                Ok(kind) => kind,
                Err(e) => {
                    return Err(e);
                },
            }
        } else {
            let word = self.read_word();
            if word == "true".to_owned() {
                TokenKind::Bool(true)
            } else if word == "false".to_owned() {
                TokenKind::Bool(false)
            } else if word == "nil".to_owned() {
                TokenKind::Nil
            } else {
                TokenKind::Symbol(Symbol(word))
            }
        };
        Ok(Some(Token::new(kind, self.span_from(start, Ghost(from)))))
    }

    /// The next token or error; `None` at the end of the text.
    pub fn next<H: Host>(&mut self, host: &H) -> (r: Option<Result<Token, Error>>)
        ensures
            final(self).text() == old(self).text(),
            final(self).origin() == old(self).origin(),
            final(self).position() == scan(old(self).text(), old(self).position()).next,
            reads(
                host,
                old(self).origin(),
                old(self).text(),
                old(self).position(),
                match r {
                    Some(Ok(t)) => Ok(Some(t)),
                    Some(Err(e)) => Err(e),
                    None => Ok(None),
                },
            ),
    {
        match self.read(host) {
            Ok(Some(t)) => Some(Ok(t)),
            Ok(None) => None,
            Err(e) => Some(Err(e)),
        }
    }
}

} // verus!
