//! Colours for a snippet of code, as terminal escape sequences.

use crate::host::{parsed, reads_numbers, Host};
use crate::lexer::scan::{lemma_scan, scan, Found};
use crate::lexer::stream::lemma_reads;
use crate::lexer::{Lexeme, Lexer, TokenKind};
use crate::text::{char_width, decode, lemma_offset_encoded, lemma_offset_monotone, offset};
use vstd::prelude::*;
use vstd::string::StringExecFns;

verus! {

/// A highlighter of code.
#[derive(Clone, Copy)]
pub struct Highlighter {
    /// Whether a bracket gets the colour of the bracket that it matches.
    match_brackets: bool,
}

/// The colour of the bracket at nesting depth `index`, counted round in
/// six.
pub open spec fn bracket_colour(index: int) -> Seq<char> {
    if index == 0 {
        "\x1b[0;92m"@
    } else if index == 1 {
        "\x1b[0;93m"@
    } else if index == 2 {
        "\x1b[0;94m"@
    } else if index == 3 {
        "\x1b[0;96m"@
    } else if index == 4 {
        "\x1b[0;95m"@
    } else {
        "\x1b[0;90m"@
    }
}

/// What the highlighter remembers from one token to the next: the nesting
/// depth, counted round in six, and whether the last token was a `(`.
pub struct Memory {
    pub depth: int,
    pub after_paren: bool,
}

/// The kind of what was read, for colouring: a token, or none for an error.
pub open spec fn read_kind<H: Host>(host: &H, found: Found) -> Option<Lexeme> {
    match found {
        Found::Token(lexeme) => Some(lexeme),
        Found::Numeral(word) => match parsed(host, word) {
            Some(n) => Some(Lexeme::Number(n)),
            None => None,
        },
        _ => None,
    }
}

/// The nesting depth at which an opening bracket is coloured.
pub open spec fn opening(depth: int) -> int {
    if depth > 5 {
        0
    } else {
        depth
    }
}

/// The nesting depth at which a closing bracket is coloured.
pub open spec fn closing(depth: int) -> int {
    if depth < 1 {
        5
    } else {
        depth - 1
    }
}

/// The colour of a token, or of an error.
pub open spec fn colour(matching: bool, memory: Memory, kind: Option<Lexeme>) -> Seq<char> {
    match kind {
        None => "\x1b[31m"@,
        Some(Lexeme::Comment(_)) => "\x1b[3;90m"@,
        Some(Lexeme::OpenParen) | Some(Lexeme::OpenBracket) => if matching {
            bracket_colour(opening(memory.depth))
        } else {
            "\x1b[0;90m"@
        },
        Some(Lexeme::CloseParen) | Some(Lexeme::CloseBracket) => if matching {
            bracket_colour(closing(memory.depth))
        } else {
            "\x1b[0;90m"@
        },
        Some(Lexeme::Number(_)) => "\x1b[0;36m"@,
        Some(Lexeme::String(_)) | Some(Lexeme::Char(_)) => "\x1b[0;33m"@,
        Some(Lexeme::Bool(_)) | Some(Lexeme::Nil) => "\x1b[3;32m"@,
        Some(Lexeme::Symbol(_)) => if memory.after_paren {
            "\x1b[0;35m"@
        } else {
            "\x1b[0;37m"@
        },
        Some(Lexeme::Keyword(_)) => "\x1b[0;34m"@,
    }
}

/// What the highlighter remembers after a token, or an error.
pub open spec fn remember(matching: bool, memory: Memory, kind: Option<Lexeme>) -> Memory {
    Memory {
        depth: match kind {
            Some(Lexeme::OpenParen) | Some(Lexeme::OpenBracket) => if matching {
                opening(memory.depth) + 1
            } else {
                memory.depth
            },
            Some(Lexeme::CloseParen) | Some(Lexeme::CloseBracket) => if matching {
                closing(memory.depth)
            } else {
                memory.depth
            },
            _ => memory.depth,
        },
        after_paren: kind == Some(Lexeme::OpenParen),
    }
}

/// The text from the character `mark` on with colours: before each token
/// or error that the lexer finds from `pos` on stands its colour, and at
/// the end the sequence that ends all colours.
pub open spec fn painted<H: Host>(
    host: &H,
    matching: bool,
    text: Seq<char>,
    pos: int,
    mark: int,
    memory: Memory,
) -> Seq<char>
    decreases text.len() - pos,
{
    let s = scan(text, pos);
    if pos < 0 || pos > text.len() || s.found is End {
        text.subrange(mark, text.len() as int) + "\x1b[0m"@
    } else {
        proof {
            lemma_scan(text, pos);
        }
        let kind = read_kind(host, s.found);
        text.subrange(mark, s.from) + colour(matching, memory, kind) + painted(
            host,
            matching,
            text,
            s.next,
            s.from,
            remember(matching, memory, kind),
        )
    }
}

/// The colour of the bracket at nesting depth `index`.
fn bracket(index: usize) -> (r: &'static str)
    requires
        index < 6,
    ensures
        r@ == bracket_colour(index as int),
{
    if index == 0 {
        "\x1b[0;92m"
    } else if index == 1 {
        "\x1b[0;93m"
    } else if index == 2 {
        "\x1b[0;94m"
    } else if index == 3 {
        "\x1b[0;96m"
    } else if index == 4 {
        "\x1b[0;95m"
    } else {
        "\x1b[0;90m"
    }
}

impl Default for Highlighter {
    /// A highlighter that gives all brackets one colour.
    fn default() -> (r: Self)
        ensures
            !r.matching(),
    {
        Self { match_brackets: false }
    }
}

impl Highlighter {
    /// Whether a bracket gets the colour of the bracket that it matches.
    pub closed spec fn matching(&self) -> bool {
        self.match_brackets
    }

    /// A highlighter that gives matching brackets the same colour, or all
    /// brackets one colour.
    pub fn new(match_brackets: bool) -> (r: Self)
        ensures
            r.matching() == match_brackets,
    {
        Self { match_brackets }
    }

    /// The snippet with a colour before each token.
    pub fn highlight<H: Host>(&self, snippet: &str, host: &H) -> (r: String)
        ensures
            reads_numbers(host) ==> r@ == painted(
                host,
                self.matching(),
                snippet@,
                0,
                0,
                Memory { depth: 0, after_paren: false },
            ),
    {
        let chars = decode(snippet);
        let mut lexer = Lexer::new(snippet);
        let mut colored = String::new();
        let mut paren_idx: usize = 0;
        let mut is_fn = false;
        // the character up to which the snippet is copied, and its offset
        let mut next: usize = 0;
        let mut start: usize = 0;
        let ghost text = snippet@;
        let ghost origin = lexer.origin();
        // the offsets of the text are as many as its bytes
        let size: usize = snippet.as_bytes().len();
        let total: usize = chars.len();
        proof {
            lemma_offset_encoded(text, text.len() as int);
            assert(text.take(text.len() as int) =~= text);
        }
        let ghost goal = painted(
            host,
            self.matching(),
            text,
            0,
            0,
            Memory { depth: 0, after_paren: false },
        );
        assert(colored@ =~= Seq::<char>::empty());
        loop
            invariant_except_break
                reads_numbers(host) ==> colored@ + painted(
                    host,
                    self.matching(),
                    text,
                    lexer.position(),
                    next as int,
                    Memory { depth: paren_idx as int, after_paren: is_fn },
                ) == goal,
            invariant
                chars@ == text,
                total == text.len(),
                lexer.text() == text,
                lexer.origin() == origin,
                0 <= next <= lexer.position() <= text.len(),
                start == offset(text, next as int),
                paren_idx <= 6,
                offset(text, text.len() as int) <= usize::MAX,
            ensures
                reads_numbers(host) ==> colored@ + text.subrange(next as int, text.len() as int)
                    + "\x1b[0m"@ == goal,
            decreases text.len() - lexer.position(),
        {
            let ghost pos = lexer.position();
            let ghost s = scan(text, pos);
            let ghost before = Memory { depth: paren_idx as int, after_paren: is_fn };
            let ghost done = colored@;
            let read = lexer.read(host);
            proof {
                lemma_scan(text, pos);
                if reads_numbers(host) {
                    lemma_reads(host, origin, text, pos, read);
                }
            }
            let (color, end) = match &read {
                Ok(Some(t)) => {
                    let color = match &t.kind {
                        TokenKind::Comment(_) => "\x1b[3;90m",
                        TokenKind::OpenParen | TokenKind::OpenBracket => {
                            if !self.match_brackets {
                                "\x1b[0;90m"
                            } else {
                                if paren_idx > 5 {
                                    paren_idx = 0;
                                }
                                let c = bracket(paren_idx);
                                paren_idx += 1;
                                c
                            }
                        },
                        TokenKind::CloseParen | TokenKind::CloseBracket => {
                            if !self.match_brackets {
                                "\x1b[0;90m"
                            } else {
                                if paren_idx < 1 {
                                    paren_idx = 6;
                                }
                                paren_idx -= 1;
                                bracket(paren_idx)
                            }
                        },
                        TokenKind::Number(_) => "\x1b[0;36m",
                        TokenKind::String(_) | TokenKind::Char(_) => "\x1b[0;33m",
                        TokenKind::Bool(_) | TokenKind::Nil => "\x1b[3;32m",
                        TokenKind::Symbol(_) => if is_fn {
                            "\x1b[0;35m"
                        } else {
                            "\x1b[0;37m"
                        },
                        TokenKind::Keyword(_) => "\x1b[0;34m",
                    };
                    is_fn = match &t.kind {
                        TokenKind::OpenParen => true,
                        _ => false,
                    };
                    (color, t.span.bytes.start)
                },
                Ok(None) => {
                    break ;
                },
                Err(e) => {
                    is_fn = false;
                    ("\x1b[31m", e.span.bytes.start)
                },
            };
            let ghost from = s.from;
            let ghost mark = next as int;
            proof {
                lemma_offset_monotone(text, next as int, from);
                lemma_offset_monotone(text, from, text.len() as int);
                assert(end == offset(text, from));
                assert(colored@ =~= done + text.subrange(mark, next as int));
            }
            while start < end
                invariant
                    chars@ == text,
                    total == text.len(),
                    0 <= mark <= next as int <= from <= text.len(),
                    start == offset(text, next as int),
                    end == offset(text, from),
                    (next as int) < from ==> start < end,
                    colored@ == done + text.subrange(mark, next as int),
                ensures
                    next as int == from,
                decreases from - next,
            {
                proof {
                    if next as int == from {
                        assert(false);
                    }
                    lemma_offset_monotone(text, next as int + 1, from);
                }
                let c = chars[next];
                colored.push(c);
                start = start + char_width(c);
                next = next + 1;
                assert(colored@ =~= done + text.subrange(mark, next as int));
            }
            proof {
                if (next as int) < from {
                    lemma_offset_monotone(text, next as int + 1, from);
                }
            }
            colored.append(color);
            proof {
                if reads_numbers(host) {
                    let kind = read_kind(host, s.found);
                    assert(color@ == colour(self.matching(), before, kind));
                    assert(Memory { depth: paren_idx as int, after_paren: is_fn } == remember(
                        self.matching(),
                        before,
                        kind,
                    ));
                    assert(colored@ + painted(
                        host,
                        self.matching(),
                        text,
                        lexer.position(),
                        next as int,
                        Memory { depth: paren_idx as int, after_paren: is_fn },
                    ) =~= done + painted(host, self.matching(), text, pos, mark, before));
                }
            }
        }
        let ghost done = colored@;
        let ghost mark = next as int;
        while next < total
            invariant
                chars@ == text,
                total == text.len(),
                0 <= mark <= next as int <= text.len(),
                colored@ == done + text.subrange(mark, next as int),
            decreases total - next,
        {
            colored.push(chars[next]);
            next = next + 1;
            assert(colored@ =~= done + text.subrange(mark, next as int));
        }
        colored.append("\x1b[0m");
        proof {
            assert(colored@ =~= done + text.subrange(mark, text.len() as int) + "\x1b[0m"@);
        }
        colored
    }
}

/// What a piece of a snippet is, for a style sheet.
#[derive(Debug, Clone, Copy, PartialEq, Eq, Structural)]
pub enum Class {
    Comment,
    Bracket,
    Number,
    Bool,
    String,
    /// A symbol right after a `(`: the name of what is called.
    SymbolCall,
    Symbol,
    Keyword,
    Nil,
    Error,
}

/// The name of a class in a style sheet.
pub open spec fn class_name(class: Class) -> Seq<char> {
    match class {
        Class::Comment => "faye-comment"@,
        Class::Bracket => "faye-bracket"@,
        Class::Number => "faye-number"@,
        Class::Bool => "faye-bool"@,
        Class::String => "faye-string"@,
        Class::SymbolCall => "faye-symbol-call"@,
        Class::Symbol => "faye-symbol"@,
        Class::Keyword => "faye-keyword"@,
        Class::Nil => "faye-nil"@,
        Class::Error => "faye-error"@,
    }
}

impl Class {
    /// The name of the class in a style sheet.
    pub fn name(&self) -> (r: &'static str)
        ensures
            r@ == class_name(*self),
    {
        match self {
            Class::Comment => "faye-comment",
            Class::Bracket => "faye-bracket",
            Class::Number => "faye-number",
            Class::Bool => "faye-bool",
            Class::String => "faye-string",
            Class::SymbolCall => "faye-symbol-call",
            Class::Symbol => "faye-symbol",
            Class::Keyword => "faye-keyword",
            Class::Nil => "faye-nil",
            Class::Error => "faye-error",
        }
    }
}

/// The class of a token, or of an error.
pub open spec fn class_of(after_paren: bool, kind: Option<Lexeme>) -> Class {
    match kind {
        None => Class::Error,
        Some(Lexeme::Comment(_)) => Class::Comment,
        Some(Lexeme::OpenParen) | Some(Lexeme::CloseParen) | Some(Lexeme::OpenBracket) | Some(
            Lexeme::CloseBracket,
        ) => Class::Bracket,
        Some(Lexeme::Number(_)) => Class::Number,
        Some(Lexeme::Bool(_)) => Class::Bool,
        Some(Lexeme::String(_)) | Some(Lexeme::Char(_)) => Class::String,
        Some(Lexeme::Symbol(_)) => if after_paren {
            Class::SymbolCall
        } else {
            Class::Symbol
        },
        Some(Lexeme::Keyword(_)) => Class::Keyword,
        Some(Lexeme::Nil) => Class::Nil,
    }
}

/// A piece of a snippet and what it is.
#[derive(Debug, PartialEq, Eq)]
pub struct Piece {
    pub text: String,
    pub class: Class,
}

/// The pieces of the text from the character `mark` on: each ends where
/// the span of a token or an error ends that the lexer finds from `pos`
/// on, and has its class. What stands after the last of them belongs to no
/// piece.
pub open spec fn pieces<H: Host>(
    host: &H,
    text: Seq<char>,
    pos: int,
    mark: int,
    after_paren: bool,
) -> Seq<(Seq<char>, Class)>
    decreases text.len() - pos,
{
    let s = scan(text, pos);
    if pos < 0 || pos > text.len() || s.found is End {
        Seq::empty()
    } else {
        proof {
            lemma_scan(text, pos);
        }
        let kind = read_kind(host, s.found);
        seq![(text.subrange(mark, s.to), class_of(after_paren, kind))] + pieces(
            host,
            text,
            s.next,
            s.to,
            kind == Some(Lexeme::OpenParen),
        )
    }
}

/// The pieces as sequences of characters.
pub open spec fn shown_pieces(made: Seq<Piece>) -> Seq<(Seq<char>, Class)> {
    made.map_values(|p: Piece| (p.text@, p.class))
}

/// The snippet cut into pieces, one for each token or error, each with
/// what it is.
pub fn classes<H: Host>(snippet: &str, host: &H) -> (r: Vec<Piece>)
    ensures
        reads_numbers(host) ==> shown_pieces(r@) == pieces(host, snippet@, 0, 0, false),
{
    let chars = decode(snippet);
    let mut lexer = Lexer::new(snippet);
    let mut made: Vec<Piece> = Vec::new();
    let mut is_fn = false;
    // the character up to which the snippet is copied, and its offset
    let mut next: usize = 0;
    let mut start: usize = 0;
    let ghost text = snippet@;
    let ghost origin = lexer.origin();
    let ghost goal = pieces(host, text, 0, 0, false);
    // the offsets of the text are as many as its bytes
    let size: usize = snippet.as_bytes().len();
    let total: usize = chars.len();
    proof {
        lemma_offset_encoded(text, text.len() as int);
        assert(text.take(text.len() as int) =~= text);
    }
    assert(shown_pieces(made@) =~= Seq::<(Seq<char>, Class)>::empty());
    loop
        invariant_except_break
            reads_numbers(host) ==> shown_pieces(made@) + pieces(
                host,
                text,
                lexer.position(),
                next as int,
                is_fn,
            ) == goal,
        invariant
            chars@ == text,
            total == text.len(),
            lexer.text() == text,
            lexer.origin() == origin,
            goal == pieces(host, text, 0, 0, false),
            0 <= next <= lexer.position() <= text.len(),
            start == offset(text, next as int),
            offset(text, text.len() as int) <= usize::MAX,
        ensures
            reads_numbers(host) ==> shown_pieces(made@) == goal,
        decreases text.len() - lexer.position(),
    {
        let ghost pos = lexer.position();
        let ghost s = scan(text, pos);
        let ghost done = shown_pieces(made@);
        let ghost was_fn = is_fn;
        let read = lexer.read(host);
        proof {
            lemma_scan(text, pos);
            if reads_numbers(host) {
                lemma_reads(host, origin, text, pos, read);
            }
        }
        let (class, end) = match &read {
            Ok(Some(t)) => {
                let class = match &t.kind {
                    TokenKind::Comment(_) => Class::Comment,
                    TokenKind::OpenParen
                    | TokenKind::CloseParen
                    | TokenKind::OpenBracket
                    | TokenKind::CloseBracket => Class::Bracket,
                    TokenKind::Number(_) => Class::Number,
                    TokenKind::Bool(_) => Class::Bool,
                    TokenKind::String(_) | TokenKind::Char(_) => Class::String,
                    TokenKind::Symbol(_) => if is_fn {
                        Class::SymbolCall
                    } else {
                        Class::Symbol
                    },
                    TokenKind::Keyword(_) => Class::Keyword,
                    TokenKind::Nil => Class::Nil,
                };
                is_fn = match &t.kind {
                    TokenKind::OpenParen => true,
                    _ => false,
                };
                (class, t.span.bytes.end)
            },
            Ok(None) => {
                proof {
                    if reads_numbers(host) {
                        assert(done + Seq::<(Seq<char>, Class)>::empty() =~= done);
                    }
                }
                break ;
            },
            Err(e) => {
                is_fn = false;
                (Class::Error, e.span.bytes.end)
            },
        };
        let ghost to = s.to;
        let ghost mark = next as int;
        let mut piece = String::new();
        proof {
            lemma_offset_monotone(text, next as int, to);
            lemma_offset_monotone(text, to, text.len() as int);
            assert(end == offset(text, to));
            assert(piece@ =~= text.subrange(mark, next as int));
        }
        while start < end
            invariant
                chars@ == text,
                total == text.len(),
                0 <= mark <= next as int <= to <= text.len(),
                start == offset(text, next as int),
                end == offset(text, to),
                (next as int) < to ==> start < end,
                piece@ == text.subrange(mark, next as int),
            ensures
                next as int == to,
            decreases to - next,
        {
            proof {
                if next as int == to {
                    assert(false);
                }
                lemma_offset_monotone(text, next as int + 1, to);
            }
            let c = chars[next];
            piece.push(c);
            start = start + char_width(c);
            next = next + 1;
            assert(piece@ =~= text.subrange(mark, next as int));
        }
        let made_piece = Piece { text: piece, class };
        proof {
            assert(shown_pieces(made@.push(made_piece)) =~= done.push((made_piece.text@, class)));
            if reads_numbers(host) {
                let kind = read_kind(host, s.found);
                assert(class == class_of(was_fn, kind));
                assert(is_fn == (kind == Some(Lexeme::OpenParen)));
                assert(done.push((made_piece.text@, class)) + pieces(
                    host,
                    text,
                    lexer.position(),
                    next as int,
                    is_fn,
                ) =~= done + pieces(host, text, pos, mark, was_fn));
            }
        }
        made.push(made_piece);
    }
    made
}

} // verus!
