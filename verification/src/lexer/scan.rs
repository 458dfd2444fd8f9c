//! What the lexer finds at a position of a text, as a function of the text.

use super::error::Fault;
use super::token::Lexeme;
use crate::span::{Source, Span};
use crate::text::{is_digit, is_separator, is_space, offset};
use std::ops::Range;
use std::sync::Arc;
use vstd::prelude::*;

verus! {

/// The first position at or after `pos` that holds neither white space nor
/// a comma; the length of the text where there is none.
pub open spec fn skip_blank(text: Seq<char>, pos: int) -> int
    decreases text.len() - pos,
{
    if 0 <= pos < text.len() && (is_space(text[pos]) || text[pos] == ',') {
        skip_blank(text, pos + 1)
    } else {
        pos
    }
}

/// The first position at or after `pos` that holds a separator; the length
/// of the text where there is none.
pub open spec fn word_end(text: Seq<char>, pos: int) -> int
    decreases text.len() - pos,
{
    if 0 <= pos < text.len() && !is_separator(text[pos]) {
        word_end(text, pos + 1)
    } else {
        pos
    }
}

/// The first position at or after `pos` that holds a line feed; the length
/// of the text where there is none.
pub open spec fn line_end(text: Seq<char>, pos: int) -> int
    decreases text.len() - pos,
{
    if 0 <= pos < text.len() && text[pos] != '\n' {
        line_end(text, pos + 1)
    } else {
        pos
    }
}

/// The character that stands for `c` after a backslash.
pub open spec fn escape(c: char) -> Option<char> {
    if c == '"' || c == '\\' {
        Some(c)
    } else if c == 'n' {
        Some('\n')
    } else if c == 'e' {
        Some('\x1b')
    } else {
        None
    }
}

/// How the inside of a string literal ends.
pub enum Quoted {
    /// At a closing quote: the text of the literal, and the position after
    /// the quote.
    Closed { text: Seq<char>, next: int },
    /// At a backslash, at `from`, before a character that is no escape.
    BadEscape { c: char, from: int, next: int },
    /// At the end of the text.
    Open,
}

/// Reads the inside of a string literal from `pos` on, with `acc` read so
/// far.
pub open spec fn quoted(text: Seq<char>, pos: int, acc: Seq<char>) -> Quoted
    decreases text.len() - pos,
{
    if pos < 0 || pos >= text.len() {
        Quoted::Open
    } else if text[pos] == '"' {
        Quoted::Closed { text: acc, next: pos + 1 }
    } else if text[pos] == '\\' {
        if pos + 1 >= text.len() {
            Quoted::Open
        } else {
            match escape(text[pos + 1]) {
                Some(c) => quoted(text, pos + 2, acc.push(c)),
                None => Quoted::BadEscape { c: text[pos + 1], from: pos, next: pos + 2 },
            }
        }
    } else {
        quoted(text, pos + 1, acc.push(text[pos]))
    }
}

/// What stands at a position.
pub enum Found {
    /// Nothing but blanks up to the end of the text.
    End,
    /// A token other than a number.
    Token(Lexeme),
    /// A word that begins like a number. Whether it is one, and which, the
    /// host says.
    Numeral(Seq<char>),
    /// An error.
    Fault(Fault),
}

/// What stands at a position, the characters `from..to` that its span
/// covers, and the position `next` at which the lexer goes on.
pub struct Scan {
    pub found: Found,
    pub from: int,
    pub to: int,
    pub next: int,
}

/// A word begins like a number with a digit, or with a sign and a digit.
pub open spec fn starts_number(text: Seq<char>, start: int) -> bool {
    0 <= start < text.len() && (is_digit(text[start]) || ((text[start] == '+' || text[start]
        == '-') && start + 1 < text.len() && is_digit(text[start + 1])))
}

/// The token that a bare word is.
pub open spec fn word_lexeme(word: Seq<char>) -> Lexeme {
    if word == "true"@ {
        Lexeme::Bool(true)
    } else if word == "false"@ {
        Lexeme::Bool(false)
    } else if word == "nil"@ {
        Lexeme::Nil
    } else {
        Lexeme::Symbol(word)
    }
}

/// A string literal whose opening quote stands at `start`.
pub open spec fn scan_string(text: Seq<char>, start: int) -> Scan {
    match quoted(text, start + 1, Seq::empty()) {
        Quoted::Open => Scan {
            found: Found::Fault(Fault::UnclosedString),
            from: start,
            to: start + 1,
            next: text.len() as int,
        },
        Quoted::BadEscape { c, from, next } => Scan {
            found: Found::Fault(Fault::InvalidEscape(c)),
            from,
            to: next,
            next,
        },
        Quoted::Closed { text: inside, next } => if next < text.len() && !is_separator(text[next]) {
            Scan {
                found: Found::Fault(Fault::InvalidString),
                from: start,
                to: word_end(text, next),
                next: word_end(text, next),
            }
        } else {
            Scan { found: Found::Token(Lexeme::String(inside)), from: start, to: next, next }
        },
    }
}

/// The end of a character literal that began at `start` and holds `c`,
/// with `q` the position after `c`.
pub open spec fn close_char(text: Seq<char>, start: int, c: char, q: int) -> Scan {
    if q < text.len() && text[q] == '\'' {
        Scan { found: Found::Token(Lexeme::Char(c)), from: start, to: q + 1, next: q + 1 }
    } else {
        let rest = if q < text.len() {
            q + 1
        } else {
            q
        };
        Scan {
            found: Found::Fault(Fault::InvalidChar),
            from: start,
            to: word_end(text, rest),
            next: word_end(text, rest),
        }
    }
}

/// A character literal whose opening quote stands at `start`.
pub open spec fn scan_char(text: Seq<char>, start: int) -> Scan {
    let p = start + 1;
    if p >= text.len() {
        Scan { found: Found::Fault(Fault::InvalidChar), from: start, to: p, next: p }
    } else if text[p] == '\\' {
        if p + 1 >= text.len() {
            Scan { found: Found::Fault(Fault::UnclosedChar), from: start, to: p + 1, next: p + 1 }
        } else {
            match escape(text[p + 1]) {
                Some(c) => close_char(text, start, c, p + 2),
                None => Scan {
                    found: Found::Fault(Fault::InvalidEscape(text[p + 1])),
                    from: start,
                    to: p + 2,
                    next: p + 2,
                },
            }
        }
    } else {
        close_char(text, start, text[p], p + 1)
    }
}

/// A token of the one character at `start`.
pub open spec fn scan_one(lexeme: Lexeme, start: int) -> Scan {
    Scan { found: Found::Token(lexeme), from: start, to: start + 1, next: start + 1 }
}

/// What begins at `start`, which holds no blank.
pub open spec fn scan_at(text: Seq<char>, start: int) -> Scan
    recommends
        0 <= start < text.len(),
{
    let c = text[start];
    if c == '(' {
        scan_one(Lexeme::OpenParen, start)
    } else if c == ')' {
        scan_one(Lexeme::CloseParen, start)
    } else if c == '[' {
        scan_one(Lexeme::OpenBracket, start)
    } else if c == ']' {
        scan_one(Lexeme::CloseBracket, start)
    } else if starts_number(text, start) {
        let end = word_end(text, start);
        Scan { found: Found::Numeral(text.subrange(start, end)), from: start, to: end, next: end }
    } else if c == ';' {
        let end = line_end(text, start + 1);
        let next = if end < text.len() {
            end + 1
        } else {
            end
        };
        Scan {
            found: Found::Token(Lexeme::Comment(text.subrange(start + 1, end))),
            from: start,
            to: next,
            next,
        }
    } else if c == ':' {
        let end = word_end(text, start + 1);
        Scan {
            found: Found::Token(Lexeme::Keyword(text.subrange(start + 1, end))),
            from: start,
            to: end,
            next: end,
        }
    } else if c == '"' {
        scan_string(text, start)
    } else if c == '\'' {
        scan_char(text, start)
    } else {
        let end = word_end(text, start);
        Scan {
            found: Found::Token(word_lexeme(text.subrange(start, end))),
            from: start,
            to: end,
            next: end,
        }
    }
}

/// What the lexer finds when it reads on from `pos`.
pub open spec fn scan(text: Seq<char>, pos: int) -> Scan {
    let start = skip_blank(text, pos);
    if start >= text.len() {
        Scan { found: Found::End, from: start, to: start, next: start }
    } else {
        scan_at(text, start)
    }
}

/// The span of the characters `from..to` of `text`, which is the text of
/// `source`.
pub open spec fn span_at(source: Arc<Source>, text: Seq<char>, from: int, to: int) -> Span {
    Span {
        bytes: Range { start: offset(text, from) as usize, end: offset(text, to) as usize },
        source,
    }
}

/// Blanks are skipped up to something that is none, or to the end.
pub proof fn lemma_skip_blank(text: Seq<char>, pos: int)
    requires
        0 <= pos <= text.len(),
    ensures
        pos <= skip_blank(text, pos) <= text.len(),
        skip_blank(text, pos) < text.len() ==> !is_space(text[skip_blank(text, pos)])
            && text[skip_blank(text, pos)] != ',',
    decreases text.len() - pos,
{
    if pos < text.len() && (is_space(text[pos]) || text[pos] == ',') {
        lemma_skip_blank(text, pos + 1);
    }
}

/// A word ends at a separator or at the end of the text, and holds none.
pub proof fn lemma_word_end(text: Seq<char>, pos: int)
    requires
        0 <= pos <= text.len(),
    ensures
        pos <= word_end(text, pos) <= text.len(),
        word_end(text, pos) < text.len() ==> is_separator(text[word_end(text, pos)]),
        forall|i: int| pos <= i < word_end(text, pos) ==> !is_separator(#[trigger] text[i]),
    decreases text.len() - pos,
{
    if pos < text.len() && !is_separator(text[pos]) {
        lemma_word_end(text, pos + 1);
    }
}

/// A line ends at a line feed or at the end of the text.
pub proof fn lemma_line_end(text: Seq<char>, pos: int)
    requires
        0 <= pos <= text.len(),
    ensures
        pos <= line_end(text, pos) <= text.len(),
        line_end(text, pos) < text.len() ==> text[line_end(text, pos)] == '\n',
    decreases text.len() - pos,
{
    if pos < text.len() && text[pos] != '\n' {
        lemma_line_end(text, pos + 1);
    }
}

/// What ends the inside of a string literal lies within the text and
/// after the position it was read from.
pub proof fn lemma_quoted(text: Seq<char>, pos: int, acc: Seq<char>)
    requires
        0 <= pos <= text.len(),
    ensures
        match quoted(text, pos, acc) {
            Quoted::Closed { text: _, next } => pos < next <= text.len(),
            Quoted::BadEscape { c: _, from, next } => pos <= from && from + 2 == next && next
                <= text.len(),
            Quoted::Open => true,
        },
    decreases text.len() - pos,
{
    if pos < text.len() && text[pos] != '"' {
        if text[pos] == '\\' {
            if pos + 1 < text.len() {
                match escape(text[pos + 1]) {
                    Some(c) => lemma_quoted(text, pos + 2, acc.push(c)),
                    None => {},
                }
            }
        } else {
            lemma_quoted(text, pos + 1, acc.push(text[pos]));
        }
    }
}

/// What begins at a position lies within the text and ends after the
/// position.
pub proof fn lemma_scan_at(text: Seq<char>, start: int)
    requires
        0 <= start < text.len(),
        !is_space(text[start]),
        text[start] != ',',
    ensures
        start < scan_at(text, start).next <= text.len(),
        start <= scan_at(text, start).from <= scan_at(text, start).to <= text.len(),
        scan_at(text, start).to <= scan_at(text, start).next,
        !(scan_at(text, start).found is End),
        scan_at(text, start).found is Token || scan_at(text, start).found is Numeral ==> scan_at(
            text,
            start,
        ).from == start && scan_at(text, start).to == scan_at(text, start).next,
{
    lemma_word_end(text, start);
    lemma_word_end(text, start + 1);
    lemma_line_end(text, start + 1);
    let c = text[start];
    if c == '"' {
        lemma_quoted(text, start + 1, Seq::empty());
        match quoted(text, start + 1, Seq::empty()) {
            Quoted::Closed { text: _, next } => {
                lemma_word_end(text, next);
            },
            _ => {},
        }
    } else if c == '\'' {
        let p = start + 1;
        if p < text.len() {
            if text[p] == '\\' {
                if p + 1 < text.len() {
                    lemma_close_char(text, start, p + 2);
                }
            } else {
                lemma_close_char(text, start, p + 1);
            }
        }
    }
}

/// What closes a character literal lies within the text, and its span
/// begins where the literal began.
pub proof fn lemma_close_char(text: Seq<char>, start: int, q: int)
    requires
        0 <= start < q <= text.len(),
    ensures
        forall|c: char|
            q <= (#[trigger] close_char(text, start, c, q)).next <= text.len() && close_char(
                text,
                start,
                c,
                q,
            ).to == close_char(text, start, c, q).next && close_char(text, start, c, q).from
                == start,
{
    if q < text.len() {
        lemma_word_end(text, q + 1);
    } else {
        lemma_word_end(text, q);
    }
}

/// Where something other than the end is found, the lexer moves forward.
pub proof fn lemma_scan(text: Seq<char>, pos: int)
    requires
        0 <= pos <= text.len(),
    ensures
        pos <= scan(text, pos).next <= text.len(),
        !(scan(text, pos).found is End) ==> pos < scan(text, pos).next,
        pos <= scan(text, pos).from <= scan(text, pos).to <= scan(text, pos).next,
        scan(text, pos).found is Token || scan(text, pos).found is Numeral ==> scan(text, pos).from
            == skip_blank(text, pos) && scan(text, pos).to == scan(text, pos).next,
{
    lemma_skip_blank(text, pos);
    let start = skip_blank(text, pos);
    if start < text.len() {
        lemma_scan_at(text, start);
    }
}

} // verus!
