//! What a line editor asks of the language: what a key does to the
//! brackets, and which names complete the word under the cursor.

use crate::lexer::Symbol;
use crate::text::{is_separator, separator};
use vstd::prelude::*;
use vstd::utf8::encode_utf8;

verus! {

/// What typing a character does.
#[derive(Debug, Clone, Copy, PartialEq, Eq, Structural)]
pub struct Typed {
    /// Whether the character is put into the text. Where not, the cursor
    /// only steps over the same character, which is there already.
    pub insert: bool,
    /// The closing bracket that is put after the character, if any.
    pub close: Option<char>,
}

/// What typing `c` does where `next` is the character at the cursor.
///
/// A closing bracket before the same closing bracket is not put in a second
/// time. An opening bracket at the end of the text or before a separator
/// brings its closing bracket with it.
pub open spec fn typing(next: Option<char>, c: char) -> Typed {
    Typed {
        insert: !((c == ')' || c == ']') && next == Some(c)),
        close: if (c == '(' || c == '[') && (next matches Some(n) ==> is_separator(n)) {
            if c == '(' {
                Some(')')
            } else {
                Some(']')
            }
        } else {
            None
        },
    }
}

/// What typing `c` does where `next` is the character at the cursor.
pub fn typed(next: Option<char>, c: char) -> (r: Typed)
    ensures
        r == typing(next, c),
{
    let same = match next {
        Some(n) => n == c,
        None => false,
    };
    let free = match next {
        Some(n) => separator(n),
        None => true,
    };
    Typed {
        insert: !((c == ')' || c == ']') && same),
        close: if (c == '(' || c == '[') && free {
            if c == '(' {
                Some(')')
            } else {
                Some(']')
            }
        } else {
            None
        },
    }
}

/// A byte that is a separator of the language.
pub open spec fn separates(b: u8) -> bool {
    b == 0x20 || b == 0x09 || b == 0x0a || b == 0x0c || b == 0x0d || b == 0x28 || b == 0x29 || b
        == 0x5b || b == 0x5d || b == 0x3b || b == 0x2c
}

/// A byte that is white space.
pub open spec fn blank(b: u8) -> bool {
    b == 0x20 || b == 0x09 || b == 0x0a || b == 0x0c || b == 0x0d
}

/// The offset after the last byte before `at` for which `stop` holds; zero
/// where there is none.
pub open spec fn back_to(bytes: Seq<u8>, at: int, stop: spec_fn(u8) -> bool) -> int
    decreases at,
{
    if at <= 0 || at > bytes.len() {
        0
    } else if stop(bytes[at - 1]) {
        at
    } else {
        back_to(bytes, at - 1, stop)
    }
}

/// The offset of the first byte at or after `at` that is a separator; the
/// length of the text where there is none.
pub open spec fn on_to(bytes: Seq<u8>, at: int) -> int
    decreases bytes.len() - at,
{
    if at < 0 || at >= bytes.len() {
        bytes.len() as int
    } else if separates(bytes[at]) {
        at
    } else {
        on_to(bytes, at + 1)
    }
}

/// All bytes from `from` up to `to` are white space.
pub open spec fn all_blank(bytes: Seq<u8>, from: int, to: int) -> bool {
    forall|i: int| from <= i < to ==> blank(#[trigger] bytes[i])
}

/// `text` begins with `word`.
pub open spec fn begins_with(text: Seq<u8>, word: Seq<u8>) -> bool {
    word.len() <= text.len() && text.subrange(0, word.len() as int) == word
}

/// Those of the first `n` names that begin with `word`, in order.
pub open spec fn beginning(names: Seq<Seq<char>>, n: int, word: Seq<u8>) -> Seq<Seq<char>>
    decreases n,
{
    if n <= 0 {
        Seq::empty()
    } else if begins_with(encode_utf8(names[n - 1]), word) {
        beginning(names, n - 1, word).push(names[n - 1])
    } else {
        beginning(names, n - 1, word)
    }
}

/// The word under the cursor and what may stand in its place.
pub struct Completion {
    /// The offset at which the word begins.
    pub start: usize,
    /// The offset at which the word ends.
    pub end: usize,
    /// The names that begin with the word.
    pub results: Vec<String>,
}

/// The word of `bytes` around the offset `cursor`: from after the last
/// separator before the cursor to the first separator at or after it.
pub open spec fn word_start(bytes: Seq<u8>, cursor: int) -> int {
    back_to(bytes, cursor, |b: u8| separates(b))
}

/// Whether anything may be completed at the cursor: the line up to the end
/// of the word under the cursor is not blank.
pub open spec fn completes(bytes: Seq<u8>, cursor: int) -> bool {
    let end = on_to(bytes, cursor);
    !all_blank(bytes, back_to(bytes, end, |b: u8| b == 0x0a), end)
}

fn is_separator_byte(b: u8) -> (r: bool)
    ensures
        r == separates(b),
{
    b == 0x20 || b == 0x09 || b == 0x0a || b == 0x0c || b == 0x0d || b == 0x28 || b == 0x29 || b
        == 0x5b || b == 0x5d || b == 0x3b || b == 0x2c
}

fn is_blank_byte(b: u8) -> (r: bool)
    ensures
        r == blank(b),
{
    b == 0x20 || b == 0x09 || b == 0x0a || b == 0x0c || b == 0x0d
}

/// Whether `text` begins with the bytes `from..to` of `bytes`.
fn starts_with(text: &[u8], bytes: &[u8], from: usize, to: usize) -> (r: bool)
    requires
        from <= to <= bytes@.len(),
    ensures
        r == begins_with(text@, bytes@.subrange(from as int, to as int)),
{
    let n = to - from;
    let ghost word = bytes@.subrange(from as int, to as int);
    if n > text.len() {
        return false;
    }
    let mut i: usize = 0;
    while i < n
        invariant
            i <= n,
            n == to - from,
            n <= text@.len(),
            from <= to <= bytes@.len(),
            word == bytes@.subrange(from as int, to as int),
            forall|j: int| 0 <= j < i ==> text@[j] == #[trigger] word[j],
        decreases n - i,
    {
        if text[i] != bytes[from + i] {
            assert(text@.subrange(0, word.len() as int)[i as int] != word[i as int]);
            return false;
        }
        i += 1;
    }
    assert(text@.subrange(0, word.len() as int) =~= word);
    true
}

/// The names that complete the word under the cursor, which stands at the
/// offset `cursor` of `buffer`. None where the line of the cursor is blank
/// up to the end of that word.
pub fn complete(buffer: &str, cursor: usize, names: &Vec<Symbol>) -> (r: Option<Completion>)
    requires
        cursor <= encode_utf8(buffer@).len(),
    ensures
        r is Some == completes(encode_utf8(buffer@), cursor as int),
        r matches Some(c) ==> c.start == word_start(encode_utf8(buffer@), cursor as int) && c.end
            == on_to(encode_utf8(buffer@), cursor as int) && c.start <= cursor <= c.end
            && crate::eval::show::texts(c.results@) == beginning(
            crate::eval::expr::names(names@),
            names@.len() as int,
            encode_utf8(buffer@).subrange(c.start as int, c.end as int),
        ),
{
    let bytes = buffer.as_bytes();
    let ghost all = bytes@;
    let mut start = cursor;
    while start > 0 && !is_separator_byte(bytes[start - 1])
        invariant
            start <= cursor <= bytes@.len(),
            bytes@ == all,
            back_to(all, start as int, |b: u8| separates(b)) == back_to(
                all,
                cursor as int,
                |b: u8| separates(b),
            ),
        decreases start,
    {
        start -= 1;
    }
    let mut end = cursor;
    while end < bytes.len() && !is_separator_byte(bytes[end])
        invariant
            cursor <= end <= bytes@.len(),
            bytes@ == all,
            on_to(all, end as int) == on_to(all, cursor as int),
        decreases bytes.len() - end,
    {
        end += 1;
    }
    let mut line = end;
    while line > 0 && bytes[line - 1] != 0x0a
        invariant
            line <= end <= bytes@.len(),
            bytes@ == all,
            back_to(all, line as int, |b: u8| b == 0x0a) == back_to(
                all,
                end as int,
                |b: u8| b == 0x0a,
            ),
        decreases line,
    {
        line -= 1;
    }
    let mut at = line;
    let mut only_blank = true;
    while at < end
        invariant
            line <= at <= end <= bytes@.len(),
            bytes@ == all,
            only_blank == all_blank(all, line as int, at as int),
        decreases end - at,
    {
        if !is_blank_byte(bytes[at]) {
            only_blank = false;
        }
        at += 1;
    }
    if only_blank {
        return None;
    }
    let mut results: Vec<String> = Vec::new();
    let mut i: usize = 0;
    let ghost word = all.subrange(start as int, end as int);
    assert(crate::eval::show::texts(results@) =~= Seq::<Seq<char>>::empty());
    while i < names.len()
        invariant
            i <= names.len(),
            start <= end <= bytes@.len(),
            bytes@ == all,
            word == all.subrange(start as int, end as int),
            crate::eval::show::texts(results@) == beginning(
                crate::eval::expr::names(names@),
                i as int,
                word,
            ),
        decreases names.len() - i,
    {
        let name = names[i].0.as_str();
        if starts_with(name.as_bytes(), bytes, start, end) {
            let copy = names[i].0.clone();
            assert(crate::eval::show::texts(results@.push(copy)) =~= crate::eval::show::texts(
                results@,
            ).push(copy@));
            results.push(copy);
        }
        i += 1;
    }
    Some(Completion { start, end, results })
}

} // verus!
