//! Source texts and byte ranges into them.
//!
//! A [`Source`] owns a text together with the byte offsets at which its
//! lines end. A [`Span`] is a half-open range of bytes of one shared source,
//! and converts to a line and a column on demand.

use std::ops::Range;
use std::sync::Arc;
use vstd::prelude::*;
use vstd::string::StringSliceAdditionalSpecFns;
use vstd::utf8::*;

verus! {

/// A line and a column in a source text, both counted from zero. The column
/// counts characters, not bytes.
#[derive(Debug, Clone, Copy, PartialEq, Eq, Structural)]
pub struct Location {
    pub line: usize,
    pub column: usize,
}

impl Default for Location {
    /// The first column of the first line.
    fn default() -> (r: Self)
        ensures
            r.line == 0,
            r.column == 0,
    {
        Self { line: 0, column: 0 }
    }
}

impl Location {
    /// The location at line `line` and column `column`.
    pub fn new(line: usize, column: usize) -> (r: Self)
        ensures
            r.line == line,
            r.column == column,
    {
        Self { line, column }
    }
}

/// The offsets below `n` at which `bytes` holds a line feed, in rising order.
pub open spec fn newlines(bytes: Seq<u8>, n: int) -> Seq<int>
    decreases n,
{
    if n <= 0 {
        Seq::empty()
    } else if n <= bytes.len() && bytes[n - 1] == 10u8 {
        newlines(bytes, n - 1).push(n - 1)
    } else {
        newlines(bytes, n - 1)
    }
}

/// The offsets at which the lines of `bytes` end: each line feed, and
/// after them the length of the text.
pub open spec fn line_ends(bytes: Seq<u8>) -> Seq<int> {
    newlines(bytes, bytes.len() as int).push(bytes.len() as int)
}

/// The number of bytes in `bytes[lo..hi]` that begin a character, that is,
/// that are no UTF-8 continuation bytes.
pub open spec fn leads(bytes: Seq<u8>, lo: int, hi: int) -> nat
    decreases hi - lo,
{
    if hi <= lo || lo < 0 || hi > bytes.len() {
        0
    } else if is_continuation_byte(bytes[hi - 1]) {
        leads(bytes, lo, hi - 1)
    } else {
        leads(bytes, lo, hi - 1) + 1
    }
}

/// The line on which the byte at `offset` stands: the number of line feeds
/// before it.
pub open spec fn line_of(bytes: Seq<u8>, offset: int) -> nat {
    newlines(bytes, offset).len()
}

/// The offset at which the line of the byte at `offset` begins.
pub open spec fn line_start(bytes: Seq<u8>, offset: int) -> int {
    if newlines(bytes, offset).len() == 0 {
        0
    } else {
        newlines(bytes, offset).last() + 1
    }
}

/// The column of the byte at `offset`: the number of characters between the
/// start of its line and it.
pub open spec fn column_of(bytes: Seq<u8>, offset: int) -> nat {
    leads(bytes, line_start(bytes, offset), offset)
}

/// The line feeds below an offset stand below it, at line feeds, in rising
/// order.
pub proof fn lemma_newlines(bytes: Seq<u8>, n: int)
    requires
        0 <= n <= bytes.len(),
    ensures
        newlines(bytes, n).len() <= n,
        forall|i: int|
            0 <= i < newlines(bytes, n).len() ==> 0 <= #[trigger] newlines(bytes, n)[i] < n
                && bytes[newlines(bytes, n)[i]] == 10u8,
        forall|i: int, j: int|
            0 <= i < j < newlines(bytes, n).len() ==> newlines(bytes, n)[i] < newlines(bytes, n)[j],
    decreases n,
{
    if n > 0 {
        lemma_newlines(bytes, n - 1);
    }
}

/// The line feeds below `n` are the first of those below `m`; the others
/// stand at `n` or after.
pub proof fn lemma_newlines_prefix(bytes: Seq<u8>, n: int, m: int)
    requires
        0 <= n <= m <= bytes.len(),
    ensures
        newlines(bytes, n).len() <= newlines(bytes, m).len(),
        newlines(bytes, n) =~= newlines(bytes, m).take(newlines(bytes, n).len() as int),
        forall|i: int|
            newlines(bytes, n).len() <= i < newlines(bytes, m).len() ==> n <= #[trigger] newlines(
                bytes,
                m,
            )[i],
    decreases m - n,
{
    if n < m {
        lemma_newlines_prefix(bytes, n, m - 1);
        lemma_newlines(bytes, m - 1);
    }
}

/// A text with an optional name.
#[derive(Debug)]
pub struct Source {
    name: Option<String>,
    contents: String,
    lines: Vec<usize>,
}

impl Source {
    #[verifier::type_invariant]
    spec fn inv(self) -> bool {
        self.lines@.map_values(|x: usize| x as int) == line_ends(encode_utf8(self.contents@))
    }

    /// The characters of the text.
    pub closed spec fn text(&self) -> Seq<char> {
        self.contents@
    }

    /// The bytes of the text, in UTF-8.
    pub open spec fn bytes(&self) -> Seq<u8> {
        encode_utf8(self.text())
    }

    /// The name, if the source has one.
    pub closed spec fn label(&self) -> Option<Seq<char>> {
        match self.name {
            Some(n) => Some(n@),
            None => None,
        }
    }

    /// A source of the text `contents`, with or without a name.
    pub fn new(name: Option<String>, contents: String) -> (r: Self)
        ensures
            r.text() == contents@,
            r.label() == match name {
                Some(n) => Some(n@),
                None => None,
            },
    {
        let mut lines: Vec<usize> = Vec::new();
        let bytes = contents.as_str().as_bytes();
        let n = bytes.len();
        let mut i: usize = 0;
        while i < n
            invariant
                i <= n,
                n == bytes@.len(),
                lines@.map_values(|x: usize| x as int) == newlines(bytes@, i as int),
            decreases n - i,
        {
            if bytes[i] == 10u8 {
                lines.push(i);
                assert(lines@.map_values(|x: usize| x as int) =~= newlines(bytes@, i as int).push(
                    i as int,
                ));
            }
            i += 1;
        }
        lines.push(n);
        assert(lines@.map_values(|x: usize| x as int) =~= line_ends(bytes@));
        Self { name, contents, lines }
    }

    /// The name, if the source has one.
    pub fn name(&self) -> (r: Option<&str>)
        ensures
            r.is_some() == self.label().is_some(),
            r.is_some() ==> r.unwrap()@ == self.label().unwrap(),
    {
        match &self.name {
            Some(n) => Some(n.as_str()),
            None => None,
        }
    }

    /// Gives the source the name `name`.
    pub fn set_name(&mut self, name: String)
        ensures
            final(self).label() == Some(name@),
            final(self).text() == old(self).text(),
    {
        proof {
            use_type_invariant(&*self);
        }
        self.name = Some(name);
    }

    /// The text.
    pub fn contents(&self) -> (r: &str)
        ensures
            r@ == self.text(),
    {
        self.contents.as_str()
    }

    /// The number of entries of the line table that are below `byte`.
    fn lines_below(&self, byte: usize) -> (r: usize)
        requires
            byte <= self.bytes().len(),
        ensures
            r == line_of(self.bytes(), byte as int),
            r < self.lines@.len(),
            r > 0 ==> self.lines@[r - 1] < byte,
            r > 0 ==> self.lines@[r - 1] + 1 == line_start(self.bytes(), byte as int),
            r == 0 ==> line_start(self.bytes(), byte as int) == 0,
    {
        proof {
            use_type_invariant(self);
            lemma_newlines(self.bytes(), self.bytes().len() as int);
            lemma_newlines_prefix(self.bytes(), byte as int, self.bytes().len() as int);
            lemma_newlines(self.bytes(), byte as int);
        }
        let ghost ends = line_ends(self.bytes());
        let ghost k = newlines(self.bytes(), byte as int).len() as int;
        assert(forall|i: int| 0 <= i < self.lines@.len() ==> self.lines@[i] as int == #[trigger] ends[i]) by {
            assert forall|i: int| 0 <= i < self.lines@.len() implies self.lines@[i] as int
                == #[trigger] ends[i] by {
                assert(self.lines@.map_values(|x: usize| x as int)[i] == self.lines@[i] as int);
            }
        }
        assert(self.lines@.len() == ends.len());
        assert(forall|i: int| 0 <= i < k ==> #[trigger] ends[i] < byte) by {
            assert forall|i: int| 0 <= i < k implies #[trigger] ends[i] < byte by {
                assert(ends[i] == newlines(self.bytes(), byte as int)[i]);
            }
        }
        assert(forall|i: int| k <= i < ends.len() ==> #[trigger] ends[i] >= byte);
        let mut lo: usize = 0;
        let mut hi: usize = self.lines.len();
        while lo < hi
            invariant
                0 <= lo <= k <= hi <= self.lines@.len(),
                self.lines@.len() == ends.len(),
                k < ends.len(),
                forall|i: int| 0 <= i < self.lines@.len() ==> self.lines@[i] as int == #[trigger] ends[i],
                forall|i: int| 0 <= i < k ==> #[trigger] ends[i] < byte,
                forall|i: int| k <= i < ends.len() ==> #[trigger] ends[i] >= byte,
            decreases hi - lo,
        {
            let mid = lo + (hi - lo) / 2;
            if self.lines[mid] < byte {
                assert(ends[mid as int] < byte);
                lo = mid + 1;
            } else {
                assert(ends[mid as int] >= byte);
                hi = mid;
            }
        }
        proof {
            if k > 0 {
                assert(ends[k - 1] == newlines(self.bytes(), byte as int)[k - 1]);
            }
        }
        lo
    }

    /// The line and the column of the byte at offset `byte`.
    pub fn location(&self, byte: usize) -> (r: Location)
        requires
            byte <= self.bytes().len(),
        ensures
            r.line == line_of(self.bytes(), byte as int),
            r.column == column_of(self.bytes(), byte as int),
    {
        let line = self.lines_below(byte);
        let start = if line == 0 {
            0
        } else {
            self.lines[line - 1] + 1
        };
        proof {
            lemma_newlines(self.bytes(), byte as int);
        }
        let bytes = self.contents.as_str().as_bytes();
        let mut column: usize = 0;
        let mut i: usize = start;
        while i < byte
            invariant
                start <= i <= byte <= bytes@.len(),
                bytes@ == self.bytes(),
                column == leads(bytes@, start as int, i as int),
                column <= i - start,
            decreases byte - i,
        {
            let b = bytes[i];
            if !(0x80 <= b && b <= 0xbf) {
                column += 1;
            }
            i += 1;
        }
        Location::new(line, column)
    }

    /// The number of lines: one more than the number of line feeds.
    pub open spec fn line_count(&self) -> nat {
        line_ends(self.bytes()).len()
    }

    /// The number of lines: one more than the number of line feeds.
    pub fn count_lines(&self) -> (r: usize)
        ensures
            r == self.line_count(),
            r >= 1,
    {
        proof {
            use_type_invariant(self);
        }
        assert(self.lines@.map_values(|x: usize| x as int).len() == self.lines@.len());
        self.lines.len()
    }

    /// The offset at which line `line` begins.
    pub open spec fn start_of_line(&self, line: int) -> int {
        if line <= 0 {
            0
        } else {
            line_ends(self.bytes())[line - 1] + 1
        }
    }

    /// The text of line `line`, without the line feed that ends it.
    pub fn get_line(&self, line: usize) -> (r: &str)
        requires
            line < self.line_count(),
        ensures
            encode_utf8(r@) == self.bytes().subrange(
                self.start_of_line(line as int),
                line_ends(self.bytes())[line as int],
            ),
    {
        broadcast use vstd::utf8::group_utf8_lib;

        proof {
            use_type_invariant(self);
            lemma_newlines(self.bytes(), self.bytes().len() as int);
        }
        let ghost bytes = self.bytes();
        let ghost ends = line_ends(bytes);
        assert(self.lines@.len() == ends.len());
        assert(self.lines@.map_values(|x: usize| x as int)[line as int] == self.lines@[line as int]);
        let end = self.lines[line];
        assert(end as int == ends[line as int]);
        let start = if line == 0 {
            0
        } else {
            assert(self.lines@.map_values(|x: usize| x as int)[line - 1] == self.lines@[line - 1]);
            self.lines[line - 1] + 1
        };
        assert(start as int == self.start_of_line(line as int));
        assert(start <= end <= bytes.len());
        assert(is_char_boundary(bytes, end as int)) by {
            if end < bytes.len() {
                lemma_after_ascii(bytes, end as int);
            }
        }
        let (head, _) = self.contents.as_str().split_at(end);
        let ghost head_bytes = head.spec_bytes();
        assert(head_bytes =~= bytes.subrange(0, end as int));
        assert(is_char_boundary(head_bytes, start as int)) by {
            if start > 0 {
                lemma_after_ascii(head_bytes, start - 1);
            }
        }
        let (_, tail) = head.split_at(start);
        assert(tail.spec_bytes() =~= bytes.subrange(start as int, end as int));
        tail
    }
}

impl Default for Source {
    /// The empty text without a name.
    fn default() -> (r: Self)
        ensures
            r.text() == Seq::<char>::empty(),
            r.label() == None::<Seq<char>>,
    {
        Self::new(None, String::new())
    }
}

/// In valid UTF-8 a byte below 0x80 is a character of its own: a character
/// begins at it and another, or the end, right after it.
pub proof fn lemma_after_ascii(bytes: Seq<u8>, i: int)
    requires
        valid_utf8(bytes),
        0 <= i < bytes.len(),
        bytes[i] < 0x80,
    ensures
        is_char_boundary(bytes, i),
        is_char_boundary(bytes, i + 1),
    decreases bytes.len(),
{
    reveal_with_fuel(is_char_boundary, 3);
    reveal_with_fuel(valid_utf8, 2);
    let n = length_of_first_scalar(bytes);
    is_char_boundary_iff_not_is_continuation_byte(bytes, i);
    if i == 0 {
        assert(n == 1);
    } else if i < n {
        assert(false);
    } else {
        lemma_after_ascii(pop_first_scalar(bytes), i - n);
    }
}

/// `Arc::clone` of the standard library hands out another handle to the
/// same source; the source itself is neither copied nor changed.
#[verifier::external_body]
pub(crate) fn share(source: &Arc<Source>) -> (r: Arc<Source>)
    ensures
        r == *source,
{
    Arc::clone(source)
}

/// `Arc::ptr_eq` of the standard library tells whether two handles point to
/// the same allocation. Where they do, they hold the same source; two
/// handles to equal texts may still be told apart.
#[verifier::external_body]
fn same_allocation(a: &Arc<Source>, b: &Arc<Source>) -> (r: bool)
    ensures
        r ==> *a == *b,
{
    Arc::ptr_eq(a, b)
}

/// A half-open range of bytes of a shared source.
#[derive(Debug)]
pub struct Span {
    pub bytes: Range<usize>,
    pub source: Arc<Source>,
}

impl Clone for Span {
    fn clone(&self) -> (r: Self)
        ensures
            r == *self,
    {
        Span { bytes: Range { start: self.bytes.start, end: self.bytes.end }, source: share(&self.source) }
    }
}

/// Two spans are equal where they cover the same bytes of the very same
/// source object.
impl PartialEq for Span {
    fn eq(&self, other: &Self) -> (r: bool) {
        self.same_source(other) && self.bytes.start == other.bytes.start && self.bytes.end
            == other.bytes.end
    }
}

impl vstd::std_specs::cmp::PartialEqSpecImpl for Span {
    /// Whether two spans share a source object is no function of their
    /// values, so `==` has no meaning in contracts.
    open spec fn obeys_eq_spec() -> bool {
        false
    }

    open spec fn eq_spec(&self, other: &Self) -> bool {
        self.bytes == other.bytes && self.source == other.source
    }
}

impl Default for Span {
    /// The empty span of an empty source without a name.
    fn default() -> (r: Self)
        ensures
            r.bytes.start == 0,
            r.bytes.end == 0,
            r.source.text() == Seq::<char>::empty(),
            r.source.label() == None::<Seq<char>>,
            r.wf(),
    {
        Span { bytes: Range { start: 0, end: 0 }, source: Arc::new(Source::new(None, String::new())) }
    }
}

impl Span {
    /// The range lies within the source.
    pub open spec fn wf(&self) -> bool {
        self.bytes.start <= self.bytes.end <= self.source.bytes().len()
    }

    /// The span of the bytes `bytes` of `source`.
    pub fn new(bytes: Range<usize>, source: Arc<Source>) -> (r: Self)
        ensures
            r.bytes == bytes,
            r.source == source,
    {
        Self { bytes, source }
    }

    /// The span from the start of `self` to the end of `other`, which is a
    /// span of the same source.
    pub fn join(self, other: &Self) -> (r: Self)
        requires
            self.source == other.source,
        ensures
            r.bytes.start == self.bytes.start,
            r.bytes.end == other.bytes.end,
            r.source == self.source,
    {
        Self::new(Range { start: self.bytes.start, end: other.bytes.end }, self.source)
    }

    /// Moves the end of `self` to the end of `other`, which is a span of
    /// the same source.
    pub fn extend(&mut self, other: &Self)
        requires
            old(self).source == other.source,
        ensures
            final(self).bytes.start == old(self).bytes.start,
            final(self).bytes.end == other.bytes.end,
            final(self).source == old(self).source,
    {
        self.bytes.end = other.bytes.end;
    }

    /// The line and column at which the span starts.
    pub fn location(&self) -> (r: Location)
        requires
            self.bytes.start <= self.source.bytes().len(),
        ensures
            r.line == line_of(self.source.bytes(), self.bytes.start as int),
            r.column == column_of(self.source.bytes(), self.bytes.start as int),
    {
        self.source.location(self.bytes.start)
    }

    /// The line and column at which the span ends.
    pub fn end_location(&self) -> (r: Location)
        requires
            self.bytes.end <= self.source.bytes().len(),
        ensures
            r.line == line_of(self.source.bytes(), self.bytes.end as int),
            r.column == column_of(self.source.bytes(), self.bytes.end as int),
    {
        self.source.location(self.bytes.end)
    }

    /// Whether both spans point into the very same source object. Two
    /// sources with equal texts are still two sources.
    pub fn same_source(&self, other: &Self) -> (r: bool)
        ensures
            r ==> self.source == other.source,
    {
        same_allocation(&self.source, &other.source)
    }
}

} // verus!
