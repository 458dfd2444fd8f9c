//! What the language needs from the platform it runs on.
//!
//! Numbers of the language are 64-bit binary floating-point numbers, carried
//! through this library as their bit patterns. Reading, writing and
//! arithmetic on them, and writing to the terminal, are the embedding
//! program's part: it hands them in as a [`Host`].

use vstd::prelude::*;

verus! {

/// The operations that the embedding program supplies. No method carries a
/// contract: the library is verified for whatever they return.
pub trait Host {
    /// Reads a numeric literal; `None` where `text` is none.
    fn parse_number(&self, text: &str) -> Option<u64>;

    /// Writes a number as text.
    fn format_number(&self, number: u64) -> String;

    /// The sum of the numbers, in order.
    fn sum(&self, numbers: &Vec<u64>) -> u64;

    /// The product of the numbers, in order.
    fn product(&self, numbers: &Vec<u64>) -> u64;

    /// `a - b`.
    fn subtract(&self, a: u64, b: u64) -> u64;

    /// `a / b`.
    fn divide(&self, a: u64, b: u64) -> u64;

    /// The whole part of a number as an index: zero below zero and for what
    /// is no number, the largest index above it.
    fn truncate(&self, number: u64) -> usize;

    /// The number that a decimal digit stands for.
    fn from_digit(&self, digit: u32) -> u64;

    /// Prints a line where the output is a terminal, and says whether it did.
    fn print_line(&self, text: &str) -> bool;
}

/// What `parse_number` of `host` returns for `text`, where it is a function
/// of the text (see [`reads_numbers`]).
pub open spec fn parsed<H: Host>(host: &H, text: Seq<char>) -> Option<u64> {
    choose|r: Option<u64>| #[trigger] may_parse(host, text, r)
}

/// Some call of `parse_number` of `host` on `text` returns `r`.
pub open spec fn may_parse<H: Host>(host: &H, text: Seq<char>, r: Option<u64>) -> bool {
    exists|t: &str| t@ == text && #[trigger] call_ensures(H::parse_number, (host, t), r)
}

/// `parse_number` of `host` returns the same for the same text.
pub open spec fn reads_numbers<H: Host>(host: &H) -> bool {
    forall|t1: &str, t2: &str, r1: Option<u64>, r2: Option<u64>|
        t1@ == t2@ && #[trigger] call_ensures(H::parse_number, (host, t1), r1)
            && #[trigger] call_ensures(H::parse_number, (host, t2), r2) ==> r1 == r2
}

/// Where `parse_number` is a function of the text, what one call returned
/// is what every call returns.
pub proof fn lemma_parsed<H: Host>(host: &H, t: &str, r: Option<u64>)
    requires
        reads_numbers(host),
        call_ensures(H::parse_number, (host, t), r),
    ensures
        parsed(host, t@) == r,
{
    let text = t@;
    let p = parsed(host, text);
    assert(may_parse(host, text, r));
    let t0 = choose|t0: &str| t0@ == text && #[trigger] call_ensures(H::parse_number, (host, t0), p);
    assert(call_ensures(H::parse_number, (host, t0), p));
}

/// Where `parse_number` is a function of the text, what some call returns
/// is what every call returns.
pub proof fn lemma_may_parse<H: Host>(host: &H, text: Seq<char>, r: Option<u64>)
    requires
        reads_numbers(host),
        may_parse(host, text, r),
    ensures
        parsed(host, text) == r,
{
    let t = choose|t: &str| t@ == text && #[trigger] call_ensures(H::parse_number, (host, t), r);
    lemma_parsed(host, t, r);
}

/// Some call of `format_number` of `host` on `number` returns `text`.
pub open spec fn may_format<H: Host>(host: &H, number: u64, text: Seq<char>) -> bool {
    exists|s: String| s@ == text && #[trigger] call_ensures(H::format_number, (host, number), s)
}

/// What `format_number` of `host` returns for `number`, where it is a
/// function of the number.
pub open spec fn formatted<H: Host>(host: &H, number: u64) -> Seq<char> {
    choose|text: Seq<char>| #[trigger] may_format(host, number, text)
}

/// Some call of `sum` of `host` on `numbers` returns `r`.
pub open spec fn may_sum<H: Host>(host: &H, numbers: Seq<u64>, r: u64) -> bool {
    exists|v: &Vec<u64>| v@ == numbers && #[trigger] call_ensures(H::sum, (host, v), r)
}

/// What `sum` of `host` returns for `numbers`, where it is a function of
/// the numbers.
pub open spec fn sum_of<H: Host>(host: &H, numbers: Seq<u64>) -> u64 {
    choose|r: u64| #[trigger] may_sum(host, numbers, r)
}

/// Some call of `product` of `host` on `numbers` returns `r`.
pub open spec fn may_multiply<H: Host>(host: &H, numbers: Seq<u64>, r: u64) -> bool {
    exists|v: &Vec<u64>| v@ == numbers && #[trigger] call_ensures(H::product, (host, v), r)
}

/// What `product` of `host` returns for `numbers`, where it is a function
/// of the numbers.
pub open spec fn product_of<H: Host>(host: &H, numbers: Seq<u64>) -> u64 {
    choose|r: u64| #[trigger] may_multiply(host, numbers, r)
}

/// What `subtract` of `host` returns for `a` and `b`, where it is a
/// function of the two.
pub open spec fn difference<H: Host>(host: &H, a: u64, b: u64) -> u64 {
    choose|r: u64| #[trigger] call_ensures(H::subtract, (host, a, b), r)
}

/// What `divide` of `host` returns for `a` and `b`, where it is a function
/// of the two.
pub open spec fn quotient<H: Host>(host: &H, a: u64, b: u64) -> u64 {
    choose|r: u64| #[trigger] call_ensures(H::divide, (host, a, b), r)
}

/// What `truncate` of `host` returns for `number`, where it is a function
/// of the number.
pub open spec fn truncated<H: Host>(host: &H, number: u64) -> usize {
    choose|r: usize| #[trigger] call_ensures(H::truncate, (host, number), r)
}

/// What `from_digit` of `host` returns for `digit`, where it is a function
/// of the digit.
pub open spec fn digit_number<H: Host>(host: &H, digit: u32) -> u64 {
    choose|r: u64| #[trigger] call_ensures(H::from_digit, (host, digit), r)
}

/// Some call of `print_line` of `host` on `text` returns `r`.
pub open spec fn may_print<H: Host>(host: &H, text: Seq<char>, r: bool) -> bool {
    exists|t: &str| t@ == text && #[trigger] call_ensures(H::print_line, (host, t), r)
}

/// What `print_line` of `host` returns for `text`, where it is a function
/// of the text.
pub open spec fn printed<H: Host>(host: &H, text: Seq<char>) -> bool {
    choose|r: bool| #[trigger] may_print(host, text, r)
}

/// Every method of `host` is a function: called on the same values, it
/// returns the same.
pub open spec fn is_function<H: Host>(host: &H) -> bool {
    &&& reads_numbers(host)
    &&& forall|n: u64, s1: String, s2: String|
        #[trigger] call_ensures(H::format_number, (host, n), s1) && #[trigger] call_ensures(
            H::format_number,
            (host, n),
            s2,
        ) ==> s1@ == s2@
    &&& forall|v1: &Vec<u64>, v2: &Vec<u64>, r1: u64, r2: u64|
        v1@ == v2@ && #[trigger] call_ensures(H::sum, (host, v1), r1) && #[trigger] call_ensures(
            H::sum,
            (host, v2),
            r2,
        ) ==> r1 == r2
    &&& forall|v1: &Vec<u64>, v2: &Vec<u64>, r1: u64, r2: u64|
        v1@ == v2@ && #[trigger] call_ensures(H::product, (host, v1), r1)
            && #[trigger] call_ensures(H::product, (host, v2), r2) ==> r1 == r2
    &&& forall|a: u64, b: u64, r1: u64, r2: u64|
        #[trigger] call_ensures(H::subtract, (host, a, b), r1) && #[trigger] call_ensures(
            H::subtract,
            (host, a, b),
            r2,
        ) ==> r1 == r2
    &&& forall|a: u64, b: u64, r1: u64, r2: u64|
        #[trigger] call_ensures(H::divide, (host, a, b), r1) && #[trigger] call_ensures(
            H::divide,
            (host, a, b),
            r2,
        ) ==> r1 == r2
    &&& forall|n: u64, r1: usize, r2: usize|
        #[trigger] call_ensures(H::truncate, (host, n), r1) && #[trigger] call_ensures(
            H::truncate,
            (host, n),
            r2,
        ) ==> r1 == r2
    &&& forall|d: u32, r1: u64, r2: u64|
        #[trigger] call_ensures(H::from_digit, (host, d), r1) && #[trigger] call_ensures(
            H::from_digit,
            (host, d),
            r2,
        ) ==> r1 == r2
    &&& forall|t1: &str, t2: &str, r1: bool, r2: bool|
        t1@ == t2@ && #[trigger] call_ensures(H::print_line, (host, t1), r1)
            && #[trigger] call_ensures(H::print_line, (host, t2), r2) ==> r1 == r2
}

/// Where the host is a function, what one call of `format_number` returned
/// is what every call returns.
pub proof fn lemma_formatted<H: Host>(host: &H, n: u64, s: String)
    requires
        is_function(host),
        call_ensures(H::format_number, (host, n), s),
    ensures
        formatted(host, n) == s@,
{
    assert(may_format(host, n, s@));
    let text = formatted(host, n);
    assert(may_format(host, n, text));
    let s0 = choose|s0: String|
        s0@ == text && #[trigger] call_ensures(H::format_number, (host, n), s0);
    assert(call_ensures(H::format_number, (host, n), s0));
}

/// Where the host is a function, what one call of `sum` returned is what
/// every call returns.
pub proof fn lemma_sum_of<H: Host>(host: &H, v: &Vec<u64>, r: u64)
    requires
        is_function(host),
        call_ensures(H::sum, (host, v), r),
    ensures
        sum_of(host, v@) == r,
{
    assert(may_sum(host, v@, r));
    let p = sum_of(host, v@);
    let v0 = choose|v0: &Vec<u64>| v0@ == v@ && #[trigger] call_ensures(H::sum, (host, v0), p);
    assert(call_ensures(H::sum, (host, v0), p));
}

/// Where the host is a function, what one call of `product` returned is
/// what every call returns.
pub proof fn lemma_product_of<H: Host>(host: &H, v: &Vec<u64>, r: u64)
    requires
        is_function(host),
        call_ensures(H::product, (host, v), r),
    ensures
        product_of(host, v@) == r,
{
    assert(may_multiply(host, v@, r));
    let p = product_of(host, v@);
    let v0 = choose|v0: &Vec<u64>| v0@ == v@ && #[trigger] call_ensures(H::product, (host, v0), p);
    assert(call_ensures(H::product, (host, v0), p));
}

/// Where the host is a function, what one call of `subtract` returned is
/// what every call returns.
pub proof fn lemma_difference<H: Host>(host: &H, a: u64, b: u64, r: u64)
    requires
        is_function(host),
        call_ensures(H::subtract, (host, a, b), r),
    ensures
        difference(host, a, b) == r,
{
}

/// Where the host is a function, what one call of `divide` returned is what
/// every call returns.
pub proof fn lemma_quotient<H: Host>(host: &H, a: u64, b: u64, r: u64)
    requires
        is_function(host),
        call_ensures(H::divide, (host, a, b), r),
    ensures
        quotient(host, a, b) == r,
{
}

/// Where the host is a function, what one call of `truncate` returned is
/// what every call returns.
pub proof fn lemma_truncated<H: Host>(host: &H, n: u64, r: usize)
    requires
        is_function(host),
        call_ensures(H::truncate, (host, n), r),
    ensures
        truncated(host, n) == r,
{
}

/// Where the host is a function, what one call of `from_digit` returned is
/// what every call returns.
pub proof fn lemma_digit_number<H: Host>(host: &H, d: u32, r: u64)
    requires
        is_function(host),
        call_ensures(H::from_digit, (host, d), r),
    ensures
        digit_number(host, d) == r,
{
}

/// Where the host is a function, what one call of `print_line` returned is
/// what every call returns.
pub proof fn lemma_printed<H: Host>(host: &H, t: &str, r: bool)
    requires
        is_function(host),
        call_ensures(H::print_line, (host, t), r),
    ensures
        printed(host, t@) == r,
{
    assert(may_print(host, t@, r));
    let p = printed(host, t@);
    let t0 = choose|t0: &str| t0@ == t@ && #[trigger] call_ensures(H::print_line, (host, t0), p);
    assert(call_ensures(H::print_line, (host, t0), p));
}

} // verus!
