//! The tolerant request grammar: one brace-delimited record per line,
//! holding a `method` field that must equal `isPrime` and a `number`
//! field holding an unsigned decimal integer, in either order, with
//! single or double quotes around the words and flexible whitespace.
//! A record is accepted when a prefix of the input matches the grammar;
//! everything else is malformed.

use vstd::prelude::*;

verus! {

/// The bytes the grammar treats as whitespace: space, tab, carriage
/// return and line feed.
pub open spec fn is_space(b: u8) -> bool {
    b == 32 || b == 9 || b == 13 || b == 10
}

/// An ASCII decimal digit.
pub open spec fn is_digit(b: u8) -> bool {
    ('0' as u8) <= b <= ('9' as u8)
}

/// The bytes of the word `method`.
pub open spec fn method_key() -> Seq<u8> {
    seq!['m' as u8, 'e' as u8, 't' as u8, 'h' as u8, 'o' as u8, 'd' as u8]
}

/// The bytes of the word `isPrime`.
pub open spec fn isprime_key() -> Seq<u8> {
    seq!['i' as u8, 's' as u8, 'P' as u8, 'r' as u8, 'i' as u8, 'm' as u8, 'e' as u8]
}

/// The bytes of the word `number`.
pub open spec fn number_key() -> Seq<u8> {
    seq!['n' as u8, 'u' as u8, 'm' as u8, 'b' as u8, 'e' as u8, 'r' as u8]
}

/// A position that may have been returned by an executable parsing step,
/// lifted into the spec world.
pub open spec fn pos_of(r: Option<usize>) -> Option<int> {
    match r {
        Some(p) => Some(p as int),
        None => None,
    }
}

/// Like [`pos_of`], for steps that also yield the parsed integer.
pub open spec fn pos_val_of(r: Option<(usize, u32)>) -> Option<(int, u32)> {
    match r {
        Some((p, v)) => Some((p as int, v)),
        None => None,
    }
}

/// Index of the first non-whitespace byte at or after `pos`.
pub open spec fn spec_skip_space(s: Seq<u8>, pos: int) -> int
    decreases s.len() - pos,
{
    if 0 <= pos < s.len() && is_space(s[pos]) {
        spec_skip_space(s, pos + 1)
    } else {
        pos
    }
}

/// One literal byte: succeed exactly when `b` stands at `pos`.
pub open spec fn spec_expect(s: Seq<u8>, pos: int, b: u8) -> Option<int> {
    if 0 <= pos < s.len() && s[pos] == b {
        Some(pos + 1)
    } else {
        None
    }
}

/// A literal word: succeed exactly when `key` stands at `pos`.
pub open spec fn spec_tag(s: Seq<u8>, pos: int, key: Seq<u8>) -> Option<int> {
    if 0 <= pos && pos + key.len() <= s.len() && (forall|j: int|
        0 <= j < key.len() ==> s[pos + j] == key[j]) {
        Some(pos + key.len())
    } else {
        None
    }
}

/// `key` wrapped in a matching pair of the quote byte `q`.
pub open spec fn spec_delimited(s: Seq<u8>, pos: int, key: Seq<u8>, q: u8) -> Option<int> {
    match spec_expect(s, pos, q) {
        Some(p1) => match spec_tag(s, p1, key) {
            Some(p2) => spec_expect(s, p2, q),
            None => None,
        },
        None => None,
    }
}

/// `key` wrapped in double quotes, or failing that in single quotes.
pub open spec fn spec_quoted(s: Seq<u8>, pos: int, key: Seq<u8>) -> Option<int> {
    if spec_delimited(s, pos, key, '"' as u8) is Some {
        spec_delimited(s, pos, key, '"' as u8)
    } else {
        spec_delimited(s, pos, key, '\'' as u8)
    }
}

/// The separator between a key and its value: a colon with optional
/// whitespace on both sides.
pub open spec fn spec_keysep(s: Seq<u8>, pos: int) -> Option<int> {
    match spec_expect(s, spec_skip_space(s, pos), ':' as u8) {
        Some(p) => Some(spec_skip_space(s, p)),
        None => None,
    }
}

/// The separator between the two fields: a comma with optional
/// whitespace on both sides.
pub open spec fn spec_itemsep(s: Seq<u8>, pos: int) -> Option<int> {
    match spec_expect(s, spec_skip_space(s, pos), ',' as u8) {
        Some(p) => Some(spec_skip_space(s, p)),
        None => None,
    }
}

/// The method field: the word `method`, the key separator, the word
/// `isPrime`, each word quoted either way.
pub open spec fn spec_method(s: Seq<u8>, pos: int) -> Option<int> {
    match spec_quoted(s, pos, method_key()) {
        Some(p1) => match spec_keysep(s, p1) {
            Some(p2) => spec_quoted(s, p2, isprime_key()),
            None => None,
        },
        None => None,
    }
}

/// Index just past the run of decimal digits starting at `pos`.
pub open spec fn spec_digits_end(s: Seq<u8>, pos: int) -> int
    decreases s.len() - pos,
{
    if 0 <= pos < s.len() && is_digit(s[pos]) {
        spec_digits_end(s, pos + 1)
    } else {
        pos
    }
}

/// Numeric value of the digits `s[pos..end)`, most significant first.
pub open spec fn spec_digits_value(s: Seq<u8>, pos: int, end: int) -> int
    decreases end - pos,
{
    if pos < end {
        spec_digits_value(s, pos, end - 1) * 10 + (s[end - 1] as int - '0' as int)
    } else {
        0
    }
}

/// An unsigned decimal integer: the maximal digit run at `pos`, rejected
/// when it is empty or its value does not fit in a `u32`.
pub open spec fn spec_u32_at(s: Seq<u8>, pos: int) -> Option<(int, u32)> {
    let end = spec_digits_end(s, pos);
    if end == pos {
        None
    } else if spec_digits_value(s, pos, end) > u32::MAX {
        None
    } else {
        Some((end, spec_digits_value(s, pos, end) as u32))
    }
}

/// The number field: the word `number` quoted either way, the key
/// separator, then a bare unsigned decimal integer.
pub open spec fn spec_number(s: Seq<u8>, pos: int) -> Option<(int, u32)> {
    match spec_quoted(s, pos, number_key()) {
        Some(p1) => match spec_keysep(s, p1) {
            Some(p2) => spec_u32_at(s, p2),
            None => None,
        },
        None => None,
    }
}

/// The two fields in either order: method first, or failing that,
/// number first.
pub open spec fn spec_body(s: Seq<u8>, pos: int) -> Option<(int, u32)> {
    if spec_body_mn(s, pos) is Some {
        spec_body_mn(s, pos)
    } else {
        spec_body_nm(s, pos)
    }
}

/// Method field, item separator, number field.
pub open spec fn spec_body_mn(s: Seq<u8>, pos: int) -> Option<(int, u32)> {
    match spec_method(s, pos) {
        Some(p1) => match spec_itemsep(s, p1) {
            Some(p2) => spec_number(s, p2),
            None => None,
        },
        None => None,
    }
}

/// Number field, item separator, method field.
pub open spec fn spec_body_nm(s: Seq<u8>, pos: int) -> Option<(int, u32)> {
    match spec_number(s, pos) {
        Some((p1, v)) => match spec_itemsep(s, p1) {
            Some(p2) => match spec_method(s, p2) {
                Some(p3) => Some((p3, v)),
                None => None,
            },
            None => None,
        },
        None => None,
    }
}

/// A line terminator: a line feed, or a carriage return and a line feed.
pub open spec fn spec_line_ending(s: Seq<u8>, pos: int) -> bool {
    spec_expect(s, pos, '\n' as u8) is Some || (match spec_expect(s, pos, '\r' as u8) {
        Some(p) => spec_expect(s, p, '\n' as u8) is Some,
        None => false,
    })
}

/// What one raw record means: the integer query of a record some prefix
/// of whose bytes matches the grammar, or nothing for a malformed one.
pub open spec fn spec_parse(s: Seq<u8>) -> Option<u32> {
    match spec_expect(s, 0, '{' as u8) {
        Some(p0) => match spec_body(s, spec_skip_space(s, p0)) {
            Some((p1, v)) => match spec_expect(s, spec_skip_space(s, p1), '}' as u8) {
                Some(p2) => if spec_line_ending(s, p2) {
                    Some(v)
                } else {
                    None
                },
                None => None,
            },
            None => None,
        },
        None => None,
    }
}

/// Skip whitespace starting at `pos`.
fn skip_space(input: &[u8], pos: usize) -> (r: usize)
    requires
        pos <= input@.len(),
    ensures
        r == spec_skip_space(input@, pos as int),
        pos <= r <= input@.len(),
{
    let mut cur = pos;
    while cur < input.len() && (input[cur] == 32 || input[cur] == 9 || input[cur] == 13
        || input[cur] == 10)
        invariant
            pos <= cur <= input@.len(),
            spec_skip_space(input@, pos as int) == spec_skip_space(input@, cur as int),
        decreases input@.len() - cur,
    {
        cur += 1;
    }
    cur
}

/// Match one literal byte.
fn expect(input: &[u8], pos: usize, b: u8) -> (r: Option<usize>)
    ensures
        pos_of(r) == spec_expect(input@, pos as int, b),
        r matches Some(p) ==> p <= input@.len(),
{
    if pos < input.len() && input[pos] == b {
        Some(pos + 1)
    } else {
        None
    }
}

/// Match the word `method` between a pair of `q` quotes.
fn delimited_method(input: &[u8], pos: usize, q: u8) -> (r: Option<usize>)
    ensures
        pos_of(r) == spec_delimited(input@, pos as int, method_key(), q),
        r matches Some(p) ==> p <= input@.len(),
{
    if !(pos < input.len() && input[pos] == q) {
        return None;
    }
    let p1 = pos + 1;
    if input.len() - p1 >= 7 && input[p1] == 'm' as u8 && input[p1 + 1] == 'e' as u8 && input[p1
        + 2] == 't' as u8 && input[p1 + 3] == 'h' as u8 && input[p1 + 4] == 'o' as u8 && input[p1
        + 5] == 'd' as u8 && input[p1 + 6] == q {
        Some(p1 + 7)
    } else {
        None
    }
}

/// Match the word `isPrime` between a pair of `q` quotes.
fn delimited_isprime(input: &[u8], pos: usize, q: u8) -> (r: Option<usize>)
    ensures
        pos_of(r) == spec_delimited(input@, pos as int, isprime_key(), q),
        r matches Some(p) ==> p <= input@.len(),
{
    if !(pos < input.len() && input[pos] == q) {
        return None;
    }
    let p1 = pos + 1;
    if input.len() - p1 >= 8 && input[p1] == 'i' as u8 && input[p1 + 1] == 's' as u8 && input[p1
        + 2] == 'P' as u8 && input[p1 + 3] == 'r' as u8 && input[p1 + 4] == 'i' as u8 && input[p1
        + 5] == 'm' as u8 && input[p1 + 6] == 'e' as u8 && input[p1 + 7] == q {
        Some(p1 + 8)
    } else {
        None
    }
}

/// Match the word `number` between a pair of `q` quotes.
fn delimited_number(input: &[u8], pos: usize, q: u8) -> (r: Option<usize>)
    ensures
        pos_of(r) == spec_delimited(input@, pos as int, number_key(), q),
        r matches Some(p) ==> p <= input@.len(),
{
    if !(pos < input.len() && input[pos] == q) {
        return None;
    }
    let p1 = pos + 1;
    if input.len() - p1 >= 7 && input[p1] == 'n' as u8 && input[p1 + 1] == 'u' as u8 && input[p1
        + 2] == 'm' as u8 && input[p1 + 3] == 'b' as u8 && input[p1 + 4] == 'e' as u8 && input[p1
        + 5] == 'r' as u8 && input[p1 + 6] == q {
        Some(p1 + 7)
    } else {
        None
    }
}

/// Match `method` in double quotes, or failing that in single quotes.
fn quoted_method(input: &[u8], pos: usize) -> (r: Option<usize>)
    ensures
        pos_of(r) == spec_quoted(input@, pos as int, method_key()),
        r matches Some(p) ==> p <= input@.len(),
{
    match delimited_method(input, pos, '"' as u8) {
        Some(p) => Some(p),
        None => delimited_method(input, pos, '\'' as u8),
    }
}

/// Match `isPrime` in double quotes, or failing that in single quotes.
fn quoted_isprime(input: &[u8], pos: usize) -> (r: Option<usize>)
    ensures
        pos_of(r) == spec_quoted(input@, pos as int, isprime_key()),
        r matches Some(p) ==> p <= input@.len(),
{
    match delimited_isprime(input, pos, '"' as u8) {
        Some(p) => Some(p),
        None => delimited_isprime(input, pos, '\'' as u8),
    }
}

/// Match `number` in double quotes, or failing that in single quotes.
fn quoted_number(input: &[u8], pos: usize) -> (r: Option<usize>)
    ensures
        pos_of(r) == spec_quoted(input@, pos as int, number_key()),
        r matches Some(p) ==> p <= input@.len(),
{
    match delimited_number(input, pos, '"' as u8) {
        Some(p) => Some(p),
        None => delimited_number(input, pos, '\'' as u8),
    }
}

/// Match a colon with optional whitespace on both sides.
fn keysep(input: &[u8], pos: usize) -> (r: Option<usize>)
    requires
        pos <= input@.len(),
    ensures
        pos_of(r) == spec_keysep(input@, pos as int),
        r matches Some(p) ==> p <= input@.len(),
{
    let p = skip_space(input, pos);
    match expect(input, p, ':' as u8) {
        Some(p1) => Some(skip_space(input, p1)),
        None => None,
    }
}

/// Match a comma with optional whitespace on both sides.
fn itemsep(input: &[u8], pos: usize) -> (r: Option<usize>)
    requires
        pos <= input@.len(),
    ensures
        pos_of(r) == spec_itemsep(input@, pos as int),
        r matches Some(p) ==> p <= input@.len(),
{
    let p = skip_space(input, pos);
    match expect(input, p, ',' as u8) {
        Some(p1) => Some(skip_space(input, p1)),
        None => None,
    }
}

/// Match the whole method field.
fn method(input: &[u8], pos: usize) -> (r: Option<usize>)
    ensures
        pos_of(r) == spec_method(input@, pos as int),
        r matches Some(p) ==> p <= input@.len(),
{
    match quoted_method(input, pos) {
        Some(p1) => match keysep(input, p1) {
            Some(p2) => quoted_isprime(input, p2),
            None => None,
        },
        None => None,
    }
}

/// A longer digit run never has a smaller value than one of its prefixes.
proof fn lemma_digits_value_monotone(s: Seq<u8>, pos: int, e1: int, e2: int)
    requires
        pos <= e1 <= e2,
        forall|j: int| pos <= j < e2 ==> is_digit(#[trigger] s[j]),
    ensures
        0 <= spec_digits_value(s, pos, e1) <= spec_digits_value(s, pos, e2),
    decreases e2 - e1,
{
    if e1 == e2 {
        lemma_digits_value_nonneg(s, pos, e1);
    } else {
        lemma_digits_value_monotone(s, pos, e1, e2 - 1);
    }
}

/// A digit run's value is never negative.
proof fn lemma_digits_value_nonneg(s: Seq<u8>, pos: int, end: int)
    requires
        forall|j: int| pos <= j < end ==> is_digit(#[trigger] s[j]),
    ensures
        spec_digits_value(s, pos, end) >= 0,
    decreases end - pos,
{
    if pos < end {
        lemma_digits_value_nonneg(s, pos, end - 1);
    }
}

/// Read the maximal run of decimal digits at `pos` as a `u32`, rejecting
/// an empty run and a value too large for the type.
fn parse_u32(input: &[u8], pos: usize) -> (r: Option<(usize, u32)>)
    requires
        pos <= input@.len(),
    ensures
        pos_val_of(r) == spec_u32_at(input@, pos as int),
        r matches Some((p, v)) ==> p <= input@.len(),
{
    let mut end = pos;
    while end < input.len() && ('0' as u8) <= input[end] && input[end] <= ('9' as u8)
        invariant
            pos <= end <= input@.len(),
            spec_digits_end(input@, pos as int) == spec_digits_end(input@, end as int),
            forall|j: int| pos <= j < end ==> is_digit(#[trigger] input@[j]),
        decreases input@.len() - end,
    {
        end += 1;
    }
    if end == pos {
        return None;
    }
    let mut acc: u64 = 0;
    let mut i = pos;
    while i < end
        invariant
            pos <= i <= end <= input@.len(),
            end == spec_digits_end(input@, pos as int),
            forall|j: int| pos <= j < end ==> is_digit(#[trigger] input@[j]),
            acc == spec_digits_value(input@, pos as int, i as int),
            acc <= u32::MAX,
        decreases end - i,
    {
        let d = input[i] - 48;
        acc = acc * 10 + (d as u64);
        i += 1;
        if acc > (u32::MAX as u64) {
            proof {
                lemma_digits_value_monotone(input@, pos as int, i as int, end as int);
            }
            return None;
        }
    }
    Some((end, acc as u32))
}

/// Match the whole number field.
fn number(input: &[u8], pos: usize) -> (r: Option<(usize, u32)>)
    ensures
        pos_val_of(r) == spec_number(input@, pos as int),
        r matches Some((p, v)) ==> p <= input@.len(),
{
    match quoted_number(input, pos) {
        Some(p1) => match keysep(input, p1) {
            Some(p2) => parse_u32(input, p2),
            None => None,
        },
        None => None,
    }
}

/// Match the record body: both fields in either order.
fn body(input: &[u8], pos: usize) -> (r: Option<(usize, u32)>)
    ensures
        pos_val_of(r) == spec_body(input@, pos as int),
        r matches Some((p, v)) ==> p <= input@.len(),
{
    if let Some(p1) = method(input, pos) {
        if let Some(p2) = itemsep(input, p1) {
            if let Some(pv) = number(input, p2) {
                return Some(pv);
            }
        }
    }
    match number(input, pos) {
        Some((p1, v)) => match itemsep(input, p1) {
            Some(p2) => match method(input, p2) {
                Some(p3) => Some((p3, v)),
                None => None,
            },
            None => None,
        },
        None => None,
    }
}

/// Parse one raw request record: the integer query when a prefix of the
/// bytes matches the grammar, nothing when the record is malformed.
pub fn all(input: &[u8]) -> (r: Option<u32>)
    ensures
        r == spec_parse(input@),
{
    let p0 = match expect(input, 0, '{' as u8) {
        Some(p) => p,
        None => {
            return None;
        },
    };
    let p1 = skip_space(input, p0);
    let (p2, value) = match body(input, p1) {
        Some(pv) => pv,
        None => {
            return None;
        },
    };
    let p3 = skip_space(input, p2);
    let p4 = match expect(input, p3, '}' as u8) {
        Some(p) => p,
        None => {
            return None;
        },
    };
    if expect(input, p4, '\n' as u8).is_some() {
        return Some(value);
    }
    match expect(input, p4, '\r' as u8) {
        Some(p5) => match expect(input, p5, '\n' as u8) {
            Some(_) => Some(value),
            None => None,
        },
        None => None,
    }
}

} // verus!
