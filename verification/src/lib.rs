//! A verified core for a line-oriented primality service.
//!
//! The library holds the pieces of the service whose behaviour is worth
//! stating and proving: a tolerant request parser, an incrementally
//! growable primality sieve, the byte-exact response formatter, and the
//! sequential request-to-response transform that composes them.  The
//! network plumbing around them lives outside the library.

use vstd::prelude::*;

pub mod problem0;
pub mod problem1;

verus! {

/// Highest challenge number this crate knows how to serve.
pub const MAX_CHALLENGE: u8 = 1;

/// Does the character sequence have the shape `std` accepts for a `u8`:
/// an optional leading `+`, then one or more ASCII decimal digits whose
/// value fits in a `u8`?
pub open spec fn spec_u8_numeral(s: Seq<char>) -> Option<u8> {
    let digits = if s.len() > 0 && s[0] == '+' {
        s.skip(1)
    } else {
        s
    };
    if digits.len() > 0 && all_decimal_digits(digits) && decimal_value(digits) <= u8::MAX {
        Some(decimal_value(digits) as u8)
    } else {
        None
    }
}

/// Every character in the sequence is an ASCII decimal digit.
pub open spec fn all_decimal_digits(s: Seq<char>) -> bool {
    forall|i: int| 0 <= i < s.len() ==> '0' <= #[trigger] s[i] <= '9'
}

/// Numeric value of a sequence of decimal digits, most significant first.
pub open spec fn decimal_value(s: Seq<char>) -> int
    decreases s.len(),
{
    if s.len() == 0 {
        0
    } else {
        decimal_value(s.drop_last()) * 10 + (s.last() as int - '0' as int)
    }
}

/// Validate a challenge number given on the command line: the numeral must
/// name a challenge this crate serves.
pub fn challenge(input: &str) -> (r: Result<u8, String>)
    requires
        spec_u8_numeral(input@) is Some,
    ensures
        spec_u8_numeral(input@).unwrap() <= MAX_CHALLENGE ==> r == Ok::<u8, String>(
            spec_u8_numeral(input@).unwrap(),
        ),
        spec_u8_numeral(input@).unwrap() > MAX_CHALLENGE ==> (r matches Err(m) && m@
            == "No challenge known for "@ + input@),
{
    let n = input.unicode_len();
    let start: usize = if n > 0 && input.get_char(0) == '+' {
        1
    } else {
        0
    };
    let mut value: u32 = 0;
    let mut i: usize = start;
    let ghost digits = if input@.len() > 0 && input@[0] == '+' {
        input@.skip(1)
    } else {
        input@
    };
    proof {
        assert(digits.len() == n - start);
        assert(digits.take(0) =~= Seq::<char>::empty());
    }
    while i < n
        invariant
            start <= i <= n,
            n == input@.len(),
            start == if input@.len() > 0 && input@[0] == '+' { 1int } else { 0int },
            digits == (if input@.len() > 0 && input@[0] == '+' {
                input@.skip(1)
            } else {
                input@
            }),
            digits.len() == n - start,
            all_decimal_digits(digits),
            decimal_value(digits) <= u8::MAX,
            value == decimal_value(digits.take(i - start)),
            value <= u8::MAX,
        decreases n - i,
    {
        let c = input.get_char(i);
        proof {
            assert(digits[i - start] == input@[i as int]);
            assert('0' <= digits[i - start] <= '9');
            assert(digits.take(i + 1 - start).drop_last() =~= digits.take(i - start));
            assert(digits.take(i + 1 - start).last() == digits[i - start]);
        }
        let d: u32 = (c as u32) - ('0' as u32);
        value = value * 10 + d;
        proof {
            assert(decimal_value(digits.take(i + 1 - start)) == value);
            lemma_decimal_value_prefix_le(digits, i + 1 - start);
        }
        i += 1;
    }
    proof {
        assert(digits.take(n - start) =~= digits);
    }
    let chal = value as u8;
    if chal <= MAX_CHALLENGE {
        Ok(chal)
    } else {
        let mut msg = String::from_str("No challenge known for ");
        msg.append(input);
        Err(msg)
    }
}

/// A prefix of a digit sequence never has a larger value than the whole.
proof fn lemma_decimal_value_prefix_le(s: Seq<char>, k: int)
    requires
        0 <= k <= s.len(),
        all_decimal_digits(s),
    ensures
        decimal_value(s.take(k)) <= decimal_value(s),
        decimal_value(s) >= 0,
    decreases s.len(),
{
    if s.len() == 0 {
        assert(s.take(k) == s);
    } else if k == s.len() {
        assert(s.take(k) == s);
        lemma_decimal_value_prefix_le(s.drop_last(), k - 1);
    } else {
        assert(all_decimal_digits(s.drop_last()));
        assert(s.take(k) == s.drop_last().take(k));
        lemma_decimal_value_prefix_le(s.drop_last(), k);
        assert(decimal_value(s) >= decimal_value(s.drop_last()));
    }
}

} // verus!
