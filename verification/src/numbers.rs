//! Decimal integers in text, read as std's `i64::from_str` and `u64::from_str`
//! read them.

use vstd::prelude::*;
use crate::text::{is_ascii_digit, str_to_chars};

verus! {

/// The number an ASCII digit string denotes.
pub open spec fn digits_value(d: Seq<char>) -> nat
    decreases d.len(),
{
    if d.len() == 0 {
        0
    } else {
        digits_value(d.drop_last()) * 10 + ((d.last() as nat) - ('0' as nat)) as nat
    }
}

/// Every character of `b` is an ASCII digit.
pub open spec fn all_digits(b: Seq<char>) -> bool {
    forall|i: int| 0 <= i < b.len() ==> is_ascii_digit(#[trigger] b[i])
}

/// `s` without its leading `+` or `-`, if it has one.
pub open spec fn unsigned_part(s: Seq<char>) -> Seq<char> {
    if s.len() > 0 && (s[0] == '+' || s[0] == '-') { s.skip(1) } else { s }
}

/// The value `s` denotes, with its sign.
pub open spec fn signed_value(s: Seq<char>) -> int {
    if s.len() > 0 && s[0] == '-' { -(digits_value(unsigned_part(s)) as int) } else { digits_value(unsigned_part(s)) as int }
}

/// std `i64::from_str`: an optional `+` or `-`, then one or more ASCII digits,
/// whose value fits in `i64`.
pub open spec fn parse_i64_spec(s: Seq<char>) -> Option<int> {
    if unsigned_part(s).len() > 0 && all_digits(unsigned_part(s)) && i64::MIN <= signed_value(s) <= i64::MAX {
        Some(signed_value(s))
    } else {
        None
    }
}

/// `s` without its leading `+`, if it has one.
pub open spec fn plus_stripped(s: Seq<char>) -> Seq<char> {
    if s.len() > 0 && s[0] == '+' { s.skip(1) } else { s }
}

/// std `u64::from_str`: an optional `+`, then one or more ASCII digits, whose
/// value fits in `u64`.
pub open spec fn parse_u64_spec(s: Seq<char>) -> Option<int> {
    if plus_stripped(s).len() > 0 && all_digits(plus_stripped(s)) && digits_value(plus_stripped(s)) <= u64::MAX {
        Some(digits_value(plus_stripped(s)) as int)
    } else {
        None
    }
}

pub proof fn lemma_digits_value_grows(d: Seq<char>, c: char)
    requires
        is_ascii_digit(c),
    ensures
        digits_value(d.push(c)) == digits_value(d) * 10 + ((c as nat) - ('0' as nat)),
        digits_value(d.push(c)) >= digits_value(d),
{
    assert(d.push(c).drop_last() == d);
}

/// The value of the ASCII digits `v[start..]`, capped at `cap`; `None` when one of
/// them is not a digit.
fn digits_capped(v: &Vec<char>, start: usize, cap: u128) -> (r: Option<u128>)
    requires
        start <= v@.len(),
        10 <= cap <= 0x1_0000_0000_0000_0000,
    ensures
        match r {
            Some(x) => all_digits(v@.skip(start as int))
                && x == (if digits_value(v@.skip(start as int)) < cap { digits_value(v@.skip(start as int)) } else { cap as nat }),
            None => !all_digits(v@.skip(start as int)),
        },
{
    let ghost body = v@.skip(start as int);
    let mut mag: u128 = 0;
    let mut k: usize = start;
    assert(v@.subrange(start as int, start as int) =~= Seq::<char>::empty());
    while k < v.len()
        invariant
            start <= k <= v@.len(),
            body == v@.skip(start as int),
            10 <= cap <= 0x1_0000_0000_0000_0000,
            mag <= cap,
            mag < cap ==> mag == digits_value(v@.subrange(start as int, k as int)),
            mag == cap ==> digits_value(v@.subrange(start as int, k as int)) >= cap,
            forall|i: int| start <= i < k ==> is_ascii_digit(#[trigger] v@[i]),
        decreases v.len() - k,
    {
        let c = v[k];
        if !('0' <= c && c <= '9') {
            proof {
                assert(body[k - start] == c);
            }
            return None;
        }
        let d = (c as u128) - ('0' as u128);
        assert(d <= 9);
        proof {
            lemma_digits_value_grows(v@.subrange(start as int, k as int), c);
            assert(v@.subrange(start as int, k + 1) == v@.subrange(start as int, k as int).push(c));
        }
        if mag < cap {
            assert(mag * 10 <= cap * 10) by (nonlinear_arith)
                requires mag <= cap;
            let next = mag * 10 + d;
            if next > cap {
                mag = cap;
            } else {
                mag = next;
            }
        }
        k += 1;
    }
    proof {
        assert(v@.subrange(start as int, v@.len() as int) == body);
        assert forall|i: int| 0 <= i < body.len() implies is_ascii_digit(#[trigger] body[i]) by {
            assert(body[i] == v@[i + start]);
        }
    }
    Some(mag)
}

/// Parses a decimal integer as std `i64::from_str` does (see [`parse_i64_spec`]).
pub fn parse_i64(s: &str) -> (r: Option<i64>)
    ensures
        match r {
            Some(n) => parse_i64_spec(s@) == Some(n as int),
            None => parse_i64_spec(s@) is None,
        },
{
    let v = str_to_chars(s);
    let neg = v.len() > 0 && v[0] == '-';
    let start: usize = if v.len() > 0 && (v[0] == '+' || v[0] == '-') { 1 } else { 0 };
    assert(unsigned_part(s@) == v@.skip(start as int));
    if start >= v.len() {
        return None;
    }
    let cap: u128 = 9_223_372_036_854_775_809;
    match digits_capped(&v, start, cap) {
        None => None,
        Some(mag) => {
            if neg {
                if mag == cap {
                    None
                } else if mag == cap - 1 {
                    Some(i64::MIN)
                } else {
                    Some(-(mag as i64))
                }
            } else if mag >= cap - 1 {
                None
            } else {
                Some(mag as i64)
            }
        },
    }
}

/// Parses a decimal integer as std `u64::from_str` does (see [`parse_u64_spec`]).
pub fn parse_u64(s: &str) -> (r: Option<u64>)
    ensures
        match r {
            Some(n) => parse_u64_spec(s@) == Some(n as int),
            None => parse_u64_spec(s@) is None,
        },
{
    let v = str_to_chars(s);
    let start: usize = if v.len() > 0 && v[0] == '+' { 1 } else { 0 };
    assert(plus_stripped(s@) == v@.skip(start as int));
    if start >= v.len() {
        return None;
    }
    let cap: u128 = 0x1_0000_0000_0000_0000;
    match digits_capped(&v, start, cap) {
        None => None,
        Some(mag) => {
            if mag == cap {
                None
            } else {
                Some(mag as u64)
            }
        },
    }
}

} // verus!
