//! String helpers: conversion between `String` and character vectors,
//! and the canonical decimal numeral of an unsigned number, used for
//! generated node ids and for timestamp rendering.

use vstd::prelude::*;

verus! {

/// Relies on String::push: appends one character to the string.
#[verifier::external_body]
pub(crate) fn push_char(s: &mut String, c: char)
    ensures
        final(s)@ == old(s)@.push(c),
{
    s.push(c);
}

/// The characters of a string as a vector.
pub fn chars_of(s: &String) -> (r: Vec<char>)
    ensures
        r@ == s@,
{
    let mut out: Vec<char> = Vec::new();
    let n = s.as_str().unicode_len();
    for i in 0..n
        invariant
            n == s@.len(),
            out@ == s@.take(i as int),
    {
        let c = s.as_str().get_char(i);
        out.push(c);
        proof {
            assert(out@ =~= s@.take(i + 1));
        }
    }
    proof {
        assert(s@.take(n as int) =~= s@);
    }
    out
}

/// A string with the given characters.
pub fn string_of(chars: &Vec<char>) -> (r: String)
    ensures
        r@ == chars@,
{
    let mut out = String::new();
    let n = chars.len();
    for i in 0..n
        invariant
            n == chars.len(),
            out@ == chars@.take(i as int),
    {
        push_char(&mut out, chars[i]);
        proof {
            assert(out@ =~= chars@.take(i + 1));
        }
    }
    proof {
        assert(chars@.take(n as int) =~= chars@);
    }
    out
}

/// The decimal digit character of one digit value.
pub open spec fn digit_char(d: nat) -> char {
    if d == 0 {
        '0'
    } else if d == 1 {
        '1'
    } else if d == 2 {
        '2'
    } else if d == 3 {
        '3'
    } else if d == 4 {
        '4'
    } else if d == 5 {
        '5'
    } else if d == 6 {
        '6'
    } else if d == 7 {
        '7'
    } else if d == 8 {
        '8'
    } else {
        '9'
    }
}

/// The canonical decimal numeral of a number: no leading zeros.
pub open spec fn dec_seq(v: nat) -> Seq<char>
    decreases v,
{
    if v < 10 {
        seq![digit_char(v)]
    } else {
        dec_seq(v / 10).push(digit_char(v % 10))
    }
}

/// Distinct digit values have distinct digit characters.
proof fn lemma_digit_char_injective(a: nat, b: nat)
    requires
        a < 10,
        b < 10,
        digit_char(a) == digit_char(b),
    ensures
        a == b,
{
}

/// The numeral of a number below ten is one character; of a larger
/// number, more than one.
proof fn lemma_dec_seq_len(v: nat)
    ensures
        dec_seq(v).len() >= 1,
        v >= 10 ==> dec_seq(v).len() >= 2,
    decreases v,
{
    if v >= 10 {
        lemma_dec_seq_len(v / 10);
    }
}

/// Canonical numerals are injective: distinct numbers have distinct
/// numerals.
pub proof fn lemma_dec_seq_injective(a: nat, b: nat)
    requires
        dec_seq(a) == dec_seq(b),
    ensures
        a == b,
    decreases a,
{
    lemma_dec_seq_len(a);
    lemma_dec_seq_len(b);
    if a < 10 && b < 10 {
        assert(dec_seq(a)[0] == digit_char(a));
        assert(dec_seq(b)[0] == digit_char(b));
        lemma_digit_char_injective(a, b);
    } else if a < 10 {
        assert(dec_seq(a).len() == 1);
        assert(dec_seq(b).len() >= 2);
    } else if b < 10 {
        assert(dec_seq(b).len() == 1);
        assert(dec_seq(a).len() >= 2);
    } else {
        let sa = dec_seq(a / 10);
        let sb = dec_seq(b / 10);
        assert(dec_seq(a) == sa.push(digit_char(a % 10)));
        assert(dec_seq(b) == sb.push(digit_char(b % 10)));
        assert(sa.len() == dec_seq(a).len() - 1);
        assert(sb.len() == dec_seq(b).len() - 1);
        assert(sa =~= dec_seq(a).take(dec_seq(a).len() - 1));
        assert(sb =~= dec_seq(b).take(dec_seq(b).len() - 1));
        assert(sa == sb);
        lemma_dec_seq_injective(a / 10, b / 10);
        assert(dec_seq(a).last() == digit_char(a % 10));
        assert(dec_seq(b).last() == digit_char(b % 10));
        lemma_digit_char_injective(a % 10, b % 10);
        assert(a == 10 * (a / 10) + a % 10);
        assert(b == 10 * (b / 10) + b % 10);
    }
}

/// The digit character of one digit value, computed.
fn digit_char_exec(d: u64) -> (c: char)
    requires
        d < 10,
    ensures
        c == digit_char(d as nat),
{
    if d == 0 {
        '0'
    } else if d == 1 {
        '1'
    } else if d == 2 {
        '2'
    } else if d == 3 {
        '3'
    } else if d == 4 {
        '4'
    } else if d == 5 {
        '5'
    } else if d == 6 {
        '6'
    } else if d == 7 {
        '7'
    } else if d == 8 {
        '8'
    } else {
        '9'
    }
}

/// The canonical decimal numeral of a number, as characters.
pub fn dec_chars(v: u64) -> (r: Vec<char>)
    ensures
        r@ == dec_seq(v as nat),
    decreases v,
{
    let mut out: Vec<char> = Vec::new();
    dec_chars_into(v, &mut out);
    proof {
        assert(out@ =~= Seq::<char>::empty() + dec_seq(v as nat));
    }
    out
}

/// Append the canonical numeral of `v` to `out`.
pub fn dec_chars_into(v: u64, out: &mut Vec<char>)
    ensures
        final(out)@ == old(out)@ + dec_seq(v as nat),
    decreases v,
{
    if v < 10 {
        out.push(digit_char_exec(v));
        proof {
            assert(out@ =~= old(out)@ + dec_seq(v as nat));
        }
    } else {
        dec_chars_into(v / 10, out);
        out.push(digit_char_exec(v % 10));
        proof {
            assert(out@ =~= old(out)@ + dec_seq(v as nat));
        }
    }
}

/// The canonical decimal numeral of a number, as a string.
pub fn dec_string(v: u64) -> (r: String)
    ensures
        r@ == dec_seq(v as nat),
{
    let chars = dec_chars(v);
    string_of(&chars)
}

} // verus!
