//! Decimal rendering of small integers and space-joined token lists.
//!
//! Every string the library emits is assembled from decimal digit runs,
//! fixed literals, and single spaces. This module gives the spec-level
//! model of those pieces ([`dec_digits`], [`two_digits`], [`join_spaced`])
//! and verified executable builders for them.

use vstd::prelude::*;
use vstd::string::StringExecFns;

verus! {

/// The decimal digit character for a value below ten.
pub open spec fn digit_char(n: nat) -> char {
    if n == 0 {
        '0'
    } else if n == 1 {
        '1'
    } else if n == 2 {
        '2'
    } else if n == 3 {
        '3'
    } else if n == 4 {
        '4'
    } else if n == 5 {
        '5'
    } else if n == 6 {
        '6'
    } else if n == 7 {
        '7'
    } else if n == 8 {
        '8'
    } else {
        '9'
    }
}

/// Whether a character is a decimal digit.
pub open spec fn is_digit(c: char) -> bool {
    c == '0' || c == '1' || c == '2' || c == '3' || c == '4' || c == '5' || c == '6' || c == '7'
        || c == '8' || c == '9'
}

/// The usual decimal rendering of `n`: most significant digit first, no
/// leading zeros (except for `n == 0`, rendered as a single `'0'`).
pub open spec fn dec_digits(n: nat) -> Seq<char>
    decreases n,
{
    if n < 10 {
        seq![digit_char(n)]
    } else {
        dec_digits(n / 10).push(digit_char(n % 10))
    }
}

/// Two-digit zero-padded rendering of a value below 100, as used for the
/// minute part of a clock time.
pub open spec fn two_digits(n: nat) -> Seq<char> {
    if n < 10 {
        seq!['0', digit_char(n)]
    } else {
        dec_digits(n)
    }
}

/// The elements of `ts` concatenated with `sep` between consecutive
/// elements, and no leading or trailing separator.
pub open spec fn join_with(sep: Seq<char>, ts: Seq<Seq<char>>) -> Seq<char>
    decreases ts.len(),
{
    if ts.len() == 0 {
        Seq::empty()
    } else if ts.len() == 1 {
        ts[0]
    } else {
        join_with(sep, ts.drop_last()) + sep + ts.last()
    }
}

/// The elements of `ts` concatenated with a single space between
/// consecutive elements, and no leading or trailing space.
pub open spec fn join_spaced(ts: Seq<Seq<char>>) -> Seq<char> {
    join_with(seq![' '], ts)
}

/// Shape of a decimal rendering: nonempty, all digits, and no leading zero
/// for a positive value.
pub proof fn lemma_dec_digits_props(n: nat)
    ensures
        dec_digits(n).len() >= 1,
        forall|i: int| 0 <= i < dec_digits(n).len() ==> is_digit(#[trigger] dec_digits(n)[i]),
        n >= 1 ==> dec_digits(n)[0] != '0',
        n >= 10 ==> dec_digits(n).len() >= 2,
    decreases n,
{
    if n >= 10 {
        lemma_dec_digits_props(n / 10);
    }
}

/// Distinct digits render as distinct characters.
pub proof fn lemma_digit_char_injective(a: nat, b: nat)
    requires
        a < 10,
        b < 10,
        digit_char(a) == digit_char(b),
    ensures
        a == b,
{
}

/// Decimal renderings of distinct values are distinct.
pub proof fn lemma_dec_digits_injective(a: nat, b: nat)
    requires
        dec_digits(a) == dec_digits(b),
    ensures
        a == b,
    decreases a,
{
    lemma_dec_digits_props(a);
    lemma_dec_digits_props(b);
    if a < 10 && b < 10 {
        assert(dec_digits(a)[0] == dec_digits(b)[0]);
        lemma_digit_char_injective(a, b);
    } else if a >= 10 && b >= 10 {
        assert(dec_digits(a).last() == digit_char(a % 10));
        assert(dec_digits(b).last() == digit_char(b % 10));
        lemma_digit_char_injective(a % 10, b % 10);
        assert(dec_digits(a).drop_last() =~= dec_digits(a / 10));
        assert(dec_digits(b).drop_last() =~= dec_digits(b / 10));
        lemma_dec_digits_injective(a / 10, b / 10);
    } else if a < 10 {
        assert(dec_digits(b).len() >= 2);
    } else {
        assert(dec_digits(a).len() >= 2);
    }
}

/// Unfolding of [`join_with`] for one appended token.
pub proof fn lemma_join_with_push(sep: Seq<char>, ts: Seq<Seq<char>>, t: Seq<char>)
    ensures
        ts.len() == 0 ==> join_with(sep, ts.push(t)) == t,
        ts.len() >= 1 ==> join_with(sep, ts.push(t)) == join_with(sep, ts) + sep + t,
{
    let s = ts.push(t);
    assert(s.drop_last() =~= ts);
    assert(s.last() == t);
    if ts.len() == 0 {
        assert(join_with(sep, s) == s[0]);
    }
}

/// Unfolding of [`join_spaced`] for one appended token.
pub proof fn lemma_join_push(ts: Seq<Seq<char>>, t: Seq<char>)
    ensures
        ts.len() == 0 ==> join_spaced(ts.push(t)) == t,
        ts.len() >= 1 ==> join_spaced(ts.push(t)) == join_spaced(ts) + seq![' '] + t,
{
    lemma_join_with_push(seq![' '], ts, t);
}

/// The single-character string for a decimal digit.
pub fn digit_str(d: u16) -> (r: &'static str)
    requires
        d < 10,
    ensures
        r@ == seq![digit_char(d as nat)],
{
    proof {
        reveal_strlit("0");
        reveal_strlit("1");
        reveal_strlit("2");
        reveal_strlit("3");
        reveal_strlit("4");
        reveal_strlit("5");
        reveal_strlit("6");
        reveal_strlit("7");
        reveal_strlit("8");
        reveal_strlit("9");
    }
    let r = match d {
        0 => "0",
        1 => "1",
        2 => "2",
        3 => "3",
        4 => "4",
        5 => "5",
        6 => "6",
        7 => "7",
        8 => "8",
        _ => "9",
    };
    proof {
        assert(r@ =~= seq![digit_char(d as nat)]);
    }
    r
}

/// The decimal rendering of `n` as an owned string.
pub fn u16_string(n: u16) -> (r: String)
    ensures
        r@ == dec_digits(n as nat),
    decreases n,
{
    if n < 10 {
        String::from_str(digit_str(n))
    } else {
        let mut s = u16_string(n / 10);
        s.append(digit_str(n % 10));
        proof {
            assert(s@ =~= dec_digits(n as nat));
        }
        s
    }
}

/// Append the two-digit zero-padded rendering of `n` to `out`.
pub fn append_two_digits(out: &mut String, n: u16)
    requires
        n < 100,
    ensures
        final(out)@ == old(out)@ + two_digits(n as nat),
{
    if n < 10 {
        proof {
            reveal_strlit("0");
        }
        out.append("0");
        out.append(digit_str(n));
    } else {
        let s = u16_string(n);
        out.append(s.as_str());
    }
    proof {
        assert(out@ =~= old(out)@ + two_digits(n as nat));
    }
}

} // verus!
