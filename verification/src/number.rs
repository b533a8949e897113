//! Numbers in decimal notation.
use vstd::prelude::*;
use vstd::slice::slice_subrange;

use crate::text::{from_chars, is_one_word, is_space};

verus! {

/// The value of an ASCII digit.
pub open spec fn digit_value(c: char) -> int {
    (c as int) - ('0' as int)
}

/// Whether all of `s` is ASCII digits.
pub open spec fn all_digits(s: Seq<char>) -> bool {
    forall|i: int| 0 <= i < s.len() ==> '0' <= #[trigger] s[i] <= '9'
}

/// The number that the digits of `s` write.
pub open spec fn decimal_value(s: Seq<char>) -> int
    decreases s.len(),
{
    if s.len() == 0 {
        0
    } else {
        decimal_value(s.drop_last()) * 10 + digit_value(s.last())
    }
}

/// `s` without one plus sign at its front.
pub open spec fn without_plus(s: Seq<char>) -> Seq<char> {
    if s.len() > 0 && s[0] == '+' {
        s.skip(1)
    } else {
        s
    }
}

/// What std parses `s` to as an unsigned number of at most `max`: an optional plus sign, then one
/// or more digits.
pub open spec fn parsed_unsigned(s: Seq<char>, max: int) -> Option<int> {
    let d = without_plus(s);
    if d.len() > 0 && all_digits(d) && decimal_value(d) <= max {
        Some(decimal_value(d))
    } else {
        None
    }
}

pub proof fn decimal_value_bounds(s: Seq<char>)
    requires
        all_digits(s),
    ensures
        decimal_value(s) >= 0,
    decreases s.len(),
{
    if s.len() > 0 {
        assert(all_digits(s.drop_last())) by {
            assert forall|i: int| 0 <= i < s.drop_last().len() implies '0'
                <= #[trigger] s.drop_last()[i] <= '9' by {
                assert(s.drop_last()[i] == s[i]);
            }
        }
        decimal_value_bounds(s.drop_last());
    }
}

/// The value of a longer run of digits is no smaller.
proof fn decimal_value_grows(s: Seq<char>, n: int)
    requires
        all_digits(s),
        0 <= n <= s.len(),
    ensures
        0 <= decimal_value(s.take(n)) <= decimal_value(s),
    decreases s.len(),
{
    if n == s.len() {
        assert(s.take(n) =~= s);
        decimal_value_bounds(s);
    } else {
        let t = s.drop_last();
        assert(all_digits(t)) by {
            assert forall|i: int| 0 <= i < t.len() implies '0' <= #[trigger] t[i] <= '9' by {
                assert(t[i] == s[i]);
            }
        }
        assert(t.take(n) =~= s.take(n));
        decimal_value_grows(t, n);
    }
}

/// Parses an unsigned number of at most `max`.
pub fn parse_unsigned(s: &[char], max: u64) -> (r: Option<u64>)
    ensures
        match r {
            Some(n) => parsed_unsigned(s@, max as int) == Some(n as int),
            None => parsed_unsigned(s@, max as int) is None,
        },
{
    let start: usize = if s.len() > 0 && s[0] == '+' {
        1
    } else {
        0
    };
    let d = slice_subrange(s, start, s.len());
    proof {
        assert(d@ =~= without_plus(s@));
    }
    if d.len() == 0 {
        return None;
    }
    let mut n: u64 = 0;
    for i in 0..d.len()
        invariant
            d@ == without_plus(s@),
            d@.len() > 0,
            all_digits(d@.take(i as int)),
            n == decimal_value(d@.take(i as int)),
            n <= max,
    {
        let c = d[i];
        if !('0' <= c && c <= '9') {
            return None;
        }
        let v: u64 = (c as u32 - '0' as u32) as u64;
        let ghost upto = d@.take(i + 1);
        proof {
            assert(upto.drop_last() =~= d@.take(i as int));
            assert forall|j: int| 0 <= j < upto.len() implies '0' <= #[trigger] upto[j] <= '9' by {
                if j < i {
                    assert(d@.take(i as int)[j] == upto[j]);
                }
            }
            assert(decimal_value(upto) == n * 10 + v);
        }
        if v > max || n > (max - v) / 10 {
            proof {
                if all_digits(d@) {
                    decimal_value_grows(d@, i + 1);
                }
            }
            return None;
        }
        n = n * 10 + v;
    }
    proof {
        assert(d@.take(d@.len() as int) =~= d@);
    }
    Some(n)
}

/// What std parses `s` to as a `u32`.
pub open spec fn parsed_u32(s: Seq<char>) -> Option<u32> {
    match parsed_unsigned(s, u32::MAX as int) {
        Some(n) => Some(n as u32),
        None => None,
    }
}

/// Parses a `u32`.
pub fn parse_u32(s: &[char]) -> (r: Option<u32>)
    ensures
        r == parsed_u32(s@),
{
    match parse_unsigned(s, u32::MAX as u64) {
        Some(n) => Some(n as u32),
        None => None,
    }
}

/// What std parses `s` to as an `i32`: an optional sign, then one or more digits.
pub open spec fn parsed_i32(s: Seq<char>) -> Option<i32> {
    if s.len() > 0 && s[0] == '-' {
        let d = s.skip(1);
        if d.len() > 0 && all_digits(d) && decimal_value(d) <= 0x8000_0000 {
            Some((-decimal_value(d)) as i32)
        } else {
            None
        }
    } else {
        match parsed_unsigned(s, i32::MAX as int) {
            Some(n) => Some(n as i32),
            None => None,
        }
    }
}

/// Parses an `i32`.
pub fn parse_i32(s: &[char]) -> (r: Option<i32>)
    ensures
        r == parsed_i32(s@),
{
    if s.len() > 0 && s[0] == '-' {
        let d = slice_subrange(s, 1, s.len());
        proof {
            assert(d@ =~= s@.skip(1));
        }
        if d.len() == 0 || d[0] == '+' {
            proof {
                if d@.len() > 0 && all_digits(d@) {
                    assert('0' <= d@[0] <= '9');
                }
            }
            return None;
        }
        match parse_unsigned(d, 0x8000_0000) {
            Some(n) => Some((0 - n as i64) as i32),
            None => None,
        }
    } else {
        match parse_unsigned(s, i32::MAX as u64) {
            Some(n) => Some(n as i32),
            None => None,
        }
    }
}

/// What std parses `s` to as a `u64`.
pub open spec fn parsed_u64(s: Seq<char>) -> Option<u64> {
    match parsed_unsigned(s, u64::MAX as int) {
        Some(n) => Some(n as u64),
        None => None,
    }
}

/// Parses a `u64`.
pub fn parse_u64(s: &[char]) -> (r: Option<u64>)
    ensures
        r == parsed_u64(s@),
{
    parse_unsigned(s, u64::MAX)
}

/// The digit for a number below ten.
pub open spec fn digit_char(n: int) -> char {
    ('0' as u32 + n as u32) as char
}

/// The decimal digits of `n`, without leading zeros.
pub open spec fn decimal(n: nat) -> Seq<char>
    decreases n,
{
    if n < 10 {
        seq![digit_char(n as int)]
    } else {
        decimal(n / 10).push(digit_char((n % 10) as int))
    }
}

/// The digit for a number below ten.
pub fn digit_for(n: u64) -> (c: char)
    requires
        n < 10,
    ensures
        c == digit_char(n as int),
{
    match n {
        0 => '0',
        1 => '1',
        2 => '2',
        3 => '3',
        4 => '4',
        5 => '5',
        6 => '6',
        7 => '7',
        8 => '8',
        _ => '9',
    }
}

/// The decimal digits of `n`.
pub fn decimal_chars(n: u64) -> (out: Vec<char>)
    ensures
        out@ == decimal(n as nat),
    decreases n,
{
    if n < 10 {
        let mut out: Vec<char> = Vec::new();
        out.push(digit_for(n));
        proof {
            assert(out@ =~= seq![digit_char(n as int)]);
        }
        out
    } else {
        let mut out = decimal_chars(n / 10);
        out.push(digit_for(n % 10));
        out
    }
}

/// The decimal digits of `n` as a string.
pub fn decimal_text(n: u64) -> (out: String)
    ensures
        out@ == decimal(n as nat),
{
    let chars = decimal_chars(n);
    from_chars(chars.as_slice())
}

/// Reading back the digits of a number gives the number.
pub proof fn decimal_reads_back(n: nat)
    ensures
        decimal(n).len() > 0,
        all_digits(decimal(n)),
        decimal_value(decimal(n)) == n,
    decreases n,
{
    if n >= 10 {
        decimal_reads_back(n / 10);
        let s = decimal(n);
        assert(s.drop_last() =~= decimal(n / 10));
        assert forall|i: int| 0 <= i < s.len() implies '0' <= #[trigger] s[i] <= '9' by {
            if i < s.len() - 1 {
                assert(s[i] == decimal(n / 10)[i]);
            }
        }
    } else {
        assert(decimal(n).drop_last() =~= Seq::<char>::empty());
        assert(decimal_value(decimal(n).drop_last()) == 0);
    }
}

/// A number in decimal notation is parsed to itself.
pub proof fn decimal_parses(n: nat, max: int)
    requires
        n <= max,
    ensures
        parsed_unsigned(decimal(n), max) == Some(n as int),
{
    decimal_reads_back(n);
    assert('0' <= decimal(n)[0]);
}

/// Different numbers have different notations.
pub proof fn decimal_is_unique(a: nat, b: nat)
    requires
        decimal(a) == decimal(b),
    ensures
        a == b,
{
    decimal_reads_back(a);
    decimal_reads_back(b);
}

/// A count as the user interface holds it; one that is too large wraps around.
pub open spec fn shown_count(n: nat) -> i32 {
    n as i32
}

/// A count as the user interface holds it.
pub fn to_count(n: u128) -> (c: i32)
    ensures
        c == shown_count(n as nat),
{
    #[verifier::truncate]
    (n as i32)
}

/// A count that the user interface can hold is held as it is.
pub proof fn small_counts_are_shown(n: nat)
    requires
        n <= i32::MAX,
    ensures
        shown_count(n) == n,
{
}

/// Only digits are parsed to a number, after at most one plus sign, and only to one that fits.
pub proof fn only_numbers_are_parsed(s: Seq<char>, max: int)
    ensures
        parsed_unsigned(s, max) matches Some(n) ==> 0 <= n <= max,
        forall|i: int|
            1 <= i < s.len() && !('0' <= #[trigger] s[i] <= '9') ==> parsed_unsigned(s, max) is None,
        s.len() > 0 && s[0] != '+' && !('0' <= s[0] <= '9') ==> parsed_unsigned(s, max) is None,
        s.len() == 0 ==> parsed_unsigned(s, max) is None,
        forall|n: nat|
            n > max && s == #[trigger] decimal(n) ==> parsed_unsigned(s, max) is None,
{
    let d = without_plus(s);
    if parsed_unsigned(s, max) is Some {
        decimal_value_bounds(d);
        assert forall|i: int| 1 <= i < s.len() implies '0' <= #[trigger] s[i] <= '9' by {
            if s[0] == '+' {
                assert(d[i - 1] == s[i]);
            } else {
                assert(d[i] == s[i]);
            }
        }
        if s[0] != '+' {
            assert(d[0] == s[0]);
        }
        assert forall|n: nat| s == #[trigger] decimal(n) implies n <= max by {
            decimal_reads_back(n);
            assert('0' <= decimal(n)[0]);
        }
    }
}

/// A number in decimal notation is a word.
pub proof fn decimal_is_one_word(n: nat)
    ensures
        is_one_word(decimal(n)),
{
    decimal_reads_back(n);
    let d = decimal(n);
    assert forall|i: int| 0 <= i < d.len() implies !is_space(#[trigger] d[i]) by {
        assert('0' <= d[i] <= '9');
    }
}

/// A sign before digits is read, and a number of either sign only where it fits.
pub proof fn signed_numbers_are_parsed(n: nat)
    ensures
        n <= 0x8000_0000 ==> parsed_i32(seq!['-'] + decimal(n)) == Some((-n) as i32),
        n > 0x8000_0000 ==> parsed_i32(seq!['-'] + decimal(n)) is None,
        n <= 0x7fff_ffff ==> parsed_i32(decimal(n)) == Some(n as i32),
        n > 0x7fff_ffff ==> parsed_i32(decimal(n)) is None,
{
    let s = seq!['-'] + decimal(n);
    decimal_reads_back(n);
    assert('0' <= decimal(n)[0]);
    assert(s[0] == '-');
    assert(s.skip(1) =~= decimal(n));
    only_numbers_are_parsed(decimal(n), i32::MAX as int);
    if n <= 0x7fff_ffff {
        decimal_parses(n, i32::MAX as int);
    }
}

} // verus!
