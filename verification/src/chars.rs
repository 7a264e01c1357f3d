//! Characters and digit strings: digit values in an arbitrary radix,
//! unsigned integers read from and written to character sequences, and the
//! conversions between `String` and `Vec<char>` the other modules build on.

use vstd::prelude::*;
use vstd::arithmetic::div_mod::{
    lemma_div_is_strictly_smaller, lemma_fundamental_div_mod, lemma_remainder_lower,
    lemma_remainder_upper,
};
use vstd::arithmetic::mul::{lemma_mul_inequality, lemma_mul_increases};
use vstd::string::StrSliceExecFns;

verus! {

/// Value of `c` as a digit of the given base, `None` when `c` is no such
/// digit. Letters of either case count from ten.
pub open spec fn digit_val(c: char, base: u32) -> Option<u32> {
    let u = c as u32;
    let v: u32 = if ('0' as u32) <= u <= ('9' as u32) {
        (u - ('0' as u32)) as u32
    } else if ('a' as u32) <= u <= ('z' as u32) {
        (u - ('a' as u32) + 10) as u32
    } else if ('A' as u32) <= u <= ('Z' as u32) {
        (u - ('A' as u32) + 10) as u32
    } else {
        36
    };
    if v < base {
        Some(v)
    } else {
        None
    }
}

/// The digit character for a value under sixteen, lower case.
pub open spec fn digit_char(d: nat) -> char {
    if d == 0 {
        '0'
    } else if d == 1 {
        '1'
    } else if d == 2 {
        '2'
    } else if d == 3 {
        '3'
    } else if d == 4 {
        '4'
    } else if d == 5 {
        '5'
    } else if d == 6 {
        '6'
    } else if d == 7 {
        '7'
    } else if d == 8 {
        '8'
    } else if d == 9 {
        '9'
    } else if d == 10 {
        'a'
    } else if d == 11 {
        'b'
    } else if d == 12 {
        'c'
    } else if d == 13 {
        'd'
    } else if d == 14 {
        'e'
    } else {
        'f'
    }
}

/// The number a digit string denotes in the given base, most significant
/// digit first; `None` when the string is empty or holds a non-digit.
pub open spec fn radix_val(s: Seq<char>, base: u32) -> Option<nat>
    decreases s.len(),
{
    if s.len() == 0 {
        None
    } else if s.len() == 1 {
        match digit_val(s[0], base) {
            Some(d) => Some(d as nat),
            None => None,
        }
    } else {
        match (radix_val(s.drop_last(), base), digit_val(s.last(), base)) {
            (Some(v), Some(d)) => Some((v * base + d) as nat),
            _ => None,
        }
    }
}

/// The number a digit string denotes, allowing one leading plus sign when
/// `sign` is set.
pub open spec fn radix_num(s: Seq<char>, base: u32, sign: bool) -> Option<nat> {
    if sign && s.len() > 0 && s[0] == '+' {
        radix_val(s.skip(1), base)
    } else {
        radix_val(s, base)
    }
}

/// A denoted number has only digits under it.
proof fn lemma_radix_all_digits(s: Seq<char>, base: u32)
    requires
        radix_val(s, base) is Some,
    ensures
        forall|i: int| 0 <= i < s.len() ==> digit_val(s[i], base) is Some,
    decreases s.len(),
{
    if s.len() > 1 {
        lemma_radix_all_digits(s.drop_last(), base);
        assert forall|i: int| 0 <= i < s.len() implies digit_val(s[i], base) is Some by {
            if i < s.len() - 1 {
                assert(s.drop_last()[i] == s[i]);
            }
        };
    }
}

/// A prefix of a denoted number denotes no more than the whole.
proof fn lemma_radix_prefix_le(s: Seq<char>, base: u32, i: int)
    requires
        base >= 1,
        1 <= i <= s.len(),
        radix_val(s, base) is Some,
    ensures
        radix_val(s.take(i), base) is Some,
        radix_val(s.take(i), base)->0 <= radix_val(s, base)->0,
    decreases s.len() - i,
{
    if i == s.len() {
        assert(s.take(i) =~= s);
    } else {
        lemma_radix_prefix_le(s, base, i + 1);
        let t = s.take(i + 1);
        assert(t.drop_last() =~= s.take(i));
        assert(t.last() == s[i]);
        if t.len() > 1 {
            let v = radix_val(s.take(i), base)->0;
            if v == 0 {
                vstd::arithmetic::mul::lemma_mul_by_zero_is_zero(base as int);
            } else {
                lemma_mul_increases(base as int, v as int);
                vstd::arithmetic::mul::lemma_mul_is_commutative(base as int, v as int);
            }
        }
    }
}

/// Reads one character as a digit of the base.
pub fn digit_of(c: char, base: u32) -> (r: Option<u32>)
    ensures
        r == digit_val(c, base),
{
    let u = c as u32;
    let v: u32 = if u >= 48 && u <= 57 {
        u - 48
    } else if u >= 97 && u <= 122 {
        u - 97 + 10
    } else if u >= 65 && u <= 90 {
        u - 65 + 10
    } else {
        36
    };
    if v < base {
        Some(v)
    } else {
        None
    }
}

/// Writes one digit value as its character, lower case.
pub fn digit_char_of(d: u32) -> (c: char)
    requires
        d < 16,
    ensures
        c == digit_char(d as nat),
{
    if d == 0 {
        '0'
    } else if d == 1 {
        '1'
    } else if d == 2 {
        '2'
    } else if d == 3 {
        '3'
    } else if d == 4 {
        '4'
    } else if d == 5 {
        '5'
    } else if d == 6 {
        '6'
    } else if d == 7 {
        '7'
    } else if d == 8 {
        '8'
    } else if d == 9 {
        '9'
    } else if d == 10 {
        'a'
    } else if d == 11 {
        'b'
    } else if d == 12 {
        'c'
    } else if d == 13 {
        'd'
    } else if d == 14 {
        'e'
    } else {
        'f'
    }
}

/// Reads the characters from `from` onwards as an unsigned number of the
/// given base, with one optional leading plus sign when `sign` is set.
/// `None` exactly when no number is denoted or it does not fit the type.
pub fn parse_uint(s: &Vec<char>, from: usize, base: u32, sign: bool) -> (r: Option<u128>)
    requires
        2 <= base <= 36,
        from <= s@.len(),
    ensures
        r matches Some(v) ==> radix_num(s@.skip(from as int), base, sign) == Some(v as nat),
        r is None ==> !(radix_num(s@.skip(from as int), base, sign) matches Some(v) && v
            <= u128::MAX),
{
    let ghost whole = s@.skip(from as int);
    let mut start = from;
    if sign && from < s.len() && s[from] == '+' {
        start = from + 1;
        proof {
            assert(whole[0] == '+');
            assert(s@.skip(start as int) =~= whole.skip(1));
        }
    }
    let ghost digits = s@.skip(start as int);
    proof {
        assert(radix_num(whole, base, sign) == radix_val(digits, base));
    }
    if start == s.len() {
        return None;
    }
    let mut acc: u128 = 0;
    let mut i = start;
    while i < s.len()
        invariant
            2 <= base <= 36,
            start <= i <= s@.len(),
            start < s@.len(),
            digits == s@.skip(start as int),
            radix_num(s@.skip(from as int), base, sign) == radix_val(digits, base),
            i > start ==> radix_val(s@.subrange(start as int, i as int), base) == Some(
                acc as nat,
            ),
            i == start ==> acc == 0,
        decreases s@.len() - i,
    {
        let d = match digit_of(s[i], base) {
            Some(d) => d,
            None => {
                proof {
                    if radix_val(digits, base) is Some {
                        lemma_radix_all_digits(digits, base);
                        assert(digits[i - start] == s@[i as int]);
                        assert(false);
                    }
                }
                return None;
            },
        };
        proof {
            let pre = s@.subrange(start as int, i as int);
            let now = s@.subrange(start as int, i + 1);
            assert(now.drop_last() =~= pre);
            assert(now.last() == s@[i as int]);
        }
        if acc > (u128::MAX - d as u128) / (base as u128) {
            proof {
                assert(i > start);
                let now = s@.subrange(start as int, i + 1);
                let q = (u128::MAX - d) as int / base as int;
                lemma_fundamental_div_mod((u128::MAX - d) as int, base as int);
                vstd::arithmetic::mul::lemma_mul_is_commutative(base as int, q);
                lemma_mul_inequality(q + 1, acc as int, base as int);
                vstd::arithmetic::mul::lemma_mul_is_distributive_add_other_way(
                    base as int,
                    q,
                    1,
                );
                assert(radix_val(now, base)->0 > u128::MAX);
                if radix_val(digits, base) is Some {
                    lemma_radix_prefix_le(digits, base, i + 1 - start);
                    assert(digits.take(i + 1 - start) =~= now);
                }
            }
            return None;
        }
        proof {
            let q = (u128::MAX - d) as int / base as int;
            lemma_fundamental_div_mod((u128::MAX - d) as int, base as int);
            vstd::arithmetic::mul::lemma_mul_is_commutative(base as int, q);
            lemma_mul_inequality(acc as int, q, base as int);
        }
        acc = acc * base as u128 + d as u128;
        i += 1;
    }
    proof {
        assert(s@.subrange(start as int, s@.len() as int) =~= digits);
    }
    Some(acc)
}

/// Digits of `n` in the given base, most significant first, without leading
/// zeros.
pub open spec fn short_digits(n: nat, base: nat) -> Seq<char>
    recommends
        2 <= base <= 16,
    decreases n,
    via short_digits_dec
{
    if base < 2 || n < base {
        seq![digit_char(n)]
    } else {
        short_digits(n / base, base).push(digit_char(n % base))
    }
}

#[via_fn]
proof fn short_digits_dec(n: nat, base: nat) {
    if !(base < 2 || n < base) {
        lemma_div_is_strictly_smaller(n as int, base as int);
    }
}

/// Decimal digits of `n`, most significant first, without leading zeros.
pub open spec fn dec_digits(n: nat) -> Seq<char> {
    short_digits(n, 10)
}

/// Exactly `width` digits of `n` in the given base, most significant first,
/// with leading zeros kept.
pub open spec fn fixed_digits(n: nat, base: nat, width: nat) -> Seq<char>
    decreases width,
{
    if width == 0 {
        Seq::empty()
    } else {
        fixed_digits(n / base, base, (width - 1) as nat).push(digit_char(n % base))
    }
}

/// Writes `n` in the given base without leading zeros.
pub fn to_short(n: u128, base: u32) -> (r: Vec<char>)
    requires
        2 <= base <= 16,
    ensures
        r@ == short_digits(n as nat, base as nat),
    decreases n,
{
    if n < base as u128 {
        let mut v: Vec<char> = Vec::new();
        v.push(digit_char_of(n as u32));
        proof {
            assert(v@ =~= short_digits(n as nat, base as nat));
        }
        v
    } else {
        proof {
            lemma_div_is_strictly_smaller(n as int, base as int);
            lemma_remainder_upper(n as int, base as int);
            lemma_remainder_lower(n as int, base as int);
        }
        let mut v = to_short(n / base as u128, base);
        v.push(digit_char_of((n % base as u128) as u32));
        v
    }
}

/// Writes `n` in decimal.
pub fn to_dec(n: u128) -> (r: Vec<char>)
    ensures
        r@ == dec_digits(n as nat),
{
    to_short(n, 10)
}

/// Writes the low `width` digits of `n` in the given base.
pub fn to_fixed(n: u128, base: u32, width: u32) -> (r: Vec<char>)
    requires
        2 <= base <= 16,
    ensures
        r@ == fixed_digits(n as nat, base as nat, width as nat),
        r@.len() == width,
    decreases width,
{
    if width == 0 {
        let v: Vec<char> = Vec::new();
        proof {
            assert(v@ =~= fixed_digits(n as nat, base as nat, 0));
        }
        v
    } else {
        let mut v = to_fixed(n / base as u128, base, width - 1);
        proof {
            lemma_remainder_upper(n as int, base as int);
            lemma_remainder_lower(n as int, base as int);
        }
        v.push(digit_char_of((n % base as u128) as u32));
        v
    }
}

/// Appends every character of `src` to `dst`.
pub fn push_all(dst: &mut Vec<char>, src: &Vec<char>)
    ensures
        final(dst)@ == old(dst)@ + src@,
{
    let mut i: usize = 0;
    while i < src.len()
        invariant
            i <= src@.len(),
            dst@ == old(dst)@ + src@.take(i as int),
        decreases src@.len() - i,
    {
        dst.push(src[i]);
        proof {
            assert(old(dst)@ + src@.take(i + 1) =~= (old(dst)@ + src@.take(i as int)).push(
                src@[i as int],
            ));
        }
        i += 1;
    }
    proof {
        assert(src@.take(src@.len() as int) =~= src@);
    }
}

/// Relies on `String::push`: appends the one character to the string.
#[verifier::external_body]
fn push_char(s: &mut String, c: char)
    ensures
        final(s)@ == old(s)@.push(c),
{
    s.push(c);
}

/// Builds a `String` out of a character vector.
pub fn chars_to_string(v: &Vec<char>) -> (r: String)
    ensures
        r@ == v@,
{
    let mut s = String::new();
    let mut i: usize = 0;
    while i < v.len()
        invariant
            i <= v@.len(),
            s@ == v@.take(i as int),
        decreases v@.len() - i,
    {
        push_char(&mut s, v[i]);
        proof {
            assert(v@.take(i + 1) =~= v@.take(i as int).push(v@[i as int]));
        }
        i += 1;
    }
    proof {
        assert(v@.take(v@.len() as int) =~= v@);
    }
    s
}

/// Splits a string slice into its characters.
pub fn str_to_chars(s: &str) -> (r: Vec<char>)
    ensures
        r@ == s@,
{
    let n = s.unicode_len();
    let mut v: Vec<char> = Vec::new();
    let mut i: usize = 0;
    while i < n
        invariant
            n == s@.len(),
            i <= n,
            v@ == s@.take(i as int),
        decreases n - i,
    {
        v.push(s.get_char(i));
        proof {
            assert(s@.take(i + 1) =~= s@.take(i as int).push(s@[i as int]));
        }
        i += 1;
    }
    proof {
        assert(s@.take(n as int) =~= s@);
    }
    v
}

} // verus!
