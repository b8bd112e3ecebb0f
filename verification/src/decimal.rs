//! Base-ten numbers as text: what a run of digits denotes, how a number is
//! written, and the conversions both ways.

use vstd::prelude::*;
use crate::power::{lemma_power_grows, lemma_powers_of_ten, power};

verus! {

/// Whether `c` is one of the ASCII digits `0` to `9`.
pub open spec fn is_digit(c: char) -> bool {
    0x30 <= c as int <= 0x39
}

/// The number an ASCII digit stands for.
pub open spec fn digit_value(c: char) -> nat
    recommends
        is_digit(c),
{
    (c as int - 0x30) as nat
}

/// The ASCII digit for a number below ten.
pub open spec fn digit_char(d: nat) -> char
    recommends
        d < 10,
{
    if d == 0 {
        '0'
    } else if d == 1 {
        '1'
    } else if d == 2 {
        '2'
    } else if d == 3 {
        '3'
    } else if d == 4 {
        '4'
    } else if d == 5 {
        '5'
    } else if d == 6 {
        '6'
    } else if d == 7 {
        '7'
    } else if d == 8 {
        '8'
    } else {
        '9'
    }
}

/// Whether every character of `s` is an ASCII digit.
pub open spec fn all_digits(s: Seq<char>) -> bool {
    forall|i: int| 0 <= i < s.len() ==> is_digit(#[trigger] s[i])
}

/// The number that a run of ASCII digits writes in base ten.
pub open spec fn digits_value(s: Seq<char>) -> nat
    decreases s.len(),
{
    if s.len() == 0 {
        0
    } else {
        digits_value(s.drop_last()) * 10 + digit_value(s.last())
    }
}

/// The shortest base-ten writing of `n`.
pub open spec fn decimal(n: nat) -> Seq<char>
    decreases n,
{
    if n < 10 {
        seq![digit_char(n)]
    } else {
        decimal(n / 10).push(digit_char(n % 10))
    }
}

/// The base-ten writing of an integer, with `-` before a negative one.
pub open spec fn signed_decimal(i: int) -> Seq<char> {
    if i < 0 {
        seq!['-'] + decimal((-i) as nat)
    } else {
        decimal(i as nat)
    }
}

/// What a run of characters denotes as an unsigned number: an optional `+`,
/// then at least one digit.
pub open spec fn parse_unsigned(s: Seq<char>) -> Option<nat> {
    let body = if s.len() > 0 && s[0] == '+' {
        s.drop_first()
    } else {
        s
    };
    if body.len() > 0 && all_digits(body) {
        Some(digits_value(body))
    } else {
        None
    }
}

/// What a run of characters denotes as a signed number: an optional `+` or
/// `-`, then at least one digit.
pub open spec fn parse_signed(s: Seq<char>) -> Option<int> {
    if s.len() > 0 && s[0] == '-' {
        let body = s.drop_first();
        if body.len() > 0 && all_digits(body) {
            Some(-(digits_value(body) as int))
        } else {
            None
        }
    } else {
        match parse_unsigned(s) {
            Some(n) => Some(n as int),
            None => None,
        }
    }
}

/// The `u64` that `s` denotes, if it denotes one.
pub open spec fn parse_u64_spec(s: Seq<char>) -> Option<u64> {
    match parse_unsigned(s) {
        Some(n) => if n <= u64::MAX {
            Some(n as u64)
        } else {
            None
        },
        None => None,
    }
}

/// The `i64` that `s` denotes, if it denotes one.
pub open spec fn parse_i64_spec(s: Seq<char>) -> Option<i64> {
    match parse_signed(s) {
        Some(n) => if i64::MIN <= n <= i64::MAX {
            Some(n as i64)
        } else {
            None
        },
        None => None,
    }
}

/// The `i32` that `s` denotes, if it denotes one.
pub open spec fn parse_i32_spec(s: Seq<char>) -> Option<i32> {
    match parse_signed(s) {
        Some(n) => if i32::MIN <= n <= i32::MAX {
            Some(n as i32)
        } else {
            None
        },
        None => None,
    }
}

/// Whether `c` is an ASCII digit.
pub fn is_digit_char(c: char) -> (b: bool)
    ensures
        b == is_digit(c),
{
    let n: u32 = c as u32;
    0x30 <= n && n <= 0x39
}

/// A prefix of a run of digits denotes no more than the whole run.
pub proof fn lemma_digits_value_prefix(s: Seq<char>, k: int)
    requires
        all_digits(s),
        0 <= k <= s.len(),
    ensures
        digits_value(s.take(k)) <= digits_value(s),
    decreases s.len(),
{
    if k == s.len() {
        assert(s.take(k) == s);
    } else {
        lemma_digits_value_prefix(s.drop_last(), k);
        assert(s.drop_last().take(k) == s.take(k));
    }
}

/// The writing of a number consists of digits, is not empty, and denotes that
/// number.
pub proof fn lemma_decimal_round_trip(n: nat)
    ensures
        decimal(n).len() > 0,
        all_digits(decimal(n)),
        digits_value(decimal(n)) == n,
    decreases n,
{
    if n < 10 {
        assert(decimal(n).drop_last() == Seq::<char>::empty());
        assert(digits_value(decimal(n).drop_last()) == 0);
    } else {
        lemma_decimal_round_trip(n / 10);
        assert(decimal(n).drop_last() == decimal(n / 10));
    }
}

/// Reading back the writing of a number gives that number.
pub proof fn lemma_parse_decimal(n: nat)
    ensures
        parse_unsigned(decimal(n)) == Some(n),
{
    lemma_decimal_round_trip(n);
    assert(is_digit(decimal(n)[0]));
}

/// The digit for a number below ten.
pub fn digit_of(d: u8) -> (c: char)
    requires
        d < 10,
    ensures
        c == digit_char(d as nat),
        is_digit(c),
        digit_value(c) == d,
{
    let b: u8 = 0x30 + d;
    b as char
}

/// Appends the base-ten writing of `n` to `out`.
pub fn push_decimal(out: &mut String, n: u64)
    ensures
        final(out)@ == old(out)@ + decimal(n as nat),
    decreases n,
{
    if n >= 10 {
        push_decimal(out, n / 10);
    }
    out.push(digit_of((n % 10) as u8));
    proof {
        if n >= 10 {
            assert(old(out)@ + decimal(n as nat) == (old(out)@ + decimal((n / 10) as nat)).push(
                digit_char((n % 10) as nat),
            ));
        } else {
            assert(old(out)@ + decimal(n as nat) == old(out)@.push(digit_char(n as nat)));
        }
    }
}

/// Appends the base-ten writing of `i` to `out`, with `-` before a negative
/// number.
pub fn push_signed(out: &mut String, i: i64)
    ensures
        final(out)@ == old(out)@ + signed_decimal(i as int),
{
    if i < 0 {
        out.push('-');
        let magnitude: u64 = (-(i + 1)) as u64 + 1;
        push_decimal(out, magnitude);
        assert(old(out)@ + signed_decimal(i as int) == old(out)@.push('-') + decimal(
            magnitude as nat,
        ));
    } else {
        push_decimal(out, i as u64);
    }
}

/// What the digits `v[from..]` denote, where they are digits, at least one,
/// and denote no more than `limit`.
pub fn parse_digits(v: &Vec<char>, from: usize, limit: u64) -> (r: Option<u64>)
    requires
        from <= v.len(),
    ensures
        r == ({
            let body = v@.skip(from as int);
            if body.len() > 0 && all_digits(body) && digits_value(body) <= limit {
                Some(digits_value(body) as u64)
            } else {
                None
            }
        }),
{
    let ghost body = v@.skip(from as int);
    if from == v.len() {
        return None;
    }
    let mut acc: u64 = 0;
    let mut i: usize = from;
    assert(body.take(0) == Seq::<char>::empty());
    while i < v.len()
        invariant
            from <= i <= v.len(),
            body == v@.skip(from as int),
            all_digits(body.take(i - from)),
            acc == digits_value(body.take(i - from)),
            acc <= limit,
        decreases v.len() - i,
    {
        let c = v[i];
        let ghost next = body.take(i - from + 1);
        proof {
            assert(next.drop_last() == body.take(i - from));
            assert(next.last() == c);
        }
        if !is_digit_char(c) {
            assert(!is_digit(body[i - from]));
            return None;
        }
        let d: u64 = (c as u32 - 0x30) as u64;
        if d > limit || acc > (limit - d) / 10 {
            proof {
                assert(digits_value(next) == acc * 10 + d);
                assert(digits_value(next) > limit);
                if all_digits(body) {
                    lemma_digits_value_prefix(body, i - from + 1);
                }
            }
            return None;
        }
        acc = acc * 10 + d;
        i += 1;
    }
    assert(body.take(i - from) == body);
    Some(acc)
}

/// The `u64` that `v` denotes: an optional `+`, then digits.
pub fn parse_u64_chars(v: &Vec<char>) -> (r: Option<u64>)
    ensures
        r == parse_u64_spec(v@),
{
    let from: usize = if v.len() > 0 && v[0] == '+' {
        1
    } else {
        0
    };
    proof {
        assert(v@.skip(0) == v@);
        assert(v@.skip(1) == v@.drop_first());
    }
    parse_digits(v, from, u64::MAX)
}

/// The `i64` that `v` denotes: an optional sign, then digits.
pub fn parse_i64_chars(v: &Vec<char>) -> (r: Option<i64>)
    ensures
        r == parse_i64_spec(v@),
{
    proof {
        assert(v@.skip(0) == v@);
        assert(v@.skip(1) == v@.drop_first());
    }
    if v.len() > 0 && v[0] == '-' {
        match parse_digits(v, 1, 0x8000_0000_0000_0000) {
            Some(m) => {
                if m == 0x8000_0000_0000_0000 {
                    Some(i64::MIN)
                } else {
                    Some(-(m as i64))
                }
            },
            None => None,
        }
    } else {
        let from: usize = if v.len() > 0 && v[0] == '+' {
            1
        } else {
            0
        };
        match parse_digits(v, from, 0x7FFF_FFFF_FFFF_FFFF) {
            Some(m) => Some(m as i64),
            None => None,
        }
    }
}

/// The `i32` that `v` denotes: an optional sign, then digits.
pub fn parse_i32_chars(v: &Vec<char>) -> (r: Option<i32>)
    ensures
        r == parse_i32_spec(v@),
{
    proof {
        assert(v@.skip(0) == v@);
        assert(v@.skip(1) == v@.drop_first());
    }
    if v.len() > 0 && v[0] == '-' {
        match parse_digits(v, 1, 0x8000_0000) {
            Some(m) => {
                if m == 0x8000_0000 {
                    Some(i32::MIN)
                } else {
                    Some(-(m as i32))
                }
            },
            None => None,
        }
    } else {
        let from: usize = if v.len() > 0 && v[0] == '+' {
            1
        } else {
            0
        };
        match parse_digits(v, from, 0x7FFF_FFFF) {
            Some(m) => Some(m as i32),
            None => None,
        }
    }
}

/// `k` digits `0`.
pub open spec fn zeros(k: nat) -> Seq<char> {
    Seq::new(k, |i: int| '0')
}

/// Whether `s` holds a character other than `0`.
pub open spec fn some_nonzero(s: Seq<char>) -> bool {
    exists|i: int| 0 <= i < s.len() && s[i] != '0'
}

/// A run of digits denotes less than ten to its length.
pub proof fn lemma_digits_bound(s: Seq<char>)
    requires
        all_digits(s),
    ensures
        digits_value(s) < power(10, s.len()),
    decreases s.len(),
{
    if s.len() > 0 {
        lemma_digits_bound(s.drop_last());
        assert(is_digit(s.last()));
    }
}

/// A run of digits denotes its first `k` digits shifted left, plus the rest.
pub proof fn lemma_digits_split(s: Seq<char>, k: int)
    requires
        0 <= k <= s.len(),
    ensures
        digits_value(s) == digits_value(s.take(k)) * power(10, (s.len() - k) as nat)
            + digits_value(s.skip(k)),
    decreases s.len(),
{
    if k == s.len() {
        assert(s.take(k) == s);
        assert(s.skip(k).len() == 0);
        assert(power(10, 0) == 1);
        assert(digits_value(s) * 1 == digits_value(s));
    } else {
        let t = s.drop_last();
        lemma_digits_split(t, k);
        assert(t.take(k) == s.take(k));
        assert(t.skip(k) == s.skip(k).drop_last());
        assert(s.skip(k).last() == s.last());
        let a = digits_value(s.take(k));
        let p = power(10, (t.len() - k) as nat);
        let b = digits_value(t.skip(k));
        let d = digit_value(s.last());
        assert(power(10, (s.len() - k) as nat) == 10 * p);
        assert((a * p + b) * 10 + d == a * (10 * p) + (b * 10 + d)) by (nonlinear_arith);
        assert(digits_value(s) == digits_value(t) * 10 + d);
        assert(digits_value(t) == a * p + b);
        assert(digits_value(s.skip(k)) == b * 10 + d);
    }
}

/// Digits written one run after another denote the first run shifted left
/// plus the second.
pub proof fn lemma_digits_concat(a: Seq<char>, b: Seq<char>)
    ensures
        digits_value(a + b) == digits_value(a) * power(10, b.len()) + digits_value(b),
{
    lemma_digits_split(a + b, a.len() as int);
    assert((a + b).take(a.len() as int) == a);
    assert((a + b).skip(a.len() as int) == b);
}

/// A run of zeros denotes zero.
pub proof fn lemma_zeros(k: nat)
    ensures
        all_digits(zeros(k)),
        digits_value(zeros(k)) == 0,
    decreases k,
{
    if k > 0 {
        lemma_zeros((k - 1) as nat);
        assert(zeros(k).drop_last() == zeros((k - 1) as nat));
    }
}

/// Digits that are all `0` denote zero; digits with another digit among
/// them denote more.
pub proof fn lemma_digits_zero(s: Seq<char>)
    requires
        all_digits(s),
    ensures
        (forall|i: int| 0 <= i < s.len() ==> s[i] == '0') ==> digits_value(s) == 0,
        (exists|i: int| 0 <= i < s.len() && s[i] != '0') ==> digits_value(s) >= 1,
    decreases s.len(),
{
    if s.len() > 0 {
        let front = s.drop_last();
        lemma_digits_zero(front);
        assert(is_digit(s.last()));
        if forall|i: int| 0 <= i < s.len() ==> s[i] == '0' {
            assert forall|i: int| 0 <= i < front.len() implies front[i] == '0' by {
                assert(s[i] == '0');
            }
            assert(s[s.len() - 1] == '0');
        }
        if exists|i: int| 0 <= i < s.len() && s[i] != '0' {
            let i = choose|i: int| 0 <= i < s.len() && s[i] != '0';
            if i < s.len() - 1 {
                assert(front[i] != '0');
            } else {
                assert(digit_value(s.last()) >= 1);
            }
        }
    }
}

/// The digits on both sides of the point, taken together, are digits, and
/// denote zero exactly when each of them is `0`.
pub proof fn lemma_joined_digits(whole: Seq<char>, fraction: Seq<char>)
    requires
        all_digits(whole),
        all_digits(fraction),
    ensures
        all_digits(whole + fraction),
        some_nonzero(whole) || some_nonzero(fraction) ==> digits_value(whole + fraction)
            >= 1,
        !some_nonzero(whole) && !some_nonzero(fraction) ==> digits_value(whole + fraction)
            == 0,
{
    let digits = whole + fraction;
    assert forall|i: int| 0 <= i < digits.len() implies is_digit(#[trigger] digits[i]) by {
        if i < whole.len() {
            assert(digits[i] == whole[i]);
        } else {
            assert(digits[i] == fraction[i - whole.len()]);
        }
    }
    lemma_digits_zero(digits);
    if some_nonzero(whole) {
        let i = choose|i: int| 0 <= i < whole.len() && whole[i] != '0';
        assert(digits[i] != '0');
    } else if some_nonzero(fraction) {
        let i = choose|i: int| 0 <= i < fraction.len() && fraction[i] != '0';
        assert(digits[whole.len() + i] != '0');
    } else {
        assert forall|i: int| 0 <= i < digits.len() implies digits[i] == '0' by {
            if i < whole.len() {
                assert(digits[i] == whole[i]);
            } else {
                assert(digits[i] == fraction[i - whole.len()]);
            }
        }
    }
}

/// A number too large for `u64` takes at least twenty digits.
pub proof fn lemma_many_digits(s: Seq<char>)
    requires
        all_digits(s),
        digits_value(s) > u64::MAX,
    ensures
        s.len() >= 20,
{
    lemma_digits_bound(s);
    lemma_powers_of_ten();
    if s.len() < 20 {
        lemma_power_grows(10, s.len(), 19);
    }
}

/// Whether `v[from..to]` holds digits only.
pub fn digits_only(v: &Vec<char>, from: usize, to: usize) -> (b: bool)
    requires
        from <= to <= v.len(),
    ensures
        b == all_digits(v@.subrange(from as int, to as int)),
{
    let mut i: usize = from;
    while i < to
        invariant
            from <= i <= to <= v.len(),
            forall|k: int| from <= k < i ==> is_digit(v@[k]),
        decreases to - i,
    {
        if !is_digit_char(v[i]) {
            assert(!is_digit(v@.subrange(from as int, to as int)[i - from]));
            return false;
        }
        i += 1;
    }
    true
}

/// Whether `v` holds a character other than `0`.
pub fn has_nonzero(v: &Vec<char>) -> (b: bool)
    ensures
        b == some_nonzero(v@),
{
    let mut i: usize = 0;
    while i < v.len()
        invariant
            i <= v.len(),
            forall|k: int| 0 <= k < i ==> v@[k] == '0',
        decreases v.len() - i,
    {
        if v[i] != '0' {
            return true;
        }
        i += 1;
    }
    false
}

} // verus!
