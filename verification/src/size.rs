//! Compact byte sizes as text: reading tokens such as `1.5M` into an exact
//! byte count.

use vstd::prelude::*;
use crate::decimal::{
    all_digits, decimal, digits_only, digits_value, has_nonzero, is_digit, lemma_decimal_round_trip,
    lemma_digits_bound, lemma_digits_concat, lemma_digits_split, lemma_joined_digits,
    lemma_many_digits, lemma_parse_decimal, lemma_zeros, parse_digits, parse_signed,
    parse_u64_chars, parse_u64_spec, zeros,
};
use crate::power::{
    lemma_power_add, lemma_power_grows, lemma_power_of_five_bound, lemma_power_of_ten,
    lemma_power_of_two_grows, lemma_power_positive, lemma_powers_of_ten, lemma_unit_powers, power,
};
use crate::text::{
    find_char, find_from, is_text, lemma_find_char_bounds, lowercase, lowercase_chars, slice_chars,
    to_chars, trim, trim_chars, trim_end, trim_start,
};

verus! {

/// How many steps of 1024 a unit letter stands for: `K` one, `M` two, `G`
/// three, `T` four, in either case. `B` and every other character stand for
/// none.
pub open spec fn unit_rank(unit: char) -> nat {
    if unit == 'K' || unit == 'k' {
        1
    } else if unit == 'M' || unit == 'm' {
        2
    } else if unit == 'G' || unit == 'g' {
        3
    } else if unit == 'T' || unit == 't' {
        4
    } else {
        0
    }
}

/// A number as it is written: an optional sign, digits with an optional
/// point among them, and an optional power of ten.
pub ghost struct Numeral {
    pub negative: bool,
    pub whole: Seq<char>,
    pub fraction: Seq<char>,
    pub exponent: int,
}

/// Whether `s` starts with a sign.
pub open spec fn has_sign(s: Seq<char>) -> bool {
    s.len() > 0 && (s[0] == '+' || s[0] == '-')
}

/// `s` without its sign, if it has one.
pub open spec fn unsigned_part(s: Seq<char>) -> Seq<char> {
    if has_sign(s) {
        s.drop_first()
    } else {
        s
    }
}

/// The position of the first `e` or `E` in `s`, or `s.len()` where there
/// is none.
pub open spec fn find_exponent(s: Seq<char>) -> int
    decreases s.len(),
{
    if s.len() == 0 || s[0] == 'e' || s[0] == 'E' {
        0
    } else {
        1 + find_exponent(s.drop_first())
    }
}

/// The part of an unsigned number before its `e` or `E`.
pub open spec fn mantissa_of(body: Seq<char>) -> Seq<char> {
    body.take(find_exponent(body))
}

/// The power of ten that an unsigned number ends with: what stands after
/// its `e` or `E`, an optional sign and at least one digit, or zero where
/// the number has no `e`.
pub open spec fn exponent_of(body: Seq<char>) -> Option<int> {
    let mark = find_exponent(body);
    if mark < body.len() {
        parse_signed(body.skip(mark + 1))
    } else {
        Some(0int)
    }
}

/// The digits of a number before its point.
pub open spec fn whole_digits(mantissa: Seq<char>) -> Seq<char> {
    mantissa.take(find_char(mantissa, '.'))
}

/// The digits of a number after its point; none where it has no point.
pub open spec fn fraction_digits(mantissa: Seq<char>) -> Seq<char> {
    let dot = find_char(mantissa, '.');
    if dot < mantissa.len() {
        mantissa.skip(dot + 1)
    } else {
        Seq::empty()
    }
}

/// Whether `mantissa` is digits with at most one point among them and at
/// least one digit in all.
pub open spec fn is_mantissa(mantissa: Seq<char>) -> bool {
    &&& all_digits(whole_digits(mantissa))
    &&& all_digits(fraction_digits(mantissa))
    &&& whole_digits(mantissa).len() + fraction_digits(mantissa).len() > 0
}

/// What `s` denotes as a number. After an optional `+` or `-` come digits
/// with at most one point among them and at least one digit in all. An `e`
/// or `E` may follow, and after it the power of ten. Anything else denotes
/// no number.
pub open spec fn numeral(s: Seq<char>) -> Option<Numeral> {
    let body = unsigned_part(s);
    if is_mantissa(mantissa_of(body)) && exponent_of(body) is Some {
        Some(
            Numeral {
                negative: has_sign(s) && s[0] == '-',
                whole: whole_digits(mantissa_of(body)),
                fraction: fraction_digits(mantissa_of(body)),
                exponent: exponent_of(body)->0,
            },
        )
    } else {
        None
    }
}

/// The digits before the point once the point is moved by the power of
/// ten: to the right for a positive power, to the left for a negative one,
/// zeros filling in where the digits run out.
pub open spec fn shifted_whole(n: Numeral) -> Seq<char> {
    let e = n.exponent;
    if e >= n.fraction.len() {
        n.whole + n.fraction + zeros((e - n.fraction.len()) as nat)
    } else if e >= 0 {
        n.whole + n.fraction.take(e)
    } else if -e <= n.whole.len() {
        n.whole.take(n.whole.len() + e)
    } else {
        Seq::empty()
    }
}

/// The digits after the point once the point is moved by the power of ten.
pub open spec fn shifted_fraction(n: Numeral) -> Seq<char> {
    let e = n.exponent;
    if e >= n.fraction.len() {
        Seq::empty()
    } else if e >= 0 {
        n.fraction.skip(e)
    } else if -e <= n.whole.len() {
        n.whole.skip(n.whole.len() + e) + n.fraction
    } else {
        zeros((-e - n.whole.len()) as nat) + n.whole + n.fraction
    }
}

/// Whether `body` is one of the words for infinity, in any letter case.
pub open spec fn names_infinity(body: Seq<char>) -> bool {
    lowercase(body) == "inf"@ || lowercase(body) == "infinity"@
}

/// Whether `body` is the word for a value that is no number, in any
/// letter case.
pub open spec fn names_no_number(body: Seq<char>) -> bool {
    lowercase(body) == "nan"@
}

/// The whole number of times one fits into `whole.fraction` times two to the
/// `shift`: the product rounded down, with nothing lost before the rounding.
pub open spec fn scaled_floor(whole: Seq<char>, fraction: Seq<char>, shift: nat) -> nat {
    let p = power(10, fraction.len());
    (digits_value(whole) * p + digits_value(fraction)) * power(2, shift) / p
}

/// `n`, or the largest `u64` where `n` is larger.
pub open spec fn clamp(n: nat) -> u64 {
    if n > u64::MAX {
        u64::MAX
    } else {
        n as u64
    }
}

/// The byte count of a number followed by a unit letter: the number times
/// the unit's multiplier, rounded down with nothing lost before the
/// rounding, and held to the range of `u64`. A negative number counts as
/// zero, infinity as the largest `u64`, and a text that is no number, or
/// says so, as zero.
pub open spec fn scaled_bytes(number: Seq<char>, unit: char) -> u64 {
    let negative = has_sign(number) && number[0] == '-';
    if names_infinity(unsigned_part(number)) {
        if negative {
            0
        } else {
            u64::MAX
        }
    } else if names_no_number(unsigned_part(number)) {
        0
    } else {
        match numeral(number) {
            Some(n) => if n.negative {
                0
            } else {
                clamp(scaled_floor(shifted_whole(n), shifted_fraction(n), 10 * unit_rank(unit)))
            },
            None => 0,
        }
    }
}

/// The byte count that a size token denotes. White space around the token is
/// ignored. An empty token is zero; a token that is a `u64` is that number of
/// bytes; any other token is read as a number followed by one unit character.
pub open spec fn compact_bytes(token: Seq<char>) -> u64 {
    let t = trim(token);
    if t.len() == 0 {
        0
    } else {
        match parse_u64_spec(t) {
            Some(v) => v,
            None => scaled_bytes(t.drop_last(), t.last()),
        }
    }
}

/// A token that is the plain decimal writing of a `u64` denotes that number
/// of bytes.
pub proof fn lemma_plain_integer_counts_itself(n: u64)
    ensures
        compact_bytes(decimal(n as nat)) == n,
{
    let s = decimal(n as nat);
    lemma_decimal_round_trip(n as nat);
    lemma_parse_decimal(n as nat);
    assert(is_digit(s[0]) && is_digit(s.last()));
    assert(trim_start(s) == s);
    assert(trim_end(s) == s);
}

/// Reads a compact size token into bytes.
///
/// White space around the token is ignored. An empty token gives zero and a
/// plain unsigned integer gives itself. Any other token is split into a
/// number and a final unit character: `K`, `M`, `G` and `T` (in either case)
/// multiply by 1024 once to four times, any other character by one. The
/// number may have a sign, a point and a power of ten (`1.5e3`). The product
/// is rounded down exactly and held to the range of `u64`, so `inf` gives
/// the largest `u64`. A number that cannot be read, `nan`, or a negative
/// number gives zero.
pub fn parse_compact_bytes(token: &str) -> (bytes: u64)
    ensures
        bytes == compact_bytes(token@),
{
    let chars = to_chars(token);
    compact_bytes_of(&chars)
}

/// The byte count that the characters of a size token denote.
pub fn compact_bytes_of(token: &Vec<char>) -> (bytes: u64)
    ensures
        bytes == compact_bytes(token@),
{
    let t = trim_chars(token);
    if t.len() == 0 {
        return 0;
    }
    match parse_u64_chars(&t) {
        Some(v) => v,
        None => {
            let number = slice_chars(&t, 0, t.len() - 1);
            assert(number@ == t@.drop_last());
            scaled_bytes_of(&number, t[t.len() - 1])
        },
    }
}

/// The byte count of `number` followed by `unit`.
pub fn scaled_bytes_of(number: &Vec<char>, unit: char) -> (r: u64)
    ensures
        r == scaled_bytes(number@, unit),
{
    let len = number.len();
    let signed = len > 0 && (number[0] == '+' || number[0] == '-');
    let negative = signed && number[0] == '-';
    let start: usize = if signed {
        1
    } else {
        0
    };
    let body = slice_chars(number, start, len);
    proof {
        assert(number@.subrange(0, len as int) == number@);
        assert(number@.subrange(1, len as int) == number@.drop_first());
    }
    let word = lowercase_chars(&body);
    if is_text(&word, "inf") || is_text(&word, "infinity") {
        return if negative {
            0
        } else {
            u64::MAX
        };
    }
    if is_text(&word, "nan") {
        return 0;
    }
    match read_numeral(number) {
        Some(written) => {
            if written.negative {
                0
            } else {
                let ghost n = numeral(number@)->0;
                scaled_power(
                    &written.whole,
                    &written.fraction,
                    written.power,
                    unit_rank_of(unit),
                    Ghost(n),
                )
            }
        },
        None => 0,
    }
}

/// The power of ten of a number as far as a `u64` can hold it.
enum PowerOfTen {
    /// The text is no power of ten.
    Unreadable,
    /// Ten to the given power.
    Up(u64),
    /// Ten to minus the given power.
    Down(u64),
    /// A power beyond `u64`.
    FarUp,
    /// A power below minus `u64`.
    FarDown,
}

/// Whether `power` reports what the text `s` denotes as a power of ten.
spec fn reports(power: PowerOfTen, s: Seq<char>) -> bool {
    match power {
        PowerOfTen::Unreadable => parse_signed(s) is None,
        PowerOfTen::Up(e) => parse_signed(s) == Some(e as int),
        PowerOfTen::Down(e) => parse_signed(s) == Some(-(e as int)),
        PowerOfTen::FarUp => parse_signed(s) is Some && parse_signed(s)->0 > u64::MAX && s.len()
            >= 20,
        PowerOfTen::FarDown => parse_signed(s) is Some && parse_signed(s)->0 < -(u64::MAX as int)
            && s.len() >= 20,
    }
}

/// A number as it was read: its digits on both sides of the point and its
/// power of ten.
struct Written {
    negative: bool,
    whole: Vec<char>,
    fraction: Vec<char>,
    power: PowerOfTen,
}

/// Whether `power` stands for the power of ten `exponent` of a number with
/// `whole` digits before the point and `fraction` digits after it. A power
/// beyond `u64` moves the point past all digits by more than twenty places.
spec fn stands_for(power: PowerOfTen, exponent: int, whole: nat, fraction: nat) -> bool {
    match power {
        PowerOfTen::Unreadable => false,
        PowerOfTen::Up(e) => exponent == e,
        PowerOfTen::Down(e) => exponent == -(e as int),
        PowerOfTen::FarUp => exponent - fraction > 20,
        PowerOfTen::FarDown => -exponent - whole > 20,
    }
}

/// Whether `written` holds what the number `n` says.
spec fn holds(written: Written, n: Numeral) -> bool {
    &&& written.negative == n.negative
    &&& written.whole@ == n.whole
    &&& written.fraction@ == n.fraction
    &&& stands_for(written.power, n.exponent, n.whole.len(), n.fraction.len())
}

/// Reads a number: sign, digits, point and power of ten.
fn read_numeral(number: &Vec<char>) -> (r: Option<Written>)
    ensures
        match numeral(number@) {
            Some(n) => r is Some && holds(r->0, n),
            None => r is None,
        },
{
    let len = number.len();
    let signed = len > 0 && (number[0] == '+' || number[0] == '-');
    let negative = signed && number[0] == '-';
    let start: usize = if signed {
        1
    } else {
        0
    };
    let body = slice_chars(number, start, len);
    proof {
        assert(number@.subrange(0, len as int) == number@);
        assert(number@.subrange(1, len as int) == number@.drop_first());
        assert(body@ == unsigned_part(number@));
    }
    let (mark, power) = read_exponent(&body);
    let mantissa = slice_chars(&body, 0, mark);
    assert(mantissa@ == mantissa_of(body@));
    match read_mantissa(&mantissa) {
        Some((whole, fraction)) => {
            if let PowerOfTen::Unreadable = power {
                return None;
            }
            proof {
                lemma_find_char_bounds(mantissa@, '.');
                assert(whole@.len() <= mark);
                assert(fraction@.len() <= mark);
            }
            Some(Written { negative, whole, fraction, power })
        },
        None => None,
    }
}

/// Reads the power of ten that an unsigned number ends with.
fn read_exponent(body: &Vec<char>) -> (r: (usize, PowerOfTen))
    ensures
        r.0 == find_exponent(body@),
        r.0 <= body.len(),
        match r.1 {
            PowerOfTen::Unreadable => exponent_of(body@) is None,
            PowerOfTen::Up(e) => exponent_of(body@) == Some(e as int),
            PowerOfTen::Down(e) => exponent_of(body@) == Some(-(e as int)),
            PowerOfTen::FarUp => exponent_of(body@) is Some && exponent_of(body@)->0 > u64::MAX
                && r.0 + 21 <= body.len(),
            PowerOfTen::FarDown => exponent_of(body@) is Some && exponent_of(body@)->0 < -(
            u64::MAX as int) && r.0 + 21 <= body.len(),
        },
{
    let mut mark: usize = 0;
    while mark < body.len() && body[mark] != 'e' && body[mark] != 'E'
        invariant
            mark <= body.len(),
            forall|j: int| 0 <= j < mark ==> body@[j] != 'e' && body@[j] != 'E',
        decreases body.len() - mark,
    {
        mark += 1;
    }
    proof {
        lemma_find_exponent(body@, mark as int);
    }
    if mark < body.len() {
        let text = slice_chars(body, mark + 1, body.len());
        assert(text@ == body@.skip(mark + 1));
        (mark, read_power(&text))
    } else {
        (mark, PowerOfTen::Up(0))
    }
}

/// Reads a power of ten: an optional sign, then digits.
fn read_power(s: &Vec<char>) -> (power: PowerOfTen)
    ensures
        reports(power, s@),
{
    let negative = s.len() > 0 && s[0] == '-';
    let from: usize = if s.len() > 0 && (s[0] == '-' || s[0] == '+') {
        1
    } else {
        0
    };
    let ghost body = s@.skip(from as int);
    proof {
        assert(s@.skip(0) == s@);
        assert(s@.skip(1) == s@.drop_first());
        assert(s@.subrange(from as int, s@.len() as int) == body);
    }
    if from == s.len() || !digits_only(s, from, s.len()) {
        return PowerOfTen::Unreadable;
    }
    match parse_digits(s, from, u64::MAX) {
        Some(e) => if negative {
            PowerOfTen::Down(e)
        } else {
            PowerOfTen::Up(e)
        },
        None => {
            proof {
                lemma_many_digits(body);
            }
            if negative {
                PowerOfTen::FarDown
            } else {
                PowerOfTen::FarUp
            }
        },
    }
}

/// Splits the digits of a number at its point.
fn read_mantissa(mantissa: &Vec<char>) -> (r: Option<(Vec<char>, Vec<char>)>)
    ensures
        match r {
            Some((whole, fraction)) => {
                &&& is_mantissa(mantissa@)
                &&& whole@ == whole_digits(mantissa@)
                &&& fraction@ == fraction_digits(mantissa@)
            },
            None => !is_mantissa(mantissa@),
        },
{
    let len = mantissa.len();
    let dot = find_from(mantissa, 0, '.');
    assert(mantissa@.skip(0) == mantissa@);
    let after: usize = if dot < len {
        dot + 1
    } else {
        len
    };
    let whole = slice_chars(mantissa, 0, dot);
    let fraction = slice_chars(mantissa, after, len);
    proof {
        assert(whole@ == mantissa@.take(dot as int));
        if dot < len {
            assert(mantissa@.skip(dot + 1) == fraction@);
        } else {
            assert(fraction@ == Seq::<char>::empty());
        }
        assert(whole@.subrange(0, whole@.len() as int) == whole@);
        assert(fraction@.subrange(0, fraction@.len() as int) == fraction@);
    }
    if !digits_only(&whole, 0, whole.len()) || !digits_only(&fraction, 0, fraction.len())
        || whole.len() + fraction.len() == 0 {
        return None;
    }
    Some((whole, fraction))
}

/// The whole part of the number `whole.fraction` times ten to the
/// `exponent` times 1024 to the `rank`, held to the range of `u64`.
fn scaled_power(
    whole: &Vec<char>,
    fraction: &Vec<char>,
    power: PowerOfTen,
    rank: u8,
    Ghost(n): Ghost<Numeral>,
) -> (r: u64)
    requires
        all_digits(whole@),
        all_digits(fraction@),
        n.whole == whole@,
        n.fraction == fraction@,
        stands_for(power, n.exponent, n.whole.len(), n.fraction.len()),
        rank <= 4,
    ensures
        r == clamp(scaled_floor(shifted_whole(n), shifted_fraction(n), 10 * rank as nat)),
{
    let ghost shift = 10 * rank as nat;
    let some = has_nonzero(whole) || has_nonzero(fraction);
    let ghost digits = whole@ + fraction@;
    proof {
        lemma_joined_digits(whole@, fraction@);
    }
    let far = if some {
        u64::MAX
    } else {
        0
    };
    let mut moved_whole: Vec<char> = Vec::new();
    let mut moved_fraction: Vec<char> = Vec::new();
    match power {
        PowerOfTen::Unreadable => {
            return 0;
        },
        PowerOfTen::FarUp => {
            proof {
                let z = (n.exponent - fraction@.len()) as nat;
                lemma_far_up(digits, z, shift);
            }
            return far;
        },
        PowerOfTen::FarDown => {
            proof {
                let z = (-n.exponent - whole@.len()) as nat;
                assert(zeros(z) + whole@ + fraction@ == zeros(z) + digits);
                lemma_far_down(digits, z, shift);
            }
            return 0;
        },
        PowerOfTen::Up(e) => {
            if e >= fraction.len() as u64 {
                let z = e - fraction.len() as u64;
                if z > 20 {
                    proof {
                        lemma_far_up(digits, z as nat, shift);
                    }
                    return far;
                }
                push_digits(&mut moved_whole, whole, 0, whole.len());
                push_digits(&mut moved_whole, fraction, 0, fraction.len());
                push_zeros(&mut moved_whole, z);
                proof {
                    assert(Seq::<char>::empty() + whole@ == whole@);
                    assert(whole@.subrange(0, whole@.len() as int) == whole@);
                    assert(fraction@.subrange(0, fraction@.len() as int) == fraction@);
                }
            } else {
                let cut = e as usize;
                push_digits(&mut moved_whole, whole, 0, whole.len());
                push_digits(&mut moved_whole, fraction, 0, cut);
                push_digits(&mut moved_fraction, fraction, cut, fraction.len());
                proof {
                    assert(whole@.subrange(0, whole@.len() as int) == whole@);
                    assert(Seq::<char>::empty() + whole@ == whole@);
                    assert(fraction@.subrange(0, cut as int) == fraction@.take(cut as int));
                    assert(Seq::<char>::empty() + fraction@.subrange(
                        cut as int,
                        fraction@.len() as int,
                    ) == fraction@.skip(cut as int));
                }
            }
        },
        PowerOfTen::Down(e) => {
            if e <= whole.len() as u64 {
                let cut = whole.len() - e as usize;
                push_digits(&mut moved_whole, whole, 0, cut);
                push_digits(&mut moved_fraction, whole, cut, whole.len());
                push_digits(&mut moved_fraction, fraction, 0, fraction.len());
                proof {
                    assert(fraction@.subrange(0, fraction@.len() as int) == fraction@);
                    assert(Seq::<char>::empty() + whole@.subrange(0, cut as int) == whole@.take(
                        cut as int,
                    ));
                    assert(Seq::<char>::empty() + whole@.subrange(cut as int, whole@.len() as int)
                        == whole@.skip(cut as int));
                }
            } else {
                let z = e - whole.len() as u64;
                if z > 13 {
                    proof {
                        assert(zeros(z as nat) + whole@ + fraction@ == zeros(z as nat) + digits);
                        lemma_far_down(digits, z as nat, shift);
                    }
                    return 0;
                }
                push_zeros(&mut moved_fraction, z);
                push_digits(&mut moved_fraction, whole, 0, whole.len());
                push_digits(&mut moved_fraction, fraction, 0, fraction.len());
                proof {
                    assert(whole@.subrange(0, whole@.len() as int) == whole@);
                    assert(fraction@.subrange(0, fraction@.len() as int) == fraction@);
                    assert(Seq::<char>::empty() + zeros(z as nat) == zeros(z as nat));
                }
            }
        },
    }
    proof {
        assert(moved_whole@ == shifted_whole(n));
        assert(moved_fraction@ == shifted_fraction(n));
        assert(all_digits(moved_whole@)) by {
            assert forall|i: int| 0 <= i < moved_whole@.len() implies is_digit(
                #[trigger] moved_whole@[i],
            ) by {
                lemma_shifted_are_digits(n, i);
            }
        }
        assert(all_digits(moved_fraction@)) by {
            assert forall|i: int| 0 <= i < moved_fraction@.len() implies is_digit(
                #[trigger] moved_fraction@[i],
            ) by {
                lemma_shifted_are_digits(n, i);
            }
        }
    }
    scaled_digits(&moved_whole, &moved_fraction, rank)
}

/// The whole part of `whole.fraction` times 1024 to the `rank`, held to
/// the range of `u64`.
fn scaled_digits(whole: &Vec<char>, fraction: &Vec<char>, rank: u8) -> (r: u64)
    requires
        all_digits(whole@),
        all_digits(fraction@),
        rank <= 4,
    ensures
        r == clamp(scaled_floor(whole@, fraction@, 10 * rank as nat)),
{
    let m = multiplier_of(rank);
    let limit: u64 = u64::MAX / m;
    assert(fraction@.skip(0) == fraction@);
    assert(whole@.skip(0) == whole@);
    let q = fraction_floor(fraction, 0, rank);
    proof {
        lemma_power_positive(10, fraction@.len());
        lemma_scaled_floor_parts(
            digits_value(whole@),
            digits_value(fraction@),
            m as nat,
            power(10, fraction@.len()),
        );
    }
    if whole.len() == 0 {
        assert(digits_value(whole@) * (m as nat) == 0) by (nonlinear_arith)
            requires
                digits_value(whole@) == 0,
        ;
        return q;
    }
    match parse_digits(whole, 0, limit) {
        Some(n) => {
            assert(n * m + q <= u64::MAX) by (nonlinear_arith)
                requires
                    n <= limit,
                    limit == u64::MAX / m,
                    q < m,
                    m == 1 || m == 0x400 || m == 0x10_0000 || m == 0x4000_0000 || m
                        == 0x100_0000_0000,
            ;
            n * m + q
        },
        None => {
            proof {
                let big = digits_value(whole@);
                assert(big * m > u64::MAX) by (nonlinear_arith)
                    requires
                        big > limit,
                        limit == u64::MAX / m,
                        m == 1 || m == 0x400 || m == 0x10_0000 || m == 0x4000_0000 || m
                            == 0x100_0000_0000,
                ;
            }
            u64::MAX
        },
    }
}

/// The whole part of the fraction `0.d1d2..` times 1024 to the `rank`, where
/// the digits are `v[from..]`. Only as many digits are read as can reach the
/// whole part; the result is exact all the same.
fn fraction_floor(v: &Vec<char>, from: usize, rank: u8) -> (q: u64)
    requires
        from <= v.len(),
        all_digits(v@.skip(from as int)),
        rank <= 4,
    ensures
        q == digits_value(v@.skip(from as int)) * power(2, 10 * rank as nat) / power(
            10,
            v@.skip(from as int).len(),
        ),
        q < power(2, 10 * rank as nat),
{
    let ghost frac = v@.skip(from as int);
    let ghost f = frac.len();
    let ghost j = 10 * rank as nat;
    let m = multiplier_of(rank);
    let mut i: usize = 0;
    let mut q: u128 = 0;
    let mut r: u128 = 0;
    let mut five_power: u128 = 1;
    let mut two_power: u64 = m;
    proof {
        assert(frac.take(0) == Seq::<char>::empty());
        lemma_power_of_five_bound(0);
        assert(digits_value(frac.take(0)) * two_power == 0) by (nonlinear_arith)
            requires
                digits_value(frac.take(0)) == 0,
        ;
        assert(q * five_power + r == 0) by (nonlinear_arith)
            requires
                q == 0,
                r == 0,
        ;
    }
    while from + i < v.len() && two_power > 1
        invariant
            frac == v@.skip(from as int),
            f == frac.len(),
            j == 10 * rank as nat,
            rank <= 4,
            all_digits(frac),
            m == power(2, j),
            m <= 0x100_0000_0000,
            from + i <= v.len(),
            i <= j,
            1 <= two_power <= m,
            two_power == power(2, (j - i) as nat),
            five_power == power(5, i as nat),
            r < five_power,
            digits_value(frac.take(i as int)) * two_power == q * five_power + r,
            q <= i * 0xA00_0000_0000,
        decreases v.len() - from - i,
    {
        let c = v[from + i];
        assert(is_digit(frac[i as int]));
        let d: u128 = (c as u32 - 0x30) as u128;
        proof {
            lemma_power_of_two_grows((j - i) as nat);
            lemma_power_of_five_bound(i as nat);
            lemma_power_of_five_bound((i + 1) as nat);
        }
        let two_next: u64 = two_power / 2;
        let five_next: u128 = five_power * 5;
        assert(d * two_next <= 9 * m) by (nonlinear_arith)
            requires
                d <= 9,
                two_next <= m,
        ;
        let n: u128 = 5 * r + d * (two_next as u128);
        assert(n / five_next < 1 + 9 * m) by (nonlinear_arith)
            requires
                n < five_next + 9 * m,
                five_next > 0,
                m > 0,
        ;
        let qn: u128 = q + n / five_next;
        let rn: u128 = n % five_next;
        proof {
            let di = digits_value(frac.take(i as int));
            let dn = digits_value(frac.take(i + 1));
            assert(frac.take(i + 1).drop_last() == frac.take(i as int));
            assert(dn == di * 10 + d);
            assert(two_power == 2 * two_next);
            assert(dn * two_next == q * five_next + n) by (nonlinear_arith)
                requires
                    dn == di * 10 + d,
                    two_power == 2 * two_next,
                    five_next == five_power * 5,
                    di * two_power == q * five_power + r,
                    n == 5 * r + d * two_next,
            ;
            assert(n == five_next * (n / five_next) + n % five_next) by {
                vstd::arithmetic::div_mod::lemma_fundamental_div_mod(n as int, five_next as int);
            }
            assert(dn * two_next == qn * five_next + rn) by (nonlinear_arith)
                requires
                    dn * two_next == q * five_next + n,
                    n == five_next * (n / five_next) + rn,
                    qn == q + n / five_next,
            ;
        }
        two_power = two_next;
        five_power = five_next;
        q = qn;
        r = rn;
        i += 1;
    }
    proof {
        let di = digits_value(frac.take(i as int));
        let rest = frac.skip(i as int);
        let a = power(2, (j - i) as nat);
        let b = power(2, i as nat);
        let c = power(5, i as nat);
        let t = power(10, (f - i) as nat);
        lemma_power_of_two_grows((j - i) as nat);
        lemma_power_positive(2, i as nat);
        lemma_digits_split(frac, i as int);
        assert(all_digits(rest)) by {
            assert forall|k: int| 0 <= k < rest.len() implies is_digit(#[trigger] rest[k]) by {
                assert(rest[k] == frac[i + k]);
            }
        }
        lemma_digits_bound(rest);
        lemma_fraction_step(digits_value(frac), di, digits_value(rest), q as nat, r as nat, a, b, c, t);
        lemma_power_add(2, (j - i) as nat, i as nat);
        lemma_power_of_ten(i as nat);
        lemma_power_add(10, i as nat, (f - i) as nat);
        assert(b * c * t == power(10, f)) by (nonlinear_arith)
            requires
                power(10, i as nat) == b * c,
                power(10, f) == power(10, i as nat) * t,
        ;
        assert(a * b == m);
        lemma_digits_bound(frac);
        lemma_power_positive(10, f);
        let big = digits_value(frac);
        let p = power(10, f);
        let mm = m as nat;
        assert((big * mm) / p < mm) by (nonlinear_arith)
            requires
                big < p,
                p > 0,
                mm > 0,
        ;
    }
    q as u64
}

/// The rank that a unit character stands for.
fn unit_rank_of(unit: char) -> (rank: u8)
    ensures
        rank == unit_rank(unit),
        rank <= 4,
{
    if unit == 'K' || unit == 'k' {
        1
    } else if unit == 'M' || unit == 'm' {
        2
    } else if unit == 'G' || unit == 'g' {
        3
    } else if unit == 'T' || unit == 't' {
        4
    } else {
        0
    }
}

/// 1024 raised to `rank`.
fn multiplier_of(rank: u8) -> (m: u64)
    requires
        rank <= 4,
    ensures
        m == power(2, 10 * rank as nat),
        m == 1 || m == 0x400 || m == 0x10_0000 || m == 0x4000_0000 || m == 0x100_0000_0000,
{
    proof {
        lemma_unit_powers();
    }
    if rank == 0 {
        1
    } else if rank == 1 {
        0x400
    } else if rank == 2 {
        0x10_0000
    } else if rank == 3 {
        0x4000_0000
    } else {
        0x100_0000_0000
    }
}

/// Appends `k` digits `0` to `out`.
fn push_zeros(out: &mut Vec<char>, k: u64)
    ensures
        final(out)@ == old(out)@ + zeros(k as nat),
{
    let mut i: u64 = 0;
    assert(old(out)@ + zeros(0) == old(out)@);
    while i < k
        invariant
            i <= k,
            out@ == old(out)@ + zeros(i as nat),
        decreases k - i,
    {
        out.push('0');
        i += 1;
        assert(zeros(i as nat) == zeros((i - 1) as nat).push('0'));
    }
}

/// Appends `v[from..to]` to `out`.
fn push_digits(out: &mut Vec<char>, v: &Vec<char>, from: usize, to: usize)
    requires
        from <= to <= v.len(),
    ensures
        final(out)@ == old(out)@ + v@.subrange(from as int, to as int),
{
    let mut i: usize = from;
    assert(old(out)@ + v@.subrange(from as int, from as int) == old(out)@);
    while i < to
        invariant
            from <= i <= to <= v.len(),
            out@ == old(out)@ + v@.subrange(from as int, i as int),
        decreases to - i,
    {
        out.push(v[i]);
        i += 1;
        assert(v@.subrange(from as int, i as int) == v@.subrange(from as int, i - 1).push(
            v@[i - 1],
        ));
    }
}

/// `find_exponent` is the one position that holds an `e` or `E` with none
/// before it.
proof fn lemma_find_exponent(s: Seq<char>, k: int)
    requires
        0 <= k <= s.len(),
        forall|j: int| 0 <= j < k ==> s[j] != 'e' && s[j] != 'E',
        k < s.len() ==> s[k] == 'e' || s[k] == 'E',
    ensures
        find_exponent(s) == k,
    decreases k,
{
    if k > 0 {
        lemma_find_exponent(s.drop_first(), k - 1);
    }
}

/// Moving the point of a number leaves digits on both sides of it.
proof fn lemma_shifted_are_digits(n: Numeral, i: int)
    requires
        all_digits(n.whole),
        all_digits(n.fraction),
    ensures
        0 <= i < shifted_whole(n).len() ==> is_digit(shifted_whole(n)[i]),
        0 <= i < shifted_fraction(n).len() ==> is_digit(shifted_fraction(n)[i]),
{
    let e = n.exponent;
    let w = n.whole.len() as int;
    let f = n.fraction.len() as int;
    if 0 <= i < shifted_whole(n).len() {
        if i < w {
            assert(shifted_whole(n)[i] == n.whole[i]);
        } else if e >= f && i >= w + f {
            assert(shifted_whole(n)[i] == '0');
        } else {
            assert(shifted_whole(n)[i] == n.fraction[i - w]);
        }
    }
    if 0 <= i < shifted_fraction(n).len() {
        if 0 <= e < f {
            assert(shifted_fraction(n)[i] == n.fraction[i + e]);
        } else if e < 0 && -e <= w {
            if i < -e {
                assert(shifted_fraction(n)[i] == n.whole[w + e + i]);
            } else {
                assert(shifted_fraction(n)[i] == n.fraction[i + e]);
            }
        } else if e < 0 {
            let z = -e - w;
            if i < z {
                assert(shifted_fraction(n)[i] == '0');
            } else if i < z + w {
                assert(shifted_fraction(n)[i] == n.whole[i - z]);
            } else {
                assert(shifted_fraction(n)[i] == n.fraction[i - z - w]);
            }
        }
    }
}

/// A number with a digit other than `0` and more than twenty zeros before
/// the point is beyond every size.
proof fn lemma_far_up(digits: Seq<char>, z: nat, shift: nat)
    requires
        all_digits(digits),
        z >= 20,
        shift <= 40,
    ensures
        digits_value(digits) == 0 ==> scaled_floor(digits + zeros(z), Seq::empty(), shift) == 0,
        digits_value(digits) >= 1 ==> scaled_floor(digits + zeros(z), Seq::empty(), shift)
            > u64::MAX,
{
    lemma_digits_concat(digits, zeros(z));
    lemma_zeros(z);
    lemma_powers_of_ten();
    lemma_power_grows(10, 20, z);
    lemma_power_positive(2, shift);
    let d = digits_value(digits);
    let t = power(10, z);
    let m = power(2, shift);
    let w = digits_value(digits + zeros(z));
    assert(w == d * t);
    assert(power(10, 0) == 1);
    assert(digits_value(Seq::<char>::empty()) == 0);
    assert(scaled_floor(digits + zeros(z), Seq::empty(), shift) == (w * 1 + 0) * m / 1);
    if d == 0 {
        assert((w * 1 + 0) * m == 0) by (nonlinear_arith)
            requires
                w == d * t,
                d == 0,
        ;
    } else {
        assert((w * 1 + 0) * m >= 100_000_000_000_000_000_000) by (nonlinear_arith)
            requires
                w == d * t,
                d >= 1,
                t >= 100_000_000_000_000_000_000,
                m >= 1,
        ;
    }
}

/// A number with thirteen or more zeros right after the point and nothing
/// before it is below one byte in every unit.
proof fn lemma_far_down(digits: Seq<char>, z: nat, shift: nat)
    requires
        all_digits(digits),
        z >= 13,
        shift <= 40,
    ensures
        scaled_floor(Seq::empty(), zeros(z) + digits, shift) == 0,
{
    let fraction = zeros(z) + digits;
    lemma_digits_concat(zeros(z), digits);
    lemma_zeros(z);
    lemma_digits_bound(digits);
    lemma_powers_of_ten();
    lemma_power_grows(10, 13, z);
    lemma_power_add(10, z, digits.len());
    lemma_unit_powers();
    lemma_power_grows(2, shift, 40);
    lemma_power_positive(10, digits.len());
    let d = digits_value(digits);
    let n = power(10, digits.len());
    let t = power(10, z);
    let m = power(2, shift);
    let p = power(10, fraction.len());
    assert(digits_value(fraction) == d) by (nonlinear_arith)
        requires
            digits_value(fraction) == digits_value(zeros(z)) * n + d,
            digits_value(zeros(z)) == 0,
    ;
    assert(p == t * n);
    assert(d * m < p) by (nonlinear_arith)
        requires
            d < n,
            m <= 0x100_0000_0000,
            t >= 10_000_000_000_000,
            p == t * n,
            n > 0,
    ;
    assert(digits_value(Seq::<char>::empty()) == 0);
    assert((0 * p + d) * m == d * m) by (nonlinear_arith);
    assert((d * m) / p == 0) by (nonlinear_arith)
        requires
            0 <= d * m < p,
    ;
}

/// The arithmetic behind reading a fraction digit by digit: once `i` digits
/// are read, with their scaled value held as `q` and a remainder `r` over
/// `c`, the digits left (`e`, below `t`) cannot change the whole part.
proof fn lemma_fraction_step(d: nat, di: nat, e: nat, q: nat, r: nat, a: nat, b: nat, c: nat, t: nat)
    requires
        d == di * t + e,
        e < t,
        di * a == q * c + r,
        r < c,
        b > 0,
        t == 1 || a == 1,
    ensures
        (d * (a * b)) / (b * c * t) == q,
{
    let rest = r * b * t + e * a * b;
    let x = di * a;
    assert(d * (a * b) == x * (b * t) + e * a * b) by (nonlinear_arith)
        requires
            d == di * t + e,
            x == di * a,
    ;
    assert(x * (b * t) == q * (b * c * t) + r * b * t) by (nonlinear_arith)
        requires
            x == q * c + r,
    ;
    assert(rest < b * c * t) by (nonlinear_arith)
        requires
            rest == r * b * t + e * a * b,
            e < t,
            r < c,
            b > 0,
            t == 1 || a == 1,
    ;
    vstd::arithmetic::div_mod::lemma_fundamental_div_mod_converse(
        (d * (a * b)) as int,
        (b * c * t) as int,
        q as int,
        rest as int,
    );
}

/// Splitting a scaled number into its whole part and its fraction.
pub proof fn lemma_scaled_floor_parts(w: nat, d: nat, m: nat, p: nat)
    requires
        p > 0,
    ensures
        (w * p + d) * m / p == w * m + (d * m) / p,
{
    let q = (d * m) / p;
    let r = (d * m) % p;
    vstd::arithmetic::div_mod::lemma_fundamental_div_mod((d * m) as int, p as int);
    assert((w * p + d) * m == (w * m + q) * p + r) by (nonlinear_arith)
        requires
            d * m == p * q + r,
    ;
    vstd::arithmetic::div_mod::lemma_fundamental_div_mod_converse(
        ((w * p + d) * m) as int,
        p as int,
        (w * m + q) as int,
        r as int,
    );
}

} // verus!
