//! Byte counts written for people: `1536` becomes `1.50 KiB`.

use vstd::prelude::*;
use crate::decimal::{decimal, digit_char, digit_of, push_decimal};
use crate::text::push_text;

verus! {

/// The distance between neighbouring numbers that 53 significant bits can
/// hold, at the size of `n`.
pub open spec fn spacing(n: u64) -> nat {
    if n < 0x20_0000_0000_0000 {
        1
    } else if n < 0x40_0000_0000_0000 {
        2
    } else if n < 0x80_0000_0000_0000 {
        4
    } else if n < 0x100_0000_0000_0000 {
        8
    } else if n < 0x200_0000_0000_0000 {
        16
    } else if n < 0x400_0000_0000_0000 {
        32
    } else if n < 0x800_0000_0000_0000 {
        64
    } else if n < 0x1000_0000_0000_0000 {
        128
    } else if n < 0x2000_0000_0000_0000 {
        256
    } else if n < 0x4000_0000_0000_0000 {
        512
    } else if n < 0x8000_0000_0000_0000 {
        1024
    } else {
        2048
    }
}

/// `n` divided by `d` and rounded to the nearest whole number, a tie going
/// to the even neighbour.
pub open spec fn round_half_even(n: nat, d: nat) -> nat
    recommends
        d > 0,
{
    let q = n / d;
    let r = n % d;
    if 2 * r > d || (2 * r == d && q % 2 == 1) {
        q + 1
    } else {
        q
    }
}

/// `n` held to 53 significant bits: the nearest number that many bits can
/// hold, a tie going to the one whose last bit is clear. Every number below
/// two to the 53rd is held as it is.
pub open spec fn held(n: u64) -> nat {
    round_half_even(n as nat, spacing(n)) * spacing(n)
}

/// How many times 1024 goes into a size before the size drops below 1024,
/// at most five times: the place of its unit among B, KiB, MiB, GiB, TiB
/// and PiB.
pub open spec fn unit_index(size: nat) -> nat {
    if size < 0x400 {
        0
    } else if size < 0x10_0000 {
        1
    } else if size < 0x4000_0000 {
        2
    } else if size < 0x100_0000_0000 {
        3
    } else if size < 0x4_0000_0000_0000 {
        4
    } else {
        5
    }
}

/// The number of bytes in one unit: 1024 raised to the unit's place.
pub open spec fn unit_size(index: nat) -> nat {
    if index == 0 {
        1
    } else if index == 1 {
        0x400
    } else if index == 2 {
        0x10_0000
    } else if index == 3 {
        0x4000_0000
    } else if index == 4 {
        0x100_0000_0000
    } else {
        0x4_0000_0000_0000
    }
}

/// The name of a unit, with the blank that stands before it.
pub open spec fn unit_name(index: nat) -> Seq<char> {
    if index == 0 {
        " B"@
    } else if index == 1 {
        " KiB"@
    } else if index == 2 {
        " MiB"@
    } else if index == 3 {
        " GiB"@
    } else if index == 4 {
        " TiB"@
    } else {
        " PiB"@
    }
}

/// A number of hundredths written with a point and two digits after it.
pub open spec fn hundredths_text(h: nat) -> Seq<char> {
    decimal(h / 100).push('.').push(digit_char(h % 100 / 10)).push(digit_char(h % 10))
}

/// A byte count written for people. A count below 1024 is written whole,
/// followed by ` B`. Any other count is held to 53 significant bits, scaled
/// to the largest unit up to PiB that it reaches, rounded to hundredths (a
/// tie going to the even hundredth) and written with two digits after the
/// point, followed by the unit.
pub open spec fn human_text(bytes: u64) -> Seq<char> {
    let index = unit_index(held(bytes));
    if index == 0 {
        decimal(bytes as nat) + unit_name(0)
    } else {
        hundredths_text(round_half_even(held(bytes) * 100, unit_size(index))) + unit_name(index)
    }
}

/// The distance between neighbouring numbers of 53 significant bits at `n`.
fn spacing_of(n: u64) -> (step: u64)
    ensures
        step == spacing(n),
        1 <= step <= 2048,
{
    if n < 0x20_0000_0000_0000 {
        1
    } else if n < 0x40_0000_0000_0000 {
        2
    } else if n < 0x80_0000_0000_0000 {
        4
    } else if n < 0x100_0000_0000_0000 {
        8
    } else if n < 0x200_0000_0000_0000 {
        16
    } else if n < 0x400_0000_0000_0000 {
        32
    } else if n < 0x800_0000_0000_0000 {
        64
    } else if n < 0x1000_0000_0000_0000 {
        128
    } else if n < 0x2000_0000_0000_0000 {
        256
    } else if n < 0x4000_0000_0000_0000 {
        512
    } else if n < 0x8000_0000_0000_0000 {
        1024
    } else {
        2048
    }
}

/// `n` divided by `d`, rounded to the nearest whole number, ties to even.
fn rounded(n: u128, d: u128) -> (q: u128)
    requires
        0 < d <= 0x4_0000_0000_0000,
        n <= 0x1_0000_0000_0000_0000_0000,
    ensures
        q == round_half_even(n as nat, d as nat),
        q <= (n as int) / (d as int) + 1,
{
    let q = n / d;
    let r = n % d;
    if 2 * r > d || (2 * r == d && q % 2 == 1) {
        q + 1
    } else {
        q
    }
}

/// Writes a byte count for people.
pub fn human_bytes(bytes: u64) -> (text: String)
    ensures
        text@ == human_text(bytes),
{
    let step = spacing_of(bytes);
    let whole = rounded(bytes as u128, step as u128);
    assert(whole * step <= 0x1_0000_0000_0000_0000) by (nonlinear_arith)
        requires
            whole <= (bytes as int) / (step as int) + 1,
            bytes < 0x1_0000_0000_0000_0000,
            1 <= step <= 2048,
            step == spacing(bytes),
    ;
    let size: u128 = whole * (step as u128);
    let mut text = String::new();
    if size < 0x400 {
        push_decimal(&mut text, bytes);
        push_text(&mut text, " B");
        assert(text@ == human_text(bytes));
        return text;
    }
    let (unit, name): (u128, &str) = if size < 0x10_0000 {
        (0x400, " KiB")
    } else if size < 0x4000_0000 {
        (0x10_0000, " MiB")
    } else if size < 0x100_0000_0000 {
        (0x4000_0000, " GiB")
    } else if size < 0x4_0000_0000_0000 {
        (0x100_0000_0000, " TiB")
    } else {
        (0x4_0000_0000_0000, " PiB")
    };
    let h = rounded(size * 100, unit);
    assert(h / 100 <= u64::MAX) by (nonlinear_arith)
        requires
            h <= (size * 100) / (unit as int) + 1,
            size <= 0x1_0000_0000_0000_0000,
            unit >= 0x400,
    ;
    push_decimal(&mut text, (h / 100) as u64);
    text.push('.');
    text.push(digit_of((h % 100 / 10) as u8));
    text.push(digit_of((h % 10) as u8));
    push_text(&mut text, name);
    assert(text@ == human_text(bytes));
    text
}

} // verus!
