//! Powers of whole numbers, and the few of them that sizes are made of.

use vstd::prelude::*;

verus! {

/// `base` raised to `e`.
pub open spec fn power(base: nat, e: nat) -> nat
    decreases e,
{
    if e == 0 {
        1
    } else {
        base * power(base, (e - 1) as nat)
    }
}

/// A power of a positive base is positive.
pub proof fn lemma_power_positive(base: nat, e: nat)
    requires
        base > 0,
    ensures
        power(base, e) > 0,
    decreases e,
{
    if e > 0 {
        lemma_power_positive(base, (e - 1) as nat);
        assert(base * power(base, (e - 1) as nat) > 0) by (nonlinear_arith)
            requires
                base > 0,
                power(base, (e - 1) as nat) > 0,
        ;
    }
}

/// Powers of one base multiply by adding their exponents.
pub proof fn lemma_power_add(base: nat, a: nat, b: nat)
    ensures
        power(base, a + b) == power(base, a) * power(base, b),
    decreases a,
{
    if a > 0 {
        lemma_power_add(base, (a - 1) as nat, b);
        assert(base * (power(base, (a - 1) as nat) * power(base, b)) == (base * power(
            base,
            (a - 1) as nat,
        )) * power(base, b)) by (nonlinear_arith);
        assert(power(base, a + b) == base * power(base, (a + b - 1) as nat));
    } else {
        assert(1 * power(base, b) == power(base, b));
    }
}

/// A power of ten is the same power of two times the same power of five.
pub proof fn lemma_power_of_ten(e: nat)
    ensures
        power(10, e) == power(2, e) * power(5, e),
    decreases e,
{
    if e > 0 {
        lemma_power_of_ten((e - 1) as nat);
        let x = power(2, (e - 1) as nat);
        let y = power(5, (e - 1) as nat);
        assert(10 * (x * y) == (2 * x) * (5 * y)) by (nonlinear_arith);
        assert(power(10, e) == 10 * power(10, (e - 1) as nat));
        assert(power(2, e) == 2 * x);
        assert(power(5, e) == 5 * y);
        assert(power(2, e) * power(5, e) == (2 * x) * (5 * y));
    } else {
        assert(power(2, e) * power(5, e) == 1) by (nonlinear_arith)
            requires
                power(2, e) == 1,
                power(5, e) == 1,
        ;
    }
}

/// Every power of two is at least one, and each is twice the one before.
pub proof fn lemma_power_of_two_grows(e: nat)
    ensures
        power(2, e) >= 1,
        e > 0 ==> power(2, e) >= 2 && power(2, e) == 2 * power(2, (e - 1) as nat),
{
    if e > 0 {
        lemma_power_positive(2, (e - 1) as nat);
    }
}

/// A larger power of a base from one on is no smaller.
pub proof fn lemma_power_grows(base: nat, a: nat, b: nat)
    requires
        base >= 1,
        a <= b,
    ensures
        power(base, a) <= power(base, b),
    decreases b - a,
{
    if a < b {
        lemma_power_grows(base, a, (b - 1) as nat);
        lemma_power_positive(base, (b - 1) as nat);
        assert(power(base, (b - 1) as nat) <= base * power(base, (b - 1) as nat)) by (nonlinear_arith)
            requires
                base >= 1,
                power(base, (b - 1) as nat) > 0,
        ;
    }
}

/// The powers of two that the unit letters stand for.
pub proof fn lemma_unit_powers()
    ensures
        power(2, 0) == 1,
        power(2, 10) == 0x400,
        power(2, 20) == 0x10_0000,
        power(2, 30) == 0x4000_0000,
        power(2, 40) == 0x100_0000_0000,
{
    assert(power(2, 10) == 0x400) by {
        reveal_with_fuel(power, 11);
    }
    lemma_power_add(2, 10, 10);
    lemma_power_add(2, 10, 20);
    lemma_power_add(2, 10, 30);
}

/// No power of five up to the fortieth exceeds the fortieth.
pub proof fn lemma_power_of_five_bound(e: nat)
    requires
        e <= 40,
    ensures
        0 < power(5, e) <= 9094947017729282379150390625,
    decreases 40 - e,
{
    lemma_power_positive(5, e);
    if e == 40 {
        assert(power(5, 10) == 9765625) by {
            reveal_with_fuel(power, 11);
        }
        lemma_power_add(5, 10, 10);
        assert(power(5, 20) == 95367431640625) by (nonlinear_arith)
            requires
                power(5, 20) == power(5, 10) * power(5, 10),
                power(5, 10) == 9765625,
        ;
        lemma_power_add(5, 20, 20);
        assert(power(5, 40) == 9094947017729282379150390625) by (nonlinear_arith)
            requires
                power(5, 40) == power(5, 20) * power(5, 20),
                power(5, 20) == 95367431640625,
        ;
    } else {
        lemma_power_of_five_bound(e + 1);
        assert(power(5, e + 1) == 5 * power(5, e));
    }
}

/// The powers of ten that decide when a number leaves the range of sizes.
pub proof fn lemma_powers_of_ten()
    ensures
        power(10, 13) == 10_000_000_000_000,
        power(10, 19) == 10_000_000_000_000_000_000,
        power(10, 20) == 100_000_000_000_000_000_000,
{
    assert(power(10, 10) == 10_000_000_000) by {
        reveal_with_fuel(power, 11);
    }
    assert(power(10, 3) == 1000) by {
        reveal_with_fuel(power, 4);
    }
    assert(power(10, 9) == 1_000_000_000) by {
        reveal_with_fuel(power, 10);
    }
    lemma_power_add(10, 10, 3);
    lemma_power_add(10, 10, 9);
    lemma_power_add(10, 10, 10);
}

} // verus!
