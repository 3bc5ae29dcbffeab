//! Alignment arithmetic: greatest common divisor, least common multiple and
//! rounding up to a multiple.

use vstd::arithmetic::div_mod::{
    lemma_fundamental_div_mod, lemma_mod_decreases, lemma_mod_multiples_vanish, lemma_mod_self_0,
    lemma_small_mod,
};
use vstd::prelude::*;

verus! {

/// The greatest common divisor, by Euclid's rule.
pub open spec fn gcd(a: nat, b: nat) -> nat
    decreases b,
{
    if b == 0 {
        a
    } else {
        gcd(b, a % b)
    }
}

/// The least common multiple: the product divided by the greatest common
/// divisor.
pub open spec fn lcm(a: nat, b: nat) -> nat {
    (a * b) / gcd(a, b)
}

/// `value` rounded up to the next multiple of `alignment`.
pub open spec fn align_up(value: nat, alignment: nat) -> nat {
    (value + (alignment - value % alignment) % (alignment as int)) as nat
}

/// A sum of a multiple of `d` and of any multiple of another multiple of `d`
/// is a multiple of `d`.
proof fn lemma_multiple_combination(x: int, y: int, k: int, d: int)
    requires
        d > 0,
        x % d == 0,
        y % d == 0,
    ensures
        (x + k * y) % d == 0,
{
    lemma_fundamental_div_mod(y, d);
    let m = k * (y / d);
    assert(k * y == d * m) by (nonlinear_arith)
        requires
            y == d * (y / d),
            m == k * (y / d),
    ;
    lemma_mod_multiples_vanish(m, x, d);
}

/// The greatest common divisor of two numbers that are not both zero is
/// positive and divides both of them.
pub proof fn lemma_gcd_divides(a: nat, b: nat)
    requires
        a > 0 || b > 0,
    ensures
        gcd(a, b) > 0,
        a % gcd(a, b) == 0,
        b % gcd(a, b) == 0,
    decreases b,
{
    if b == 0 {
        lemma_mod_self_0(a as int);
    } else {
        let r = a % b;
        lemma_gcd_divides(b, r);
        let g = gcd(b, r) as int;
        lemma_fundamental_div_mod(a as int, b as int);
        lemma_multiple_combination(r as int, b as int, (a / b) as int, g);
        assert(a == r + ((a / b) as int) * b) by (nonlinear_arith)
            requires
                a == b * (a / b) + a % b,
                r == a % b,
        ;
    }
}

/// Every common divisor of two numbers that are not both zero divides their
/// greatest common divisor, and so is no larger than it.
pub proof fn lemma_gcd_greatest(a: nat, b: nat, d: nat)
    requires
        a > 0 || b > 0,
        d > 0,
        a % d == 0,
        b % d == 0,
    ensures
        gcd(a, b) % d == 0,
        d <= gcd(a, b),
    decreases b,
{
    if b != 0 {
        let r = a % b;
        lemma_fundamental_div_mod(a as int, b as int);
        lemma_multiple_combination(a as int, b as int, -((a / b) as int), d as int);
        assert(r == a + (-((a / b) as int)) * b) by (nonlinear_arith)
            requires
                a == b * (a / b) + a % b,
                r == a % b,
        ;
        lemma_gcd_greatest(b, r, d);
    }
    lemma_gcd_divides(a, b);
    let g = gcd(a, b);
    if g < d {
        lemma_small_mod(g, d);
    }
}

/// The greatest common divisor does not depend on the order of its
/// arguments.
pub proof fn lemma_gcd_symmetric(a: nat, b: nat)
    ensures
        gcd(a, b) == gcd(b, a),
{
    if a == 0 && b == 0 {
    } else {
        lemma_gcd_divides(a, b);
        lemma_gcd_divides(b, a);
        lemma_gcd_greatest(a, b, gcd(b, a));
        lemma_gcd_greatest(b, a, gcd(a, b));
    }
}

/// The least common multiple times the greatest common divisor is the
/// product of the two numbers, and the least common multiple is a multiple
/// of both.
pub proof fn lemma_lcm_times_gcd(a: nat, b: nat)
    requires
        a > 0 || b > 0,
    ensures
        lcm(a, b) * gcd(a, b) == a * b,
        lcm(a, b) == (a / gcd(a, b)) * b,
        lcm(a, b) == a * (b / gcd(a, b)),
{
    lemma_gcd_divides(a, b);
    let g = gcd(a, b) as int;
    lemma_fundamental_div_mod(a as int, g);
    lemma_fundamental_div_mod(b as int, g);
    let p = (a / (g as nat)) as int;
    let q = (b / (g as nat)) as int;
    assert(a * b == g * (p * b)) by (nonlinear_arith)
        requires
            a == g * p,
    ;
    assert(a * b == g * (a * q)) by (nonlinear_arith)
        requires
            b == g * q,
    ;
    lemma_fundamental_div_mod((a * b) as int, g);
    lemma_mod_multiples_vanish(p * b, 0, g);
    assert(((a * b) as int) / g == p * b) by (nonlinear_arith)
        requires
            g > 0,
            a * b == g * (((a * b) as int) / g) + ((a * b) as int) % g,
            ((a * b) as int) % g == 0,
            a * b == g * (p * b),
    ;
    assert(p * b == a * q) by (nonlinear_arith)
        requires
            g > 0,
            g * (p * b) == g * (a * q),
    ;
    assert(lcm(a, b) * gcd(a, b) == a * b) by (nonlinear_arith)
        requires
            lcm(a, b) == p * b,
            gcd(a, b) == g,
            a * b == g * (p * b),
    ;
}

/// Rounding up gives the least multiple of the alignment that is not below
/// the value: it is a multiple, it is not below the value, and it exceeds
/// the value by less than the alignment.
pub proof fn lemma_align_up(value: nat, alignment: nat)
    requires
        alignment > 0,
    ensures
        align_up(value, alignment) % alignment == 0,
        align_up(value, alignment) >= value,
        align_up(value, alignment) - value < alignment,
        value % alignment == 0 ==> align_up(value, alignment) == value,
        value % alignment != 0 ==> align_up(value, alignment) == value - value % alignment
            + alignment,
{
    let r = value % alignment;
    lemma_fundamental_div_mod(value as int, alignment as int);
    if r == 0 {
        lemma_mod_self_0(alignment as int);
    } else {
        lemma_small_mod((alignment - r) as nat, alignment);
        let q = (value / alignment) as int;
        assert(value - r + alignment == (alignment as int) * (q + 1) + 0) by (nonlinear_arith)
            requires
                value == alignment * q + r,
        ;
        lemma_mod_multiples_vanish(q + 1, 0, alignment as int);
    }
}

/// The greatest common divisor of `a` and `b`, for `a >= b > 0`.
pub fn get_greatest_common_divisor(a: u32, b: u32) -> (g: u32)
    requires
        a >= b,
        b > 0,
    ensures
        g == gcd(a as nat, b as nat),
        g > 0,
        a % g == 0,
        b % g == 0,
{
    let mut x: u32 = a;
    let mut y: u32 = b;
    loop
        invariant
            y > 0,
            b > 0,
            gcd(x as nat, y as nat) == gcd(a as nat, b as nat),
        decreases y,
    {
        let c: u32 = x % y;
        if c == 0 {
            proof {
                assert(gcd(y as nat, 0) == y);
                lemma_gcd_divides(a as nat, b as nat);
            }
            return y;
        }
        x = y;
        y = c;
    }
}

/// The least common multiple of two positive numbers whose product fits in
/// 32 bits.
pub fn get_lowest_common_denom(a: u32, b: u32) -> (m: u32)
    requires
        a > 0,
        b > 0,
        a * b <= u32::MAX,
    ensures
        m == lcm(a as nat, b as nat),
        m * gcd(a as nat, b as nat) == a * b,
{
    proof {
        lemma_lcm_times_gcd(a as nat, b as nat);
    }
    let g: u32 = if a >= b {
        get_greatest_common_divisor(a, b)
    } else {
        proof {
            lemma_gcd_symmetric(a as nat, b as nat);
        }
        get_greatest_common_divisor(b, a)
    };
    proof {
        lemma_gcd_divides(a as nat, b as nat);
    }
    a * b / g
}

/// `value` rounded up to the next multiple of `alignment`, where that
/// multiple fits in 32 bits.
pub fn align_to(value: u32, alignment: u32) -> (aligned: u32)
    requires
        alignment > 0,
        align_up(value as nat, alignment as nat) <= u32::MAX,
    ensures
        aligned == align_up(value as nat, alignment as nat),
        aligned % alignment == 0,
        value <= aligned,
        aligned - value < alignment,
{
    proof {
        lemma_align_up(value as nat, alignment as nat);
        lemma_mod_decreases(value as nat, alignment as nat);
    }
    let other: u32 = value % alignment;
    if other == 0 {
        value
    } else {
        value - other + alignment
    }
}

} // verus!
