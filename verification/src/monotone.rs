//! Rounding keeps order: larger numbers round to numbers that are no smaller.

use crate::score::{
    granule, is_power_of_two, lemma_granule_positive, lemma_granule_power, lemma_granule_small,
    lemma_nearest_bound, lemma_nearest_capped, lemma_one_power, lemma_powers_divide, nearest,
    product_units, ratio_units, rounded, ONE_UNITS,
};
use vstd::arithmetic::div_mod::{lemma_div_is_ordered, lemma_fundamental_div_mod};
use vstd::prelude::*;

verus! {

/// What a product is rounded to multiples of.
pub open spec fn product_step(n: nat) -> nat {
    if granule(n) < ONE_UNITS {
        ONE_UNITS as nat
    } else {
        granule(n)
    }
}

/// A product of units, rounded.
pub open spec fn rounded_product(n: nat) -> nat {
    nearest(n, product_step(n)) * product_step(n)
}

proof fn lemma_nearest_monotone(a: nat, b: nat, step: nat)
    requires
        a <= b,
        step >= 1,
    ensures
        nearest(a, step) <= nearest(b, step),
{
    lemma_div_is_ordered(a as int, b as int, step as int);
    lemma_fundamental_div_mod(a as int, step as int);
    lemma_fundamental_div_mod(b as int, step as int);
    if a / step == b / step {
        assert(a % step <= b % step);
    }
}

/// A number is rounded down by less than a step.
pub proof fn lemma_nearest_floor(n: nat, step: nat)
    requires
        step >= 1,
    ensures
        nearest(n, step) * step + step > n,
        n / step <= nearest(n, step),
{
    lemma_fundamental_div_mod(n as int, step as int);
    let q = n / step;
    let m = nearest(n, step);
    assert(m * step >= q * step) by (nonlinear_arith)
        requires
            m >= q,
    ;
    assert(step as int * (n as int / step as int) == q * step) by (nonlinear_arith)
        requires
            q == n as int / step as int,
    ;
}

/// Numbers that are rounded to steps of their own size keep their order.
proof fn lemma_steps_monotone(a: nat, b: nat, small: nat, large: nat)
    requires
        a <= b,
        small >= 1,
        small == large || (2 * small <= large && a <= 0x100_0000 * small && b >= 0x80_0000 * large),
    ensures
        nearest(a, small) * small <= nearest(b, large) * large,
{
    if small == large {
        lemma_nearest_monotone(a, b, small);
        let x = nearest(a, small);
        let y = nearest(b, small);
        assert(x * small <= y * small) by (nonlinear_arith)
            requires
                x <= y,
        ;
    } else {
        let cap = 0x100_0000 * small;
        assert(cap % small == 0) by (nonlinear_arith)
            requires
                cap == 0x100_0000 * small,
                small >= 1,
        ;
        lemma_nearest_capped(a, small, cap);
        lemma_nearest_floor(b, large);
        assert(b / large >= 0x80_0000) by (nonlinear_arith)
            requires
                b >= 0x80_0000 * large,
                large >= 1,
        ;
        let m = nearest(b, large);
        assert(m * large >= 0x80_0000 * large) by (nonlinear_arith)
            requires
                m >= 0x80_0000,
        ;
    }
}

proof fn lemma_granule_monotone(a: nat, b: nat)
    requires
        a <= b,
    ensures
        granule(a) <= granule(b),
    decreases a,
{
    lemma_granule_positive(b);
    if a >= 0x100_0000 {
        lemma_granule_monotone(a / 2, b / 2);
    }
}

pub proof fn lemma_granule_large(n: nat)
    ensures
        n < 0x100_0000 * granule(n),
    decreases n,
{
    if n >= 0x100_0000 {
        lemma_granule_large(n / 2);
    }
}

/// What is below so many multiples of a power of two is rounded no coarser than it.
pub proof fn lemma_granule_below(n: nat, p: nat)
    requires
        is_power_of_two(p),
        n < 0x100_0000 * p,
    ensures
        granule(n) <= p,
    decreases p,
{
    if n >= 0x100_0000 {
        lemma_granule_below(n / 2, p / 2);
    }
}

/// Of two powers of two, the larger is at least twice the smaller.
proof fn lemma_next_power(small: nat, large: nat)
    requires
        is_power_of_two(small),
        is_power_of_two(large),
        small < large,
    ensures
        2 * small <= large,
{
    lemma_powers_divide(small, large);
    lemma_fundamental_div_mod(large as int, small as int);
    let c = large / small;
    assert(c >= 2) by (nonlinear_arith)
        requires
            large == small as int * c,
            small < large,
    ;
    assert(2 * small <= large) by (nonlinear_arith)
        requires
            large == small as int * c,
            c >= 2,
    ;
}

/// Rounding keeps order.
pub proof fn lemma_rounded_monotone(a: nat, b: nat)
    requires
        a <= b,
    ensures
        rounded(a) <= rounded(b),
{
    lemma_granule_positive(a);
    lemma_granule_power(a);
    lemma_granule_power(b);
    lemma_granule_monotone(a, b);
    lemma_granule_large(a);
    lemma_granule_small(b);
    if granule(a) < granule(b) {
        lemma_next_power(granule(a), granule(b));
    }
    lemma_steps_monotone(a, b, granule(a), granule(b));
}

proof fn lemma_step_power(n: nat)
    ensures
        is_power_of_two(product_step(n)),
        product_step(n) >= ONE_UNITS,
        n < 0x100_0000 * product_step(n),
{
    lemma_one_power();
    lemma_granule_power(n);
    lemma_granule_large(n);
}

proof fn lemma_rounded_product_monotone(a: nat, b: nat)
    requires
        a <= b,
    ensures
        rounded_product(a) <= rounded_product(b),
{
    lemma_step_power(a);
    lemma_step_power(b);
    lemma_granule_monotone(a, b);
    lemma_granule_small(b);
    if product_step(a) < product_step(b) {
        lemma_next_power(product_step(a), product_step(b));
    }
    lemma_steps_monotone(a, b, product_step(a), product_step(b));
}

/// A rounded product is a whole number of units.
proof fn lemma_product_exact(a: nat, b: nat)
    ensures
        product_units(a, b) * ONE_UNITS == rounded_product(a * b),
{
    let n = a * b;
    let one = ONE_UNITS as nat;
    let step = product_step(n);
    lemma_step_power(n);
    lemma_one_power();
    lemma_powers_divide(one, step);
    lemma_fundamental_div_mod(step as int, one as int);
    let c = step / one;
    let m = nearest(n, step);
    assert(m * step == (m * c) * one) by (nonlinear_arith)
        requires
            step == one as int * c,
    ;
    vstd::arithmetic::div_mod::lemma_div_multiples_vanish((m * c) as int, one as int);
    assert(one * (m * c) == (m * c) * one) by (nonlinear_arith);
}

/// Products keep the order of their factors.
pub proof fn lemma_product_monotone(a: nat, b: nat, c: nat, d: nat)
    requires
        a <= c,
        b <= d,
    ensures
        product_units(a, b) <= product_units(c, d),
{
    assert(a * b <= c * d) by (nonlinear_arith)
        requires
            a <= c,
            b <= d,
    ;
    lemma_rounded_product_monotone(a * b, c * d);
    lemma_product_exact(a, b);
    lemma_product_exact(c, d);
}

/// A product is at most twice what it is before rounding, and a unit.
pub proof fn lemma_product_bound(a: nat, b: nat)
    ensures
        product_units(a, b) * ONE_UNITS <= 2 * (a * b) + ONE_UNITS,
{
    let n = a * b;
    lemma_product_exact(a, b);
    lemma_step_power(n);
    crate::score::lemma_granule_bound(n);
    lemma_nearest_bound(n, product_step(n));
}

/// How far rounding takes a product.
pub proof fn lemma_product_close(a: nat, b: nat)
    ensures
        ({
            let p = product_units(a, b) * ONE_UNITS;
            let n = a * b;
            &&& 0x80_0000 * p <= 0x80_0000 * n + n + 0x80_0000 * ONE_UNITS
            &&& 0x80_0000 * n <= 0x80_0000 * p + n + 0x80_0000 * ONE_UNITS
        }),
{
    let n = a * b;
    lemma_product_exact(a, b);
    lemma_step_power(n);
    lemma_granule_small(n);
    lemma_nearest_bound(n, product_step(n));
    lemma_nearest_floor(n, product_step(n));
}

/// Rounding again changes nothing.
proof fn lemma_rounded_again(n: nat)
    ensures
        rounded_product(rounded_product(n)) == rounded_product(n),
{
    let s = product_step(n);
    let v = rounded_product(n);
    let m = nearest(n, s);
    lemma_step_power(n);
    lemma_nearest_bound(n, s);
    assert(n / s < 0x100_0000) by (nonlinear_arith)
        requires
            n < 0x100_0000 * s,
            s >= 1,
    ;
    assert(m <= 0x100_0000);
    assert(v < 0x100_0000 * (2 * s)) by (nonlinear_arith)
        requires
            v == m * s,
            m <= 0x100_0000,
            s >= 1,
    ;
    assert(is_power_of_two(2 * s));
    let t = product_step(v);
    lemma_step_power(v);
    lemma_one_power();
    if m < 0x100_0000 {
        assert(v < 0x100_0000 * s) by (nonlinear_arith)
            requires
                v == m * s,
                m < 0x100_0000,
                s >= 1,
        ;
        lemma_granule_below(v, s);
        lemma_powers_divide(t, s);
        lemma_multiple(m, s, t);
    } else {
        lemma_granule_below(v, 2 * s);
        assert(t <= 2 * s);
        lemma_powers_divide(t, 2 * s);
        assert(v == 0x80_0000 * (2 * s)) by (nonlinear_arith)
            requires
                v == m * s,
                m == 0x100_0000,
        ;
        lemma_multiple(0x80_0000, 2 * s, t);
    }
    assert(v % t == 0);
    lemma_fundamental_div_mod(v as int, t as int);
    assert(nearest(v, t) == v / t);
    assert((v / t) * t == v) by (nonlinear_arith)
        requires
            v == t as int * (v as int / t as int),
    ;
}

/// A multiple of a multiple is a multiple.
pub proof fn lemma_multiple(m: nat, s: nat, t: nat)
    requires
        t >= 1,
        s % t == 0,
    ensures
        (m * s) % t == 0,
{
    lemma_fundamental_div_mod(s as int, t as int);
    let c = s / t;
    assert(m * s == t * (m * c)) by (nonlinear_arith)
        requires
            s == t as int * c,
    ;
    vstd::arithmetic::div_mod::lemma_mod_multiples_basic((m * c) as int, t as int);
    assert(t * (m * c) == (m * c) * t) by (nonlinear_arith);
}

/// A further factor of at most one leaves a product no larger.
pub proof fn lemma_product_shrinks(x: nat, y: nat, a: nat, b: nat)
    requires
        a <= product_units(x, y),
        b <= ONE_UNITS,
    ensures
        product_units(a, b) <= product_units(x, y),
{
    let r = product_units(x, y);
    let one = ONE_UNITS as nat;
    lemma_product_exact(x, y);
    lemma_rounded_again(x * y);
    lemma_product_monotone(a, b, r, one);
    lemma_product_exact(r, one);
    let p = product_units(r, one);
    assert(p == r) by (nonlinear_arith)
        requires
            p * one == r * one,
            one >= 1,
    ;
}

/// Fractions of one denominator keep the order of their numerators.
pub proof fn lemma_ratio_monotone(a: nat, b: nat, den: nat)
    requires
        a <= b,
        den >= 1,
    ensures
        ratio_units(a, den) <= ratio_units(b, den),
{
    let one = ONE_UNITS as nat;
    let m = a * one;
    let n = b * one;
    assert(m <= n) by (nonlinear_arith)
        requires
            a <= b,
            m == a * one,
            n == b * one,
    ;
    let p = m / den;
    let q = n / den;
    lemma_div_is_ordered(m as int, n as int, den as int);
    lemma_fundamental_div_mod(m as int, den as int);
    lemma_fundamental_div_mod(n as int, den as int);
    let g = granule(p);
    let h = granule(q);
    lemma_granule_positive(p);
    lemma_granule_power(p);
    lemma_granule_power(q);
    lemma_granule_monotone(p, q);
    lemma_granule_large(p);
    lemma_granule_small(q);
    assert(den * g >= 1) by (nonlinear_arith)
        requires
            den >= 1,
            g >= 1,
    ;
    if g < h {
        lemma_next_power(g, h);
        assert(2 * (den * g) <= den * h) by (nonlinear_arith)
            requires
                2 * g <= h,
        ;
        assert(m <= 0x100_0000 * (den * g)) by (nonlinear_arith)
            requires
                m < den * p + den,
                p + 1 <= 0x100_0000 * g,
                den >= 1,
        ;
        assert(n >= 0x80_0000 * (den * h)) by (nonlinear_arith)
            requires
                n >= den * q,
                q >= 0x80_0000 * h,
                den >= 1,
        ;
    }
    lemma_steps_monotone(m, n, den * g, den * h);
    let x = nearest(m, den * g);
    let y = nearest(n, den * h);
    assert(x * g <= y * h) by (nonlinear_arith)
        requires
            x * (den * g) <= y * (den * h),
            den >= 1,
    ;
}

} // verus!
