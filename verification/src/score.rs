//! Evidence scores.
//!
//! A score is a non-negative single-precision quantity. It is held exactly, as a
//! multiple of 2^-60, and every operation rounds its result to twenty-four
//! significant bits, ties to even. For the magnitudes that scores take this is
//! what single-precision hardware computes, so thresholds decide the same way.

use vstd::arithmetic::div_mod::lemma_fundamental_div_mod;
use vstd::arithmetic::power2::{lemma2_to64, lemma2_to64_rest, lemma_pow2_pos, lemma_pow2_unfold, pow2};
use vstd::prelude::*;

verus! {

/// The number of units in the score one.
pub const ONE_UNITS: u128 = 0x1000_0000_0000_0000;

/// Sums and products are formed of scores below this many units.
pub const UNITS_LIMIT: u128 = 0x1_0000_0000_0000_0000_0000_0000_0000;

/// A term of a sum has at most this many units: a little over a million.
pub const TERM_LIMIT: u128 = 0x1_0000_0000_0000_0000_0000;

/// The smallest power of two of which `n` is fewer than 2^24 multiples.
pub open spec fn granule(n: nat) -> nat
    decreases n,
{
    if n < 0x100_0000 {
        1
    } else {
        2 * granule(n / 2)
    }
}

/// How many steps of size `step` lie nearest to `n`; a tie goes to the even count.
pub open spec fn nearest(n: nat, step: nat) -> nat {
    let q = n / step;
    let r = n % step;
    if 2 * r < step || (2 * r == step && q % 2 == 0) {
        q
    } else {
        q + 1
    }
}

/// `n` rounded to twenty-four significant bits.
pub open spec fn rounded(n: nat) -> nat {
    nearest(n, granule(n)) * granule(n)
}

/// The single-precision number nearest to `num / den`, in units.
pub open spec fn ratio_units(num: nat, den: nat) -> nat {
    let g = granule(num * ONE_UNITS as nat / den);
    nearest(num * ONE_UNITS as nat, den * g) * g
}

/// The rounded product of two scores given in units.
pub open spec fn product_units(a: nat, b: nat) -> nat {
    let g = granule(a * b);
    let step = if g < ONE_UNITS {
        ONE_UNITS as nat
    } else {
        g
    };
    nearest(a * b, step) * step / ONE_UNITS as nat
}

/// A non-negative single-precision quantity.
#[derive(Debug, Clone, Copy, PartialEq, Eq, Structural)]
pub struct Score {
    pub units: u128,
}

pub proof fn lemma_granule_positive(n: nat)
    ensures
        granule(n) >= 1,
    decreases n,
{
    if n >= 0x100_0000 {
        lemma_granule_positive(n / 2);
    }
}

/// A granule never exceeds the number it belongs to, unless that is zero.
pub proof fn lemma_granule_bound(n: nat)
    ensures
        granule(n) <= n || granule(n) == 1,
    decreases n,
{
    if n >= 0x100_0000 {
        lemma_granule_bound(n / 2);
    }
}

/// Rounding moves a number by at most half a granule, so by at most half of itself.
pub proof fn lemma_nearest_bound(n: nat, step: nat)
    requires
        step >= 1,
    ensures
        nearest(n, step) * step <= n + step,
        nearest(n, step) <= n / step + 1,
{
    lemma_fundamental_div_mod(n as int, step as int);
    let q = n / step;
    assert(step as int * (n as int / step as int) == q * step) by (nonlinear_arith)
        requires
            q == n as int / step as int,
    ;
    assert((q + 1) * step == q * step + step) by (nonlinear_arith);
}

pub proof fn lemma_rounded_bound(n: nat)
    ensures
        rounded(n) <= 2 * n,
{
    lemma_granule_positive(n);
    lemma_granule_bound(n);
    lemma_nearest_bound(n, granule(n));
    if n < 0x100_0000 {
        assert(n / 1 == n);
        assert(n % 1 == 0);
    }
}

/// Beyond twenty-four bits a granule is at most 2^-23 of its number.
pub proof fn lemma_granule_small(n: nat)
    ensures
        granule(n) == 1 || granule(n) * 0x80_0000 <= n,
    decreases n,
{
    if n >= 0x100_0000 {
        lemma_granule_small(n / 2);
    }
}

/// Rounding raises a number by at most 2^-23 of it, or by one unit.
pub proof fn lemma_rounded_close(n: nat)
    ensures
        rounded(n) * 0x80_0000 <= n * 0x80_0000 + n + 0x80_0000,
{
    lemma_granule_positive(n);
    lemma_granule_small(n);
    lemma_nearest_bound(n, granule(n));
}

pub open spec fn is_power_of_two(n: nat) -> bool
    decreases n,
{
    n == 1 || (n > 1 && n % 2 == 0 && is_power_of_two(n / 2))
}

pub proof fn lemma_granule_power(n: nat)
    ensures
        is_power_of_two(granule(n)),
    decreases n,
{
    if n >= 0x100_0000 {
        lemma_granule_power(n / 2);
        lemma_granule_positive(n / 2);
    }
}

/// A power of two divides every larger one.
pub proof fn lemma_powers_divide(small: nat, large: nat)
    requires
        is_power_of_two(small),
        is_power_of_two(large),
        small <= large,
    ensures
        large % small == 0,
    decreases small,
{
    if small > 1 {
        lemma_powers_divide(small / 2, large / 2);
        let c = (large / 2) / (small / 2);
        lemma_fundamental_div_mod((large / 2) as int, (small / 2) as int);
        assert(large == c * small) by (nonlinear_arith)
            requires
                large / 2 == (small / 2) * c,
                large % 2 == 0,
                small % 2 == 0,
        ;
        vstd::arithmetic::div_mod::lemma_mod_multiples_basic(c as int, small as int);
    }
}

pub proof fn lemma_product_power(a: nat, b: nat)
    requires
        is_power_of_two(a),
        is_power_of_two(b),
    ensures
        is_power_of_two(a * b),
    decreases a,
{
    if a == 1 {
        assert(a * b == b) by (nonlinear_arith)
            requires
                a == 1,
        ;
    } else {
        lemma_product_power(a / 2, b);
        let half = (a / 2) * b;
        assert(a * b == 2 * half) by (nonlinear_arith)
            requires
                a % 2 == 0,
                half == (a / 2) * b,
        ;
    }
}

/// The score one is a power of two.
pub proof fn lemma_one_power()
    ensures
        is_power_of_two(ONE_UNITS as nat),
{
    reveal_with_fuel(is_power_of_two, 62);
}

/// Rounding to steps never passes a multiple of the step.
pub proof fn lemma_nearest_capped(n: nat, step: nat, cap: nat)
    requires
        step >= 1,
        n <= cap,
        cap % step == 0,
    ensures
        nearest(n, step) * step <= cap,
{
    let c = cap / step;
    let q = n / step;
    lemma_fundamental_div_mod(n as int, step as int);
    lemma_fundamental_div_mod(cap as int, step as int);
    vstd::arithmetic::div_mod::lemma_div_is_ordered(n as int, cap as int, step as int);
    assert(cap == c * step) by (nonlinear_arith)
        requires
            cap == step as int * c,
    ;
    if q == c {
        assert(n % step == 0) by (nonlinear_arith)
            requires
                n == step as int * q + n % step,
                cap == c * step,
                q == c,
                n <= cap,
                0 <= n % step,
        ;
    } else {
        assert((q + 1) * step <= c * step) by (nonlinear_arith)
            requires
                q + 1 <= c,
                step >= 1,
        ;
        assert(q * step <= (q + 1) * step) by (nonlinear_arith)
            requires
                step >= 1,
        ;
    }
}

/// Rounding never passes a power of two.
pub proof fn lemma_rounded_capped(n: nat, cap: nat)
    requires
        n <= cap,
        is_power_of_two(cap),
    ensures
        rounded(n) <= cap,
{
    lemma_granule_positive(n);
    lemma_granule_power(n);
    lemma_granule_bound(n);
    if n > 0 {
        lemma_powers_divide(granule(n), cap);
        lemma_nearest_capped(n, granule(n), cap);
    } else {
        assert(granule(0) == 1);
        assert(nearest(0, 1) == 0);
    }
}

/// The product of two scores of at most one is at most one.
pub proof fn lemma_product_capped(a: nat, b: nat)
    requires
        a <= ONE_UNITS,
        b <= ONE_UNITS,
    ensures
        product_units(a, b) <= ONE_UNITS,
{
    let one = ONE_UNITS as nat;
    let n = a * b;
    let g = granule(n);
    let step = if g < ONE_UNITS {
        one
    } else {
        g
    };
    assert(n <= one * one) by (nonlinear_arith)
        requires
            n == a * b,
            a <= one,
            b <= one,
    ;
    lemma_one_power();
    lemma_product_power(one, one);
    lemma_granule_power(n);
    lemma_granule_positive(n);
    lemma_granule_bound(n);
    assert(step <= one * one) by (nonlinear_arith)
        requires
            step == one || step <= n || step == 1,
            n <= one * one,
            one >= 1,
    ;
    lemma_powers_divide(step, one * one);
    lemma_nearest_capped(n, step, one * one);
    let m = nearest(n, step) * step;
    assert(m / one <= one) by (nonlinear_arith)
        requires
            m <= one * one,
            one >= 1,
    ;
}

/// A fraction of at most a power of two rounds to at most that.
pub proof fn lemma_ratio_capped(num: nat, den: nat, whole: nat)
    requires
        0 < den,
        is_power_of_two(whole),
        num <= whole * den,
    ensures
        ratio_units(num, den) <= whole * ONE_UNITS,
{
    let one = ONE_UNITS as nat;
    let cap = whole * one;
    let n = num * one;
    let quotient = n / den;
    let g = granule(quotient);
    assert(n <= den * cap) by (nonlinear_arith)
        requires
            n == num * one,
            num <= whole * den,
            cap == whole * one,
    ;
    assert(quotient <= cap) by (nonlinear_arith)
        requires
            quotient == n / den,
            n <= den * cap,
            den > 0,
    ;
    lemma_one_power();
    lemma_product_power(whole, one);
    lemma_granule_power(quotient);
    lemma_granule_positive(quotient);
    lemma_granule_bound(quotient);
    assert(cap >= 1) by (nonlinear_arith)
        requires
            cap == whole * one,
            whole >= 1,
            one >= 1,
    ;
    lemma_powers_divide(g, cap);
    let c = cap / g;
    lemma_fundamental_div_mod(cap as int, g as int);
    assert(den * cap == c * (den * g)) by (nonlinear_arith)
        requires
            cap == g * c,
    ;
    assert(den * g >= 1) by (nonlinear_arith)
        requires
            den >= 1,
            g >= 1,
    ;
    vstd::arithmetic::div_mod::lemma_mod_multiples_basic(c as int, (den * g) as int);
    lemma_nearest_capped(n, den * g, den * cap);
    let q = nearest(n, den * g);
    assert(q * g <= cap) by (nonlinear_arith)
        requires
            q * (den * g) <= den * cap,
            den > 0,
    ;
}

/// The granule of `n`.
pub(crate) fn granule_of(n: u128) -> (g: u128)
    ensures
        g == granule(n as nat),
        1 <= g,
        g <= n || g == 1,
{
    let mut g: u128 = 1;
    let mut m: u128 = n;
    while m >= 0x100_0000
        invariant
            granule(n as nat) == g * granule(m as nat),
            g >= 1,
            g * m <= n,
        decreases m,
    {
        proof {
            assert(granule(m as nat) == 2 * granule(m as nat / 2));
            assert(g * (2 * granule(m as nat / 2)) == (2 * g) * granule(m as nat / 2))
                by (nonlinear_arith);
            assert(2 * (m / 2) <= m);
            let half: u128 = m / 2;
            assert((2 * g) * half <= g * m) by (nonlinear_arith)
                requires
                    2 * half <= m,
                    g >= 1,
            ;
            assert(2 * g <= (2 * g) * half) by (nonlinear_arith)
                requires
                    half >= 1,
                    g >= 1,
            ;
        }
        g = 2 * g;
        m = m / 2;
    }
    proof {
        assert(g * 1 == g);
        lemma_granule_bound(n as nat);
    }
    g
}

/// How many steps lie nearest to `n`.
fn nearest_of(n: u128, step: u128) -> (q: u128)
    requires
        step >= 1,
        n < u128::MAX / 2,
        step < u128::MAX / 2,
    ensures
        q == nearest(n as nat, step as nat),
        q <= n / step + 1,
{
    let q: u128 = n / step;
    let r: u128 = n % step;
    if 2 * r < step || (2 * r == step && q % 2 == 0) {
        q
    } else {
        proof {
            assert(q <= n) by (nonlinear_arith)
                requires
                    q == n / step,
                    step >= 1,
            ;
        }
        q + 1
    }
}

pub(crate) fn rounded_of(n: u128) -> (m: u128)
    requires
        n < u128::MAX / 4,
    ensures
        m == rounded(n as nat),
{
    let g: u128 = granule_of(n);
    let q: u128 = nearest_of(n, g);
    proof {
        lemma_rounded_bound(n as nat);
    }
    q * g
}

impl Score {
    pub open spec fn zero() -> Score {
        Score { units: 0 }
    }

    pub open spec fn one() -> Score {
        Score { units: ONE_UNITS }
    }

    /// The score is at most one.
    pub open spec fn in_unit(self) -> bool {
        self.units <= ONE_UNITS
    }

    /// The single-precision number nearest to `num / den`.
    pub open spec fn of_ratio(num: nat, den: nat) -> Score {
        Score { units: ratio_units(num, den) as u128 }
    }

    /// The single-precision number nearest to `h` hundredths.
    pub open spec fn of_hundredths(h: nat) -> Score {
        Score::of_ratio(h, 100)
    }

    /// The rounded sum.
    pub open spec fn sum(self, other: Score) -> Score {
        Score { units: rounded((self.units + other.units) as nat) as u128 }
    }

    /// The rounded difference of a larger and a smaller score.
    pub open spec fn difference(self, other: Score) -> Score {
        Score { units: rounded((self.units - other.units) as nat) as u128 }
    }

    /// The rounded product.
    pub open spec fn product(self, other: Score) -> Score {
        Score { units: product_units(self.units as nat, other.units as nat) as u128 }
    }

    pub open spec fn lesser(self, other: Score) -> Score {
        if other.units < self.units {
            other
        } else {
            self
        }
    }

    pub open spec fn greater(self, other: Score) -> Score {
        if other.units > self.units {
            other
        } else {
            self
        }
    }

    /// The single-precision number nearest to `num / den`.
    pub fn ratio(num: u64, den: u64) -> (s: Score)
        requires
            0 < den < ONE_UNITS,
            num < 0x1_0000_0000,
        ensures
            s == Score::of_ratio(num as nat, den as nat),
            s.units < UNITS_LIMIT,
            s.units * den <= 2 * num * ONE_UNITS + den,
            num <= den ==> s.in_unit(),
            num <= 2 * den ==> s.units <= 2 * ONE_UNITS,
    {
        let n: u128 = (num as u128) * ONE_UNITS;
        let g: u128 = granule_of(n / (den as u128));
        let ghost quotient: nat = n as nat / den as nat;
        proof {
            assert(n as nat == num as nat * ONE_UNITS as nat);
            lemma_granule_bound(quotient);
            lemma_fundamental_div_mod(n as int, den as int);
            assert(den * g <= n || den * g == den) by (nonlinear_arith)
                requires
                    g <= quotient || g == 1,
                    den as int * (n as int / den as int) <= n,
                    quotient == n as int / den as int,
            ;
            assert(den * g >= 1) by (nonlinear_arith)
                requires
                    den >= 1,
                    g >= 1,
            ;
        }
        let q: u128 = nearest_of(n, (den as u128) * g);
        proof {
            let step = (den * g) as nat;
            lemma_nearest_bound(n as nat, step);
            assert(q * step <= n + step);
            assert(q * g <= q * step) by (nonlinear_arith)
                requires
                    step == den * g,
                    den >= 1,
                    g >= 1,
            ;
            assert((q * g) * den == q * step) by (nonlinear_arith)
                requires
                    step == den * g,
            ;
            if num <= den {
                lemma_ratio_capped(num as nat, den as nat, 1);
            }
            if num <= 2 * den {
                assert(is_power_of_two(2)) by {
                    reveal_with_fuel(is_power_of_two, 2);
                }
                lemma_ratio_capped(num as nat, den as nat, 2);
            }
        }
        Score { units: q * g }
    }

    /// The single-precision number nearest to `h` hundredths.
    pub fn hundredths(h: u64) -> (s: Score)
        requires
            h < 0x1_0000_0000,
        ensures
            s == Score::of_hundredths(h as nat),
            s.units < UNITS_LIMIT,
            h <= 100 ==> s.in_unit(),
            h <= 200 ==> s.units <= 2 * ONE_UNITS,
    {
        Score::ratio(h, 100)
    }

    pub fn plus(self, other: Score) -> (s: Score)
        requires
            self.units < UNITS_LIMIT,
            other.units < UNITS_LIMIT,
        ensures
            s == self.sum(other),
    {
        let n: u128 = self.units + other.units;
        Score { units: rounded_of(n) }
    }

    pub fn minus(self, other: Score) -> (s: Score)
        requires
            other.units <= self.units < UNITS_LIMIT,
        ensures
            s == self.difference(other),
    {
        let n: u128 = self.units - other.units;
        Score { units: rounded_of(n) }
    }

    pub fn times(self, other: Score) -> (s: Score)
        requires
            self.units <= 32 * ONE_UNITS,
            other.units <= 2 * ONE_UNITS,
        ensures
            s == self.product(other),
    {
        proof {
            assert(self.units * other.units <= 0x4000_0000_0000_0000_0000_0000_0000_0000)
                by (nonlinear_arith)
                requires
                    self.units <= 0x2_0000_0000_0000_0000,
                    other.units <= 0x2000_0000_0000_0000,
            ;
        }
        let n: u128 = self.units * other.units;
        let g: u128 = granule_of(n);
        let step: u128 = if g < ONE_UNITS {
            ONE_UNITS
        } else {
            g
        };
        let q: u128 = nearest_of(n, step);
        proof {
            lemma_nearest_bound(n as nat, step as nat);
        }
        Score { units: q * step / ONE_UNITS }
    }

    pub fn min(self, other: Score) -> (s: Score)
        ensures
            s == self.lesser(other),
    {
        if other.units < self.units {
            other
        } else {
            self
        }
    }

    pub fn max(self, other: Score) -> (s: Score)
        ensures
            s == self.greater(other),
    {
        if other.units > self.units {
            other
        } else {
            self
        }
    }

    pub fn at_least(self, threshold: Score) -> (b: bool)
        ensures
            b == (self.units >= threshold.units),
    {
        self.units >= threshold.units
    }
}

/// The terms added up from zero, first to last.
pub open spec fn sum_terms(terms: Seq<Score>) -> Score
    decreases terms.len(),
{
    if terms.len() == 0 {
        Score::zero()
    } else {
        sum_terms(terms.drop_last()).sum(terms.last())
    }
}

/// The terms added up from zero, first to last.
pub fn add_up(terms: &[Score]) -> (total: Score)
    requires
        terms@.len() <= 0x10_0000,
        forall|i: int| 0 <= i < terms@.len() ==> (#[trigger] terms@[i]).units <= TERM_LIMIT,
    ensures
        total == sum_terms(terms@),
        total.units <= 0x2_0000_0000_0000_0000_0000 * terms@.len(),
{
    let mut total = Score { units: 0 };
    let mut i: usize = 0;
    while i < terms.len()
        invariant
            i <= terms@.len() <= 0x10_0000,
            forall|k: int|
                0 <= k < terms@.len() ==> (#[trigger] terms@[k]).units <= TERM_LIMIT,
            total == sum_terms(terms@.take(i as int)),
            total.units <= 0x2_0000_0000_0000_0000_0000 * i,
        decreases terms@.len() - i,
    {
        assert(terms@.take(i + 1).drop_last() =~= terms@.take(i as int));
        assert(terms@.take(i + 1).last() == terms@[i as int]);
        proof {
            lemma_rounded_close((total.units + terms@[i as int].units) as nat);
        }
        total = total.plus(terms[i]);
        i = i + 1;
    }
    assert(terms@.take(i as int) =~= terms@);
    total
}

/// The factors multiplied up from one, first to last.
pub open spec fn product_of(factors: Seq<Score>) -> Score
    decreases factors.len(),
{
    if factors.len() == 0 {
        Score::one()
    } else {
        product_of(factors.drop_last()).product(factors.last())
    }
}

/// Doubling a number of more than twenty-four bits doubles its granule.
pub proof fn lemma_granule_shift(q: nat, r: nat, k: nat)
    requires
        q >= 0x100_0000,
        r < pow2(k),
    ensures
        granule(q * pow2(k) + r) == granule(q) * pow2(k),
    decreases k,
{
    if k == 0 {
        lemma2_to64();
        assert(pow2(0) == 1);
        assert(q * pow2(0) == q) by (nonlinear_arith)
            requires
                pow2(0) == 1,
        ;
        assert(granule(q) * pow2(0) == granule(q)) by (nonlinear_arith)
            requires
                pow2(0) == 1,
        ;
    } else {
        let half = pow2((k - 1) as nat);
        lemma_pow2_unfold(k);
        lemma_pow2_pos((k - 1) as nat);
        let n = q * pow2(k) + r;
        assert(n == 2 * (q * half) + r) by (nonlinear_arith)
            requires
                n == q * pow2(k) + r,
                pow2(k) == 2 * half,
        ;
        assert(n / 2 == q * half + r / 2);
        assert(q * half >= q) by (nonlinear_arith)
            requires
                half >= 1,
        ;
        lemma_granule_shift(q, r / 2, (k - 1) as nat);
        assert(2 * (granule(q) * half) == granule(q) * pow2(k)) by (nonlinear_arith)
            requires
                pow2(k) == 2 * half,
        ;
    }
}

/// A number below 2^24 multiples of a power of two has at most that for a granule.
proof fn lemma_granule_low(n: nat, k: nat)
    requires
        n < 0x100_0000 * pow2(k),
    ensures
        granule(n) <= pow2(k),
    decreases k,
{
    lemma_pow2_pos(k);
    if k == 0 {
        lemma2_to64();
    } else if n >= 0x100_0000 {
        lemma_pow2_unfold(k);
        lemma_granule_low(n / 2, (k - 1) as nat);
    }
}

/// Rounding to a multiple of a step can be decided on the whole part and the remainder.
proof fn lemma_nearest_parts(n: nat, base: nat, q: nat, r: nat, g: nat)
    requires
        base >= 1,
        g >= 1,
        n == q * base + r,
        r < base,
    ensures
        n / (base * g) == q / g,
        n % (base * g) == (q % g) * base + r,
{
    let c = q / g;
    let u = q % g;
    lemma_fundamental_div_mod(q as int, g as int);
    let low = u * base + r;
    assert(n == c * (base * g) + low) by (nonlinear_arith)
        requires
            n == q * base + r,
            q == g * c + u,
            low == u * base + r,
    ;
    assert(low < base * g) by (nonlinear_arith)
        requires
            low == u * base + r,
            u + 1 <= g,
            r < base,
    ;
    vstd::arithmetic::div_mod::lemma_fundamental_div_mod_converse(
        n as int,
        (base * g) as int,
        c as int,
        low as int,
    );
}

/// The rounding of `q * base + r` to multiples of `base * g`, told how the remainder
/// compares with half the base.
pub(crate) fn nearest_split(
    q: u128,
    g: u128,
    below: bool,
    tie: bool,
    zero: bool,
    Ghost(base): Ghost<nat>,
    Ghost(r): Ghost<nat>,
) -> (m: u128)
    requires
        1 <= g,
        g == 1 || g % 2 == 0,
        r < base,
        q < u128::MAX || g > 1,
        below == (2 * r < base),
        tie == (2 * r == base),
        zero == (r == 0),
    ensures
        m == nearest(q as nat * base + r, base * g as nat),
        m <= q / g + 1,
{
    let c: u128 = q / g;
    let u: u128 = q % g;
    let ghost n = q as nat * base + r;
    let ghost low = u as nat * base + r;
    let ghost step = base * g as nat;
    proof {
        lemma_nearest_parts(n, base, q as nat, r, g as nat);
        assert(n / step == c);
        assert(n % step == low);
        assert(c < u128::MAX) by (nonlinear_arith)
            requires
                c == q / g,
                g >= 1,
                q < u128::MAX || g > 1,
        ;
    }
    if g == 1 {
        proof {
            assert(u == 0);
            assert(low == r) by (nonlinear_arith)
                requires
                    u == 0,
                    low == u * base + r,
            ;
            assert(step == base);
        }
        if below || (tie && c % 2 == 0) {
            c
        } else {
            c + 1
        }
    } else {
        let half: u128 = g / 2;
        if u < half {
            proof {
                assert(2 * low < step) by (nonlinear_arith)
                    requires
                        low == u * base + r,
                        step == base * g,
                        r < base,
                        2 * u + 2 <= g,
                ;
            }
            c
        } else if u > half {
            proof {
                assert(2 * low > step) by (nonlinear_arith)
                    requires
                        low == u * base + r,
                        step == base * g,
                        base >= 1,
                        2 * u >= g + 2,
                ;
            }
            c + 1
        } else {
            proof {
                assert(2 * low == step + 2 * r) by (nonlinear_arith)
                    requires
                        low == u * base + r,
                        step == base * g,
                        2 * u == g,
                ;
            }
            if zero && c % 2 == 0 {
                c
            } else {
                c + 1
            }
        }
    }
}

/// The rounding of `q * base + r` to multiples of `base * g`.
pub(crate) fn nearest_parts(q: u128, r: u128, base: u128, g: u128) -> (m: u128)
    requires
        1 <= g,
        g == 1 || g % 2 == 0,
        r < base,
        base < 0x4000_0000_0000_0000_0000_0000_0000_0000,
        q < u128::MAX || g > 1,
    ensures
        m == nearest(q as nat * base as nat + r as nat, base as nat * g as nat),
        m <= q / g + 1,
{
    nearest_split(
        q,
        g,
        2 * r < base,
        2 * r == base,
        r == 0,
        Ghost(base as nat),
        Ghost(r as nat),
    )
}

pub proof fn lemma_granule_even(n: nat)
    ensures
        granule(n) == 1 || granule(n) % 2 == 0,
{
}

/// The single-precision number nearest to `num / den`, in units.
fn ratio_of(num: u128, den: u128) -> (units: u128)
    requires
        0 < den < 0x2000_0000_0000_0000_0000_0000_0000_0000,
        num < den * 0x1_0000_0000_0000_0000,
    ensures
        units == ratio_units(num as nat, den as nat),
{
    let mut q: u128 = num / den;
    let mut r: u128 = num % den;
    let mut k: u32 = 0;
    proof {
        lemma_fundamental_div_mod(num as int, den as int);
        lemma2_to64();
        lemma2_to64_rest();
        assert(q < 0x1_0000_0000_0000_0000) by (nonlinear_arith)
            requires
                num == den * q + r,
                num < den * 0x1_0000_0000_0000_0000,
                den > 0,
                r >= 0,
        ;
        assert(q * den == den * q) by (nonlinear_arith);
        assert(num * pow2(0) == num);
    }
    while k < 60
        invariant
            k <= 60,
            0 < den < 0x2000_0000_0000_0000_0000_0000_0000_0000,
            r < den,
            num * pow2(k as nat) == q * den + r,
            q < 0x1_0000_0000_0000_0000 * pow2(k as nat),
            pow2(60) == ONE_UNITS,
        decreases 60 - k,
    {
        proof {
            lemma_pow2_unfold((k + 1) as nat);
            vstd::arithmetic::power2::lemma_pow2_strictly_increases(k as nat, 60);
            assert(num * pow2((k + 1) as nat) == 2 * (num * pow2(k as nat))) by (nonlinear_arith)
                requires
                    pow2((k + 1) as nat) == 2 * pow2(k as nat),
            ;
            assert((2 * q) * den == 2 * (q * den)) by (nonlinear_arith);
            assert((2 * q + 1) * den == 2 * (q * den) + den) by (nonlinear_arith);
        }
        let twice: u128 = 2 * r;
        if twice >= den {
            q = 2 * q + 1;
            r = twice - den;
        } else {
            q = 2 * q;
            r = twice;
        }
        k = k + 1;
    }
    let g: u128 = granule_of(q);
    let ghost n = num as nat * ONE_UNITS as nat;
    proof {
        assert(n == q as nat * den as nat + r as nat);
        vstd::arithmetic::div_mod::lemma_fundamental_div_mod_converse(
            n as int,
            den as int,
            q as int,
            r as int,
        );
        assert(n / den as nat == q);
        lemma_granule_even(q as nat);
    }
    let m: u128 = nearest_parts(q, r, den, g);
    proof {
        lemma_nearest_bound(q as nat, g as nat);
        assert(m * g <= 2 * q + 1) by (nonlinear_arith)
            requires
                m <= q / g + 1,
                g >= 1,
                g <= q || g == 1,
        ;
    }
    m * g
}

impl Score {
    /// The rounded quotient.
    pub open spec fn quotient(self, other: Score) -> Score {
        Score { units: ratio_units(self.units as nat, other.units as nat) as u128 }
    }

    /// The rounded quotient, where it is below 2^64.
    pub fn divided(self, other: Score) -> (s: Score)
        requires
            0 < other.units < 0x2000_0000_0000_0000_0000_0000_0000_0000,
            self.units < other.units * 0x1_0000_0000_0000_0000,
        ensures
            s == self.quotient(other),
    {
        Score { units: ratio_of(self.units, other.units) }
    }
}

/// A product can be rounded on its whole part and the remainder.
pub proof fn lemma_product_parts(a: nat, b: nat, q: nat, r: nat)
    requires
        a * b == q * ONE_UNITS as nat + r,
        r < ONE_UNITS,
    ensures
        product_units(a, b) == nearest(
            q * ONE_UNITS as nat + r,
            ONE_UNITS as nat * granule(q),
        ) * granule(q),
{
    let one = ONE_UNITS as nat;
    let n = a * b;
    lemma2_to64();
    lemma2_to64_rest();
    assert(pow2(60) == one);
    lemma_granule_positive(q);
    let step = one * granule(q);
    if q >= 0x100_0000 {
        lemma_granule_shift(q, r, 60);
        assert(granule(n) == step) by (nonlinear_arith)
            requires
                granule(n) == granule(q) * one,
                step == one * granule(q),
        ;
        assert(step >= one) by (nonlinear_arith)
            requires
                step == one * granule(q),
                granule(q) >= 1,
        ;
    } else {
        assert(n < 0x100_0000 * one) by (nonlinear_arith)
            requires
                n == q * one + r,
                q + 1 <= 0x100_0000,
                r < one,
        ;
        lemma_granule_low(n, 60);
    }
    let m = nearest(n, step);
    assert(m * step == (m * granule(q)) * one) by (nonlinear_arith)
        requires
            step == one * granule(q),
    ;
    vstd::arithmetic::div_mod::lemma_div_multiples_vanish((m * granule(q)) as int, one as int);
    assert(one * (m * granule(q)) == (m * granule(q)) * one) by (nonlinear_arith);
}

pub proof fn lemma_rounded_positive(n: nat)
    requires
        n >= 1,
    ensures
        rounded(n) >= 1,
{
    let g = granule(n);
    lemma_granule_positive(n);
    lemma_granule_bound(n);
    lemma_fundamental_div_mod(n as int, g as int);
    assert(n / g >= 1) by (nonlinear_arith)
        requires
            1 <= g <= n,
    ;
    assert(nearest(n, g) * g >= 1) by (nonlinear_arith)
        requires
            nearest(n, g) >= 1,
            g >= 1,
    ;
}

/// Numbers of at most twenty-four bits are not rounded.
pub proof fn lemma_rounded_small(n: nat)
    requires
        n < 0x100_0000,
    ensures
        rounded(n) == n,
{
    assert(granule(n) == 1);
    assert(n / 1 == n);
    assert(n % 1 == 0);
    assert(nearest(n, 1) == n);
    assert(n * 1 == n);
}

impl Score {
    /// The quotient of two whole numbers, each rounded first.
    pub open spec fn of_counts(num: nat, den: nat) -> Score {
        Score { units: ratio_units(rounded(num), rounded(den)) as u128 }
    }

    /// The quotient of two whole numbers, each rounded first.
    pub fn counts(num: u64, den: u64) -> (s: Score)
        requires
            num < 0x8000_0000_0000_0000,
            0 < den,
        ensures
            s == Score::of_counts(num as nat, den as nat),
            num <= den < 0x100_0000 ==> s.in_unit(),
    {
        let n: u128 = rounded_of(num as u128);
        let d: u128 = rounded_of(den as u128);
        proof {
            lemma_rounded_bound(num as nat);
            lemma_rounded_bound(den as nat);
            lemma_rounded_positive(den as nat);
            assert(n < d * 0x1_0000_0000_0000_0000) by (nonlinear_arith)
                requires
                    n < 0x1_0000_0000_0000_0000,
                    d >= 1,
            ;
            if num <= den && den < 0x100_0000 {
                lemma_rounded_small(num as nat);
                lemma_rounded_small(den as nat);
                reveal_with_fuel(is_power_of_two, 2);
                lemma_ratio_capped(num as nat, den as nat, 1);
            }
        }
        Score { units: ratio_of(n, d) }
    }

    /// A number of bytes in mebibytes.
    pub open spec fn of_mebibytes(bytes: nat) -> Score {
        Score { units: (rounded(bytes) * 0x100_0000_0000) as u128 }
    }

    /// A number of bytes in mebibytes.
    pub fn mebibytes(bytes: u64) -> (s: Score)
        ensures
            s == Score::of_mebibytes(bytes as nat),
    {
        proof {
            lemma_rounded_bound(bytes as nat);
        }
        Score { units: rounded_of(bytes as u128) * 0x100_0000_0000 }
    }
}

/// A fraction of at most a whole number of up to twenty-four bits rounds to at most that.
pub proof fn lemma_ratio_whole(num: nat, den: nat, whole: nat)
    requires
        0 < den,
        whole < 0x100_0000,
        num <= whole * den,
    ensures
        ratio_units(num, den) <= whole * ONE_UNITS,
{
    let one = ONE_UNITS as nat;
    let cap = whole * one;
    let n = num * one;
    let quotient = n / den;
    let g = granule(quotient);
    assert(n <= den * cap) by (nonlinear_arith)
        requires
            n == num * one,
            num <= whole * den,
            cap == whole * one,
    ;
    assert(quotient <= cap) by (nonlinear_arith)
        requires
            quotient == n / den,
            n <= den * cap,
            den > 0,
    ;
    assert(cap < 0x100_0000 * one) by (nonlinear_arith)
        requires
            cap == whole * one,
            whole < 0x100_0000,
            one == 0x1000_0000_0000_0000,
    ;
    lemma2_to64();
    lemma2_to64_rest();
    lemma_granule_low(quotient, 60);
    lemma_one_power();
    lemma_granule_power(quotient);
    lemma_granule_positive(quotient);
    lemma_powers_divide(g, one);
    let c = one / g;
    lemma_fundamental_div_mod(one as int, g as int);
    assert(den * cap == (whole * c) * (den * g)) by (nonlinear_arith)
        requires
            cap == whole * one,
            one == g * c,
    ;
    assert(den * g >= 1) by (nonlinear_arith)
        requires
            den >= 1,
            g >= 1,
    ;
    vstd::arithmetic::div_mod::lemma_mod_multiples_basic((whole * c) as int, (den * g) as int);
    lemma_nearest_capped(n, den * g, den * cap);
    let q = nearest(n, den * g);
    assert(q * g <= cap) by (nonlinear_arith)
        requires
            q * (den * g) <= den * cap,
            den > 0,
    ;
}

} // verus!
