//! Sums of scores of any size.
//!
//! A sum is formed from zero, first term to last, and rounded at every step as scores are.
//! It may grow past what a score can hold, but not without bound: a sum that is large enough
//! swallows its terms.

use vstd::arithmetic::div_mod::{lemma_fundamental_div_mod, lemma_fundamental_div_mod_converse};
use vstd::arithmetic::power2::{
    lemma2_to64, lemma2_to64_rest, lemma_pow2_adds, lemma_pow2_unfold, pow2,
};
use vstd::prelude::*;

use crate::score::{
    granule, granule_of, is_power_of_two, lemma_granule_bound, lemma_granule_even,
    lemma_granule_positive, lemma_granule_power, lemma_granule_shift, lemma_powers_divide,
    lemma_product_parts, lemma_ratio_capped, lemma_rounded_capped, nearest, nearest_parts,
    nearest_split, product_units, ratio_units, rounded, rounded_of, Score, ONE_UNITS,
};

verus! {

/// The number of values of a word.
pub const WORD: u128 = 0x1_0000_0000_0000_0000;

/// No term of a sum has more units than this, 2^128.
pub open spec fn term_bound() -> nat {
    0x1_0000_0000_0000_0000_0000_0000_0000_0000nat
}

/// No sum has more units than this, 2^154.
pub open spec fn total_bound() -> nat {
    0x400_0000_0000_0000_0000_0000_0000_0000_0000_0000nat
}

/// The terms added up from zero, first to last, in units.
pub open spec fn total_units(terms: Seq<nat>) -> nat
    decreases terms.len(),
{
    if terms.len() == 0 {
        0
    } else {
        rounded(total_units(terms.drop_last()) + terms.last())
    }
}

pub open spec fn units_of(terms: Seq<Score>) -> Seq<nat> {
    terms.map_values(|s: Score| s.units as nat)
}

/// The score of so many units, cut at one.
pub open spec fn capped(units: nat) -> Score {
    if units < ONE_UNITS {
        Score { units: units as u128 }
    } else {
        Score::one()
    }
}

/// The terms added up and cut at one.
pub open spec fn capped_sum(terms: Seq<Score>) -> Score {
    capped(total_units(units_of(terms)))
}

/// A number of units in two words.
#[derive(Debug, Clone, Copy)]
pub struct Total {
    pub high: u128,
    pub low: u64,
}

proof fn lemma_total_bound_power()
    ensures
        is_power_of_two(total_bound()),
{
    reveal_with_fuel(is_power_of_two, 80);
    let half: nat = 0x2000_0000_0000_0000_0000;
    assert(is_power_of_two(half));
    crate::score::lemma_product_power(half, half);
    assert(half * half == total_bound()) by (nonlinear_arith)
        requires
            half == 0x2000_0000_0000_0000_0000,
            total_bound() == 0x400_0000_0000_0000_0000_0000_0000_0000_0000_0000int,
    ;
}

proof fn lemma_pow2_130()
    ensures
        pow2(130) == 0x4_0000_0000_0000_0000_0000_0000_0000_0000int,
{
    lemma2_to64();
    lemma2_to64_rest();
    lemma_pow2_adds(64, 64);
    lemma_pow2_adds(128, 2);
    assert(pow2(128) == 0x1_0000_0000_0000_0000_0000_0000_0000_0000int);
    assert(pow2(2) == 4);
}

/// A sum never passes its bound: one that is as large swallows what is added.
proof fn lemma_swallowed(total: nat, term: nat)
    requires
        total <= total_bound(),
        term <= term_bound(),
    ensures
        rounded(total + term) <= total_bound(),
{
    let n = total + term;
    let bound = total_bound();
    lemma_total_bound_power();
    if n <= bound {
        lemma_rounded_capped(n, bound);
    } else {
        lemma_pow2_130();
        let q: nat = 0x100_0000;
        let r = (n - bound) as nat;
        assert(q * pow2(130) == bound) by (nonlinear_arith)
            requires
                q == 0x100_0000,
                pow2(130) == 0x4_0000_0000_0000_0000_0000_0000_0000_0000int,
                bound == 0x400_0000_0000_0000_0000_0000_0000_0000_0000_0000int,
        ;
        lemma_granule_shift(q, r, 130);
        assert(granule(0x80_0000) == 1);
        assert(granule(q) == 2);
        let g = granule(n);
        assert(g == 0x8_0000_0000_0000_0000_0000_0000_0000_0000int);
        let c: nat = 0x80_0000;
        assert(c * g == bound) by (nonlinear_arith)
            requires
                c == 0x80_0000,
                g == 0x8_0000_0000_0000_0000_0000_0000_0000_0000int,
                bound == 0x400_0000_0000_0000_0000_0000_0000_0000_0000_0000int,
        ;
        lemma_fundamental_div_mod_converse(n as int, g as int, c as int, r as int);
        assert(nearest(n, g) == c);
    }
}

impl Total {
    pub open spec fn value(self) -> nat {
        self.high as nat * WORD as nat + self.low as nat
    }

    pub(crate) fn of(units: u128) -> (t: Total)
        ensures
            t.value() == units,
            t.value() <= term_bound(),
    {
        Total { high: units / WORD, low: (units % WORD) as u64 }
    }

    /// So many times a power of two.
    fn scaled(m: u128, g: u128) -> (t: Total)
        requires
            m <= 0x100_0000,
            is_power_of_two(g as nat),
            m * g <= term_bound(),
        ensures
            t.value() == m * g,
    {
        if g < WORD {
            proof {
                assert(m * g <= 0x100_0000 * 0x1_0000_0000_0000_0000) by (nonlinear_arith)
                    requires
                        m <= 0x100_0000,
                        g <= 0x1_0000_0000_0000_0000,
                ;
            }
            Total::of(m * g)
        } else {
            let part: u128 = g / WORD;
            proof {
                reveal_with_fuel(is_power_of_two, 66);
                assert(is_power_of_two(WORD as nat));
                lemma_powers_divide(WORD as nat, g as nat);
                lemma_fundamental_div_mod(g as int, WORD as int);
                assert(m * g == (m * part) * WORD) by (nonlinear_arith)
                    requires
                        g == WORD as int * part,
                ;
                assert(m * part <= 0x1_0000_0000_0000_0000) by (nonlinear_arith)
                    requires
                        (m * part) * WORD <= 0x1_0000_0000_0000_0000_0000_0000_0000_0000int,
                        WORD == 0x1_0000_0000_0000_0000,
                ;
            }
            Total { high: m * part, low: 0 }
        }
    }

    /// The rounded sum.
    pub(crate) fn plus(self, term: Total) -> (t: Total)
        requires
            self.value() <= total_bound(),
            term.value() <= term_bound(),
        ensures
            t.value() == rounded(self.value() + term.value()),
            t.value() <= total_bound(),
    {
        let low: u128 = self.low as u128 + term.low as u128;
        let carry: u128 = low / WORD;
        let rest: u128 = low % WORD;
        proof {
            lemma_swallowed(self.value(), term.value());
            assert(self.high <= 0x400_0000_0000_0000_0000_0000) by (nonlinear_arith)
                requires
                    self.high * WORD <= 0x400_0000_0000_0000_0000_0000_0000_0000_0000_0000int,
                    WORD == 0x1_0000_0000_0000_0000,
            ;
            assert(term.high <= 0x1_0000_0000_0000_0000) by (nonlinear_arith)
                requires
                    term.high * WORD <= 0x1_0000_0000_0000_0000_0000_0000_0000_0000int,
                    WORD == 0x1_0000_0000_0000_0000,
            ;
        }
        let high: u128 = self.high + term.high + carry;
        let ghost n = self.value() + term.value();
        assert(n == high * WORD + rest) by {
            assert(low == carry * WORD + rest);
            assert((self.high + term.high + carry) * WORD == self.high * WORD + term.high * WORD
                + carry * WORD) by (nonlinear_arith);
        }
        if high < 0x100_0000 {
            proof {
                assert(high * WORD <= 0x100_0000 * 0x1_0000_0000_0000_0000) by (nonlinear_arith)
                    requires
                        high <= 0x100_0000,
                        WORD == 0x1_0000_0000_0000_0000,
                ;
            }
            Total::of(rounded_of(high * WORD + rest))
        } else {
            let g: u128 = granule_of(high);
            proof {
                lemma2_to64();
                lemma2_to64_rest();
                assert(pow2(64) == WORD);
                lemma_granule_shift(high as nat, rest as nat, 64);
                lemma_granule_even(high as nat);
            }
            let m: u128 = nearest_parts(high, rest, WORD, g);
            proof {
                assert(granule(n) == WORD as nat * g as nat) by (nonlinear_arith)
                    requires
                        granule(n) == g as nat * WORD as nat,
                ;
                assert(rounded(n) == m * (WORD * g));
                assert(m * (WORD * g) == (m * g) * WORD) by (nonlinear_arith);
                assert(m * g <= 0x400_0000_0000_0000_0000_0000) by (nonlinear_arith)
                    requires
                        (m * g) * WORD <= 0x400_0000_0000_0000_0000_0000_0000_0000_0000_0000int,
                        WORD == 0x1_0000_0000_0000_0000,
                ;
            }
            Total { high: m * g, low: 0 }
        }
    }

    /// This many units are at least as many.
    pub(crate) fn reaches(self, other: Total) -> (b: bool)
        ensures
            b == (self.value() >= other.value()),
    {
        proof {
            if self.high > other.high {
                assert(self.high * WORD >= (other.high + 1) * WORD) by (nonlinear_arith)
                    requires
                        self.high >= other.high + 1,
                ;
                assert((other.high + 1) * WORD == other.high * WORD + WORD) by (nonlinear_arith);
            }
            if self.high < other.high {
                assert(other.high * WORD >= (self.high + 1) * WORD) by (nonlinear_arith)
                    requires
                        other.high >= self.high + 1,
                ;
                assert((self.high + 1) * WORD == self.high * WORD + WORD) by (nonlinear_arith);
            }
        }
        self.high > other.high || (self.high == other.high && self.low >= other.low)
    }

    /// Twice as many units.
    pub(crate) fn doubled(self) -> (t: Total)
        requires
            self.value() <= total_bound(),
        ensures
            t.value() == 2 * self.value(),
    {
        proof {
            assert(self.high <= 0x400_0000_0000_0000_0000_0000) by (nonlinear_arith)
                requires
                    self.high * WORD <= 0x400_0000_0000_0000_0000_0000_0000_0000_0000_0000int,
                    WORD == 0x1_0000_0000_0000_0000,
            ;
        }
        let low: u128 = 2 * (self.low as u128);
        let carry: u128 = low / WORD;
        let high: u128 = 2 * self.high + carry;
        assert(high * WORD == 2 * (self.high * WORD) + carry * WORD) by (nonlinear_arith)
            requires
                high == 2 * self.high + carry,
        ;
        Total { high, low: (low % WORD) as u64 }
    }

    /// So many units fewer.
    fn less(self, other: Total) -> (t: Total)
        requires
            other.value() <= self.value(),
        ensures
            t.value() == self.value() - other.value(),
    {
        proof {
            if self.high < other.high {
                assert(other.high * WORD >= (self.high + 1) * WORD) by (nonlinear_arith)
                    requires
                        other.high >= self.high + 1,
                ;
                assert((self.high + 1) * WORD == self.high * WORD + WORD) by (nonlinear_arith);
            }
        }
        if self.low >= other.low {
            let high: u128 = self.high - other.high;
            assert(high * WORD == self.high * WORD - other.high * WORD) by (nonlinear_arith)
                requires
                    high == self.high - other.high,
            ;
            Total { high, low: self.low - other.low }
        } else {
            let high: u128 = self.high - other.high - 1;
            assert(high * WORD == self.high * WORD - other.high * WORD - WORD) by (nonlinear_arith)
                requires
                    high == self.high - other.high - 1,
            ;
            Total { high, low: ((WORD + self.low as u128) - other.low as u128) as u64 }
        }
    }
}

/// The terms added up.
pub(crate) fn total_of(terms: &[Score]) -> (total: Total)
    ensures
        total.value() == total_units(units_of(terms@)),
        total.value() <= total_bound(),
{
    let mut total = Total::of(0);
    let mut i: usize = 0;
    let ghost all = units_of(terms@);
    while i < terms.len()
        invariant
            i <= terms@.len(),
            all == units_of(terms@),
            total.value() == total_units(all.take(i as int)),
            total.value() <= total_bound(),
        decreases terms@.len() - i,
    {
        assert(all.take(i + 1).drop_last() =~= all.take(i as int));
        total = total.plus(Total::of(terms[i].units));
        i = i + 1;
    }
    assert(all.take(i as int) =~= all);
    total
}

/// The terms added up and cut at one.
pub fn add_up_capped(terms: &[Score]) -> (score: Score)
    ensures
        score == capped_sum(terms@),
        score.in_unit(),
{
    let total = total_of(terms);
    if total.high == 0 && (total.low as u128) < ONE_UNITS {
        Score { units: total.low as u128 }
    } else {
        proof {
            assert(total.high >= 1 ==> total.high * WORD >= WORD) by (nonlinear_arith);
        }
        Score { units: ONE_UNITS }
    }
}

/// The rounded product of a score of at most one and any score.
pub(crate) fn product_total(a: Score, b: Score) -> (t: Total)
    requires
        a.in_unit(),
    ensures
        t.value() == product_units(a.units as nat, b.units as nat),
        t.value() <= term_bound(),
{
    let x: u128 = a.units;
    let y: u128 = b.units;
    let mut q: u128 = y;
    let mut r: u128 = 0;
    if x < ONE_UNITS {
        let hi: u128 = y / ONE_UNITS;
        let lo: u128 = y % ONE_UNITS;
        proof {
            assert(x * hi <= 0xFFF_FFFF_FFFF_FFFF * 0xF_FFFF_FFFF_FFFF_FFFF) by (nonlinear_arith)
                requires
                    x <= 0xFFF_FFFF_FFFF_FFFF,
                    hi <= 0xF_FFFF_FFFF_FFFF_FFFF,
            ;
            assert(x * lo <= 0xFFF_FFFF_FFFF_FFFF * 0xFFF_FFFF_FFFF_FFFF) by (nonlinear_arith)
                requires
                    x <= 0xFFF_FFFF_FFFF_FFFF,
                    lo <= 0xFFF_FFFF_FFFF_FFFF,
            ;
        }
        let whole: u128 = x * hi;
        let part: u128 = x * lo;
        proof {
            assert(x * y == whole * ONE_UNITS + part) by (nonlinear_arith)
                requires
                    y == hi * ONE_UNITS + lo,
                    whole == x * hi,
                    part == x * lo,
            ;
            assert(x * y <= ONE_UNITS * y) by (nonlinear_arith)
                requires
                    x <= ONE_UNITS,
            ;
        }
        r = part % ONE_UNITS;
        assert(whole + part / ONE_UNITS <= y) by (nonlinear_arith)
            requires
                whole * ONE_UNITS + part <= ONE_UNITS * y,
                ONE_UNITS > 0,
        ;
        q = whole + part / ONE_UNITS;
        assert(x * y == q * ONE_UNITS + r) by (nonlinear_arith)
            requires
                x * y == whole * ONE_UNITS + part,
                q == whole + part / ONE_UNITS,
                r == part % ONE_UNITS,
                part == ONE_UNITS * (part / ONE_UNITS) + part % ONE_UNITS,
        ;
    } else {
        assert(x * y == q * ONE_UNITS + r) by (nonlinear_arith)
            requires
                x == ONE_UNITS,
                q == y,
                r == 0,
        ;
    }
    let g: u128 = granule_of(q);
    proof {
        lemma_product_parts(x as nat, y as nat, q as nat, r as nat);
        lemma_granule_even(q as nat);
        lemma_granule_power(q as nat);
        lemma_digits(q as nat);
    }
    let m: u128 = nearest_parts(q, r, ONE_UNITS, g);
    proof {
        lemma_scaled_bound(q as nat, g as nat, m as nat);
    }
    Total::scaled(m, g)
}

/// A number is fewer than 2^24 of its granules.
proof fn lemma_digits(n: nat)
    ensures
        n / granule(n) < 0x100_0000,
        n < 0x100_0000 * granule(n),
    decreases n,
{
    lemma_granule_positive(n);
    if n >= 0x100_0000 {
        lemma_digits(n / 2);
    }
    let g = granule(n);
    assert(n / g < 0x100_0000) by (nonlinear_arith)
        requires
            n < 0x100_0000 * g,
            g >= 1,
    ;
}

/// What a number below 2^128 is rounded to is no more than that.
proof fn lemma_scaled_bound(q: nat, g: nat, m: nat)
    requires
        q < term_bound(),
        g == granule(q),
        m <= q / g + 1,
    ensures
        m <= 0x100_0000,
        m * g <= term_bound(),
{
    lemma_digits(q);
    lemma_granule_positive(q);
    lemma_granule_power(q);
    lemma_granule_bound(q);
    let c = q / g;
    reveal_with_fuel(is_power_of_two, 66);
    assert(is_power_of_two(WORD as nat));
    crate::score::lemma_product_power(WORD as nat, WORD as nat);
    assert(WORD as nat * WORD as nat == term_bound()) by (nonlinear_arith)
        requires
            WORD == 0x1_0000_0000_0000_0000,
            term_bound() == 0x1_0000_0000_0000_0000_0000_0000_0000_0000int,
    ;
    lemma_powers_divide(g, term_bound());
    let k = term_bound() / g;
    lemma_fundamental_div_mod(term_bound() as int, g as int);
    lemma_fundamental_div_mod(q as int, g as int);
    assert(c + 1 <= k) by (nonlinear_arith)
        requires
            g * c <= q,
            q < term_bound(),
            term_bound() == g * k,
            g >= 1,
    ;
    assert(m * g <= term_bound()) by (nonlinear_arith)
        requires
            m <= k,
            term_bound() == g * k,
    ;
}

/// A fraction of at least a power of two of units rounds to at least that.
pub proof fn lemma_ratio_floor(num: nat, den: nat, floor: nat)
    requires
        0 < den,
        is_power_of_two(floor),
        floor * den <= num * ONE_UNITS,
    ensures
        ratio_units(num, den) >= floor,
{
    let n = num * ONE_UNITS as nat;
    let quotient = n / den;
    let g = granule(quotient);
    lemma_granule_positive(quotient);
    lemma_granule_power(quotient);
    assert(quotient >= floor) by (nonlinear_arith)
        requires
            quotient == n / den,
            floor * den <= n,
            den > 0,
    ;
    let step = den * g;
    assert(step >= 1) by (nonlinear_arith)
        requires
            step == den * g,
            den >= 1,
            g >= 1,
    ;
    let q = n / step;
    assert(q == quotient / g) by {
        vstd::arithmetic::div_mod::lemma_div_denominator(n as int, den as int, g as int);
    }
    let m = nearest(n, step);
    assert(m >= q);
    lemma_fundamental_div_mod(quotient as int, g as int);
    if g <= floor {
        lemma_powers_divide(g, floor);
        let c = floor / g;
        lemma_fundamental_div_mod(floor as int, g as int);
        assert(q >= c) by {
            vstd::arithmetic::div_mod::lemma_div_is_ordered(
                floor as int,
                quotient as int,
                g as int,
            );
        }
        assert(m * g >= floor) by (nonlinear_arith)
            requires
                m >= c,
                floor == g * c,
        ;
    } else {
        lemma_granule_bound(quotient);
        assert(q >= 1) by (nonlinear_arith)
            requires
                q == quotient / g,
                quotient >= g,
                g >= 1,
        ;
        assert(m * g >= floor) by (nonlinear_arith)
            requires
                m >= 1,
                g > floor,
        ;
    }
}

/// Half of a large score is still at least one.
pub proof fn lemma_large_product(a: nat, b: nat)
    requires
        a >= 32 * ONE_UNITS,
        2 * b >= ONE_UNITS,
    ensures
        product_units(a, b) >= ONE_UNITS,
{
    let one = ONE_UNITS as nat;
    let n = a * b;
    let g = granule(n);
    assert(n >= 16 * (one * one)) by (nonlinear_arith)
        requires
            n == a * b,
            a >= 32 * one,
            2 * b >= one,
    ;
    lemma_granule_positive(n);
    crate::score::lemma_granule_small(n);
    let step = if g < ONE_UNITS {
        one
    } else {
        g
    };
    let m = nearest(n, step);
    lemma_fundamental_div_mod(n as int, step as int);
    assert(m * step + step > n) by (nonlinear_arith)
        requires
            m >= n / step,
            n == step * (n / step) + n % step,
            n % step < step,
            step >= 1,
    ;
    assert(one * one >= one) by (nonlinear_arith)
        requires
            one >= 1,
    ;
    assert(2 * step <= n);
    assert(m * step >= one * one);
    assert(m * step / one >= one) by (nonlinear_arith)
        requires
            m * step >= one * one,
            one >= 1,
    ;
}

/// The rounded quotient, cut at one.
pub(crate) fn share(num: Total, den: Total) -> (s: Score)
    requires
        0 < den.value() <= total_bound(),
        num.value() <= total_bound(),
    ensures
        s == capped(ratio_units(num.value(), den.value())),
        s.in_unit(),
{
    if num.reaches(den) {
        proof {
            crate::score::lemma_one_power();
            assert(ONE_UNITS as nat * den.value() <= num.value() * ONE_UNITS) by (nonlinear_arith)
                requires
                    den.value() <= num.value(),
            ;
            lemma_ratio_floor(num.value(), den.value(), ONE_UNITS as nat);
        }
        return Score { units: ONE_UNITS };
    }
    let ghost a = num.value();
    let ghost b = den.value();
    let mut q: u128 = 0;
    let mut r: Total = num;
    let mut k: u32 = 0;
    proof {
        lemma2_to64();
        lemma2_to64_rest();
        assert(a * pow2(0) == a);
        assert(0 * b == 0);
    }
    while k < 60
        invariant
            k <= 60,
            a == num.value(),
            b == den.value(),
            0 < b <= total_bound(),
            r.value() < b,
            a * pow2(k as nat) == q * b + r.value(),
            q < pow2(k as nat),
            pow2(60) == ONE_UNITS,
        decreases 60 - k,
    {
        let twice = r.doubled();
        proof {
            lemma_pow2_unfold((k + 1) as nat);
            vstd::arithmetic::power2::lemma_pow2_strictly_increases(k as nat, 60);
            assert(a * pow2((k + 1) as nat) == 2 * (a * pow2(k as nat))) by (nonlinear_arith)
                requires
                    pow2((k + 1) as nat) == 2 * pow2(k as nat),
            ;
            assert((2 * q) * b == 2 * (q * b)) by (nonlinear_arith);
            assert((2 * q + 1) * b == 2 * (q * b) + b) by (nonlinear_arith);
        }
        if twice.reaches(den) {
            q = 2 * q + 1;
            r = twice.less(den);
        } else {
            q = 2 * q;
            r = twice;
        }
        k = k + 1;
    }
    let g: u128 = granule_of(q);
    let ghost n = a * ONE_UNITS as nat;
    let ghost rest = r.value();
    let twice = r.doubled();
    let enough = twice.reaches(den);
    let more = den.reaches(twice);
    proof {
        lemma_fundamental_div_mod_converse(n as int, b as int, q as int, rest as int);
        lemma_granule_even(q as nat);
        assert(r.high >= 1 ==> r.high * WORD >= WORD) by (nonlinear_arith);
    }
    let m: u128 = nearest_split(
        q,
        g,
        !enough,
        enough && more,
        r.high == 0 && r.low == 0,
        Ghost(b),
        Ghost(rest),
    );
    proof {
        assert(is_power_of_two(1));
        lemma_ratio_capped(a, b, 1);
        assert(ratio_units(a, b) == m * g);
    }
    Score { units: m * g }
}

} // verus!
