//! Fixed-point helpers: floor division of signed numbers and a logistic
//! squash, all in millionths.
use vstd::prelude::*;

verus! {

/// Floor division by a positive divisor.
pub fn floor_div(a: i128, b: i128) -> (r: i128)
    requires
        b > 0,
        a > i128::MIN,
    ensures
        r == a / b,
{
    if a >= 0 {
        a / b
    } else {
        let n: i128 = -a;
        let q: i128 = (n - 1) / b;
        proof {
            let m: int = (n - 1) as int;
            let d: int = b as int;
            vstd::arithmetic::div_mod::lemma_fundamental_div_mod(m, d);
            vstd::arithmetic::div_mod::lemma_mod_bound(m, d);
            let qq: int = m / d;
            let rr: int = m % d;
            assert(a as int == (-qq - 1) * d + (d - 1 - rr)) by (nonlinear_arith)
                requires
                    a as int == -m - 1,
                    m == d * qq + rr,
            ;
            vstd::arithmetic::div_mod::lemma_fundamental_div_mod_converse(a as int, d, -qq - 1, d - 1 - rr);
        }
        -q - 1
    }
}

/// e to the power of minus one, in millionths.
pub const INV_E: u64 = 367_879;

/// Largest input magnitude, in millionths, that the squash distinguishes.
pub const SQUASH_LIMIT: u64 = 20_000_000;

/// Partial sums of the exponential series at `f` (millionths): the `k`-th
/// term and the sum of terms `0 ..= k`.
pub open spec fn exp_series(f: int, k: nat) -> (int, int)
    decreases k,
{
    if k == 0 {
        (1_000_000, 1_000_000)
    } else {
        let (t, s) = exp_series(f, (k - 1) as nat);
        let t2 = t * f / ((k as int) * 1_000_000);
        (t2, s + t2)
    }
}

/// e to the power of a fraction `f` below one, in millionths, by twelve
/// terms of its series.
pub open spec fn exp_fraction(f: int) -> int {
    exp_series(f, 12).1
}

/// e to the power of minus `n`, in millionths.
pub open spec fn exp_neg_whole(n: nat) -> int
    decreases n,
{
    if n == 0 {
        1_000_000
    } else {
        exp_neg_whole((n - 1) as nat) * INV_E / 1_000_000
    }
}

/// The logistic function at a non-negative `a` (millionths), in millionths,
/// kept below one.
pub open spec fn logistic_upper(a: int) -> int {
    let c = if a > SQUASH_LIMIT {
        SQUASH_LIMIT as int
    } else {
        a
    };
    let d = exp_neg_whole((c / 1_000_000) as nat) * (1_000_000_000_000int / exp_fraction(c % 1_000_000)) / 1_000_000;
    let s = 1_000_000_000_000int / (1_000_000 + d);
    if s > 999_999 {
        999_999
    } else {
        s
    }
}

/// The logistic function `1 / (1 + e^-x)` in millionths; it stays strictly
/// between zero and one.
pub open spec fn logistic(x: int) -> int {
    if x >= 0 {
        logistic_upper(x)
    } else {
        1_000_000 - logistic_upper(-x)
    }
}

fn exp_fraction_exec(f: u64) -> (r: u64)
    requires
        f < 1_000_000,
    ensures
        r == exp_fraction(f as int),
        1_000_000 <= r <= 13_000_000,
{
    let mut t: u64 = 1_000_000;
    let mut s: u64 = 1_000_000;
    let mut k: u64 = 1;
    while k <= 12
        invariant
            1 <= k <= 13,
            f < 1_000_000,
            (t as int, s as int) == exp_series(f as int, (k - 1) as nat),
            t <= 1_000_000,
            1_000_000 <= s <= k * 1_000_000,
        decreases 13 - k,
    {
        assert(t * f <= 1_000_000 * 1_000_000) by (nonlinear_arith)
            requires
                t <= 1_000_000,
                f < 1_000_000,
        ;
        let t2 = t * f / (k * 1_000_000);
        assert(t2 <= t) by (nonlinear_arith)
            requires
                t2 == t * f / (k * 1_000_000),
                f < 1_000_000,
                k >= 1,
        {
            vstd::arithmetic::div_mod::lemma_div_is_ordered((t * f) as int, (t * (k * 1_000_000)) as int, (k * 1_000_000) as int);
            vstd::arithmetic::div_mod::lemma_div_multiples_vanish(t as int, (k * 1_000_000) as int);
        }
        t = t2;
        s = s + t;
        k += 1;
    }
    s
}

fn exp_neg_whole_exec(n: u64) -> (r: u64)
    requires
        n <= 20,
    ensures
        r == exp_neg_whole(n as nat),
        r <= 1_000_000,
{
    let mut d: u64 = 1_000_000;
    let mut i: u64 = 0;
    while i < n
        invariant
            i <= n,
            d == exp_neg_whole(i as nat),
            d <= 1_000_000,
        decreases n - i,
    {
        assert(d * INV_E / 1_000_000 <= d) by (nonlinear_arith)
            requires
                d <= 1_000_000,
        {
            vstd::arithmetic::div_mod::lemma_div_is_ordered((d * INV_E) as int, (d * 1_000_000) as int, 1_000_000);
            vstd::arithmetic::div_mod::lemma_div_multiples_vanish(d as int, 1_000_000);
        }
        d = d * INV_E / 1_000_000;
        i += 1;
    }
    d
}

fn logistic_upper_exec(a: u128) -> (r: u64)
    ensures
        r == logistic_upper(a as int),
        500_000 <= r <= 999_999,
{
    let c: u64 = if a > SQUASH_LIMIT as u128 {
        SQUASH_LIMIT
    } else {
        a as u64
    };
    let whole = exp_neg_whole_exec(c / 1_000_000);
    let frac = exp_fraction_exec(c % 1_000_000);
    let inv = 1_000_000_000_000 / frac;
    assert(inv <= 1_000_000) by (nonlinear_arith)
        requires
            inv == 1_000_000_000_000u64 / frac,
            frac >= 1_000_000,
    {
        vstd::arithmetic::div_mod::lemma_div_is_ordered_by_denominator(1_000_000_000_000int, 1_000_000int, frac as int);
    }
    assert(whole * inv <= 1_000_000 * 1_000_000) by (nonlinear_arith)
        requires
            whole <= 1_000_000,
            inv <= 1_000_000,
    ;
    let d = whole * inv / 1_000_000;
    let s = 1_000_000_000_000 / (1_000_000 + d);
    assert(s >= 500_000) by (nonlinear_arith)
        requires
            s as int == 1_000_000_000_000int / (1_000_000 + d as int),
            d <= 1_000_000,
    {
        vstd::arithmetic::div_mod::lemma_div_is_ordered_by_denominator(1_000_000_000_000int, (1_000_000 + d) as int, 2_000_000int);
    }
    if s > 999_999 {
        999_999
    } else {
        s
    }
}

/// The logistic squash of `x` (millionths), in millionths.
pub fn logistic_exec(x: i128) -> (r: u64)
    ensures
        r == logistic(x as int),
        0 < r < 1_000_000,
{
    if x >= 0 {
        logistic_upper_exec(x as u128)
    } else {
        let m: u128 = if x == i128::MIN {
            SQUASH_LIMIT as u128 + 1
        } else {
            (-x) as u128
        };
        let u = logistic_upper_exec(m);
        proof {
            if x == i128::MIN {
                assert(logistic_upper(m as int) == logistic_upper(-x));
            }
        }
        1_000_000 - u
    }
}

/// The squash lies strictly between zero and one for every input.
pub proof fn lemma_logistic_open_interval(x: int)
    ensures
        0 < logistic(x) < 1_000_000,
{
    let a = if x >= 0 { x } else { -x };
    let c = if a > SQUASH_LIMIT { SQUASH_LIMIT as int } else { a };
    lemma_exp_fraction_bounds(c % 1_000_000);
    lemma_exp_neg_whole_bound((c / 1_000_000) as nat);
    let whole = exp_neg_whole((c / 1_000_000) as nat);
    let frac = exp_fraction(c % 1_000_000);
    let inv: int = 1_000_000_000_000int / frac;
    assert(0 <= inv <= 1_000_000) by (nonlinear_arith)
        requires
            inv == 1_000_000_000_000int / frac,
            frac >= 1_000_000,
    {
        vstd::arithmetic::div_mod::lemma_div_is_ordered_by_denominator(1_000_000_000_000int, 1_000_000int, frac);
    }
    let d = whole * inv / 1_000_000;
    assert(0 <= d <= 1_000_000) by (nonlinear_arith)
        requires
            d == whole * inv / 1_000_000,
            0 <= whole <= 1_000_000,
            0 <= inv <= 1_000_000,
    {
        vstd::arithmetic::mul::lemma_mul_upper_bound(whole, 1_000_000, inv, 1_000_000);
        vstd::arithmetic::div_mod::lemma_div_is_ordered(whole * inv, 1_000_000_000_000int, 1_000_000int);
    }
    let s: int = 1_000_000_000_000int / (1_000_000 + d);
    assert(s >= 500_000) by (nonlinear_arith)
        requires
            s == 1_000_000_000_000int / (1_000_000 + d),
            0 <= d <= 1_000_000,
    {
        vstd::arithmetic::div_mod::lemma_div_is_ordered_by_denominator(1_000_000_000_000int, 1_000_000 + d, 2_000_000int);
    }
}

proof fn lemma_exp_series_bounds(f: int, k: nat)
    requires
        0 <= f < 1_000_000,
    ensures
        0 <= exp_series(f, k).0 <= 1_000_000,
        1_000_000 <= exp_series(f, k).1,
    decreases k,
{
    if k > 0 {
        lemma_exp_series_bounds(f, (k - 1) as nat);
        let t = exp_series(f, (k - 1) as nat).0;
        let kk: int = k as int;
        let den: int = kk * 1_000_000;
        assert(0 <= t * f / den <= t) by (nonlinear_arith)
            requires
                0 <= t <= 1_000_000,
                0 <= f < 1_000_000,
                kk >= 1,
                den == kk * 1_000_000,
        {
            vstd::arithmetic::div_mod::lemma_div_is_ordered(t * f, t * den, den);
            vstd::arithmetic::div_mod::lemma_div_multiples_vanish(t, den);
            vstd::arithmetic::div_mod::lemma_div_pos_is_pos(t * f, den);
        }
    }
}

proof fn lemma_exp_fraction_bounds(f: int)
    requires
        0 <= f < 1_000_000,
    ensures
        exp_fraction(f) >= 1_000_000,
{
    lemma_exp_series_bounds(f, 12);
}

proof fn lemma_exp_neg_whole_bound(n: nat)
    ensures
        0 <= exp_neg_whole(n) <= 1_000_000,
    decreases n,
{
    if n > 0 {
        lemma_exp_neg_whole_bound((n - 1) as nat);
        let d = exp_neg_whole((n - 1) as nat);
        assert(0 <= d * INV_E / 1_000_000 <= d) by (nonlinear_arith)
            requires
                0 <= d <= 1_000_000,
        {
            vstd::arithmetic::div_mod::lemma_div_is_ordered(d * (INV_E as int), d * 1_000_000, 1_000_000int);
            vstd::arithmetic::div_mod::lemma_div_multiples_vanish(d, 1_000_000int);
            vstd::arithmetic::div_mod::lemma_div_pos_is_pos(d * (INV_E as int), 1_000_000int);
        }
    }
}

} // verus!
