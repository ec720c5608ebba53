//! Rounding behavior.

use vstd::prelude::*;
use vstd::arithmetic::div_mod::{
    lemma_fundamental_div_mod, lemma_fundamental_div_mod_converse, lemma_mod_bound,
};

verus! {

/// Rounding strategy used when an exact fixed-point result cannot
/// be represented.
#[derive(Clone, Copy, Debug, Default, PartialEq, Eq, Structural, Hash)]
pub enum RoundingMode {
    /// Round toward negative infinity.
    Floor,
    /// Round toward positive infinity.
    Ceil,
    /// Round toward zero.
    TowardZero,
    /// Round to the nearest integer.
    ///
    /// Exact half-way cases are rounded away from zero.
    #[default]
    Nearest,
}

/// Absolute value of an integer.
pub open spec fn magnitude(v: int) -> int {
    if v < 0 {
        -v
    } else {
        v
    }
}

/// `⌊n / d⌋` for a nonzero `d`.
///
/// Verus' integer division is Euclidean, which is floor division
/// whenever the divisor is positive.
pub open spec fn floor_div(n: int, d: int) -> int {
    if d > 0 {
        n / d
    } else {
        (-n) / (-d)
    }
}

/// `⌈n / d⌉` for a nonzero `d`.
pub open spec fn ceil_div(n: int, d: int) -> int {
    -floor_div(-n, d)
}

/// Whether the exact quotient `n / d` is nonnegative.
pub open spec fn quotient_nonnegative(n: int, d: int) -> bool {
    n == 0 || (n > 0) == (d > 0)
}

/// `n / d` rounded toward zero.
pub open spec fn trunc_div(n: int, d: int) -> int {
    if quotient_nonnegative(n, d) {
        floor_div(n, d)
    } else {
        ceil_div(n, d)
    }
}

/// `n / d` rounded to the nearest integer, half-way cases away from zero:
/// `⌊n/d + 1/2⌋` for a nonnegative quotient and `⌈n/d - 1/2⌉` otherwise.
pub open spec fn nearest_div(n: int, d: int) -> int {
    if quotient_nonnegative(n, d) {
        floor_div(2 * n + d, 2 * d)
    } else {
        ceil_div(2 * n - d, 2 * d)
    }
}

/// The exact quotient `n / d` rounded as `mode` prescribes.
pub open spec fn rounded_quotient(n: int, d: int, mode: RoundingMode) -> int {
    match mode {
        RoundingMode::Floor => floor_div(n, d),
        RoundingMode::Ceil => ceil_div(n, d),
        RoundingMode::TowardZero => trunc_div(n, d),
        RoundingMode::Nearest => nearest_div(n, d),
    }
}

/// Whether an integer fits in an `i64`.
pub open spec fn fits_i64(v: int) -> bool {
    i64::MIN <= v <= i64::MAX
}

/// For `a >= 0` and `b > 0`: `(-a) / b` is `-(a / b)`, minus one when the
/// division leaves a remainder.
proof fn lemma_div_of_negation(a: int, b: int)
    requires
        a >= 0,
        b > 0,
    ensures
        (-a) / b == -(a / b) - (if a % b == 0 { 0int } else { 1int }),
{
    lemma_fundamental_div_mod(a, b);
    lemma_mod_bound(a, b);
    let q = a / b;
    let r = a % b;
    if r == 0 {
        assert(-a == b * (-q) + 0) by (nonlinear_arith)
            requires
                a == b * q + r,
                r == 0,
        ;
        lemma_fundamental_div_mod_converse(-a, b, -q, 0);
    } else {
        assert(-a == b * (-q - 1) + (b - r)) by (nonlinear_arith)
            requires
                a == b * q + r,
        ;
        lemma_fundamental_div_mod_converse(-a, b, -q - 1, b - r);
    }
}

/// For `a >= 0` and `b > 0`: `(2a + b) / 2b` is `a / b`, plus one when the
/// remainder is at least half of `b`.
proof fn lemma_half_up_div(a: int, b: int)
    requires
        a >= 0,
        b > 0,
    ensures
        (2 * a + b) / (2 * b) == a / b + (if 2 * (a % b) >= b { 1int } else { 0int }),
{
    lemma_fundamental_div_mod(a, b);
    lemma_mod_bound(a, b);
    let q = a / b;
    let r = a % b;
    if 2 * r >= b {
        assert(2 * a + b == (2 * b) * (q + 1) + (2 * r - b)) by (nonlinear_arith)
            requires
                a == b * q + r,
        ;
        lemma_fundamental_div_mod_converse(2 * a + b, 2 * b, q + 1, 2 * r - b);
    } else {
        assert(2 * a + b == (2 * b) * q + (2 * r + b)) by (nonlinear_arith)
            requires
                a == b * q + r,
        ;
        lemma_fundamental_div_mod_converse(2 * a + b, 2 * b, q, 2 * r + b);
    }
}

/// The rounded quotient expressed through the truncated quotient and the
/// remainder of the magnitudes.
proof fn lemma_rounded_quotient_by_magnitudes(n: int, d: int, mode: RoundingMode)
    requires
        d != 0,
    ensures
        ({
            let q = magnitude(n) / magnitude(d);
            let r = magnitude(n) % magnitude(d);
            let up: int = match mode {
                RoundingMode::TowardZero => 0,
                RoundingMode::Floor => if quotient_nonnegative(n, d) || r == 0 { 0 } else { 1 },
                RoundingMode::Ceil => if quotient_nonnegative(n, d) && r != 0 { 1 } else { 0 },
                RoundingMode::Nearest => if 2 * r >= magnitude(d) { 1 } else { 0 },
            };
            rounded_quotient(n, d, mode) == if quotient_nonnegative(n, d) {
                q + up
            } else {
                -(q + up)
            }
        }),
{
    let an = magnitude(n);
    let ad = magnitude(d);
    lemma_div_of_negation(an, ad);
    lemma_half_up_div(an, ad);
    if n != 0 {
        lemma_div_of_negation(2 * an + ad, 2 * ad);
    }
    // The nearest rounding evaluates (2|n| + |d|) / 2|d| in every sign case.
    assert(2 * n + d == -(2 * an + ad) || 2 * n + d == 2 * an + ad || !quotient_nonnegative(n, d));
    assert(-(2 * n - d) == 2 * an + ad || d - 2 * n == -(2 * an + ad) || quotient_nonnegative(n, d));
}

/// The product `d·q` and the error `n - d·q` of a quotient `q` whose
/// magnitude is the truncated quotient of the magnitudes, plus `up`.
proof fn lemma_error_by_magnitudes(n: int, d: int, up: int)
    requires
        d != 0,
        up == 0 || up == 1,
        n == 0 ==> up == 0,
    ensures
        ({
            let an = magnitude(n);
            let ad = magnitude(d);
            let m = an / ad + up;
            let q = if quotient_nonnegative(n, d) { m } else { -m };
            &&& magnitude(d * q) == ad * (an / ad) + ad * up
            &&& n >= 0 ==> n - d * q == an % ad - ad * up
            &&& n < 0 ==> n - d * q == ad * up - an % ad
            &&& an == ad * (an / ad) + an % ad
            &&& 0 <= an % ad < ad
            &&& n >= 0 ==> d * q >= 0
            &&& n < 0 ==> d * q <= 0
        }),
{
    let an = magnitude(n);
    let ad = magnitude(d);
    lemma_fundamental_div_mod(an, ad);
    lemma_mod_bound(an, ad);
    let qq = an / ad;
    let m = qq + up;
    assert(qq >= 0) by (nonlinear_arith) requires an >= 0, ad > 0, qq == an / ad;
    assert(ad * m == ad * qq + ad * up) by (nonlinear_arith) requires m == qq + up;
    assert(ad * m >= 0) by (nonlinear_arith) requires ad > 0, m >= 0;
    let q = if quotient_nonnegative(n, d) { m } else { -m };
    if d > 0 {
        if quotient_nonnegative(n, d) {
            assert(d * q == ad * m);
        } else {
            assert(d * q == -(ad * m)) by (nonlinear_arith) requires d == ad, q == -m;
        }
    } else {
        if quotient_nonnegative(n, d) {
            assert(d * q == -(ad * m)) by (nonlinear_arith) requires d == -ad, q == m;
        } else {
            assert(d * q == ad * m) by (nonlinear_arith) requires d == -ad, q == -m;
        }
    }
    if n == 0 {
        assert(qq == 0) by (nonlinear_arith) requires an == 0, ad > 0, qq == an / ad;
        assert(ad * m == 0) by (nonlinear_arith) requires m == 0;
    }
}

/// Each rounding mode returns the integer that its documentation promises
/// for the exact quotient `n / d`, written with `e = n - d·q` for the error
/// left by the result `q`:
///
/// - `Floor` rounds toward negative infinity: `d·q <= n < d·(q + 1)` for a
///   positive divisor, mirrored for a negative one;
/// - `Ceil` rounds toward positive infinity;
/// - `TowardZero` keeps the sign of `n` in `d·q` and drops less than one
///   unit of the quotient;
/// - `Nearest` is within half a unit, `|2e| <= |d|`, and a half-way case is
///   rounded away from zero: `|d·q| > |n|` when `|2e| == |d|`.
pub proof fn lemma_rounding_modes_are_as_documented(n: int, d: int)
    requires
        d != 0,
    ensures
        ({
            let q = rounded_quotient(n, d, RoundingMode::Floor);
            &&& d > 0 ==> 0 <= n - d * q < d
            &&& d < 0 ==> d < n - d * q <= 0
        }),
        ({
            let q = rounded_quotient(n, d, RoundingMode::Ceil);
            &&& d > 0 ==> -d < n - d * q <= 0
            &&& d < 0 ==> 0 <= n - d * q < -d
        }),
        ({
            let q = rounded_quotient(n, d, RoundingMode::TowardZero);
            &&& n >= 0 ==> d * q >= 0
            &&& n <= 0 ==> d * q <= 0
            &&& magnitude(d * q) <= magnitude(n) < magnitude(d * q) + magnitude(d)
        }),
        ({
            let q = rounded_quotient(n, d, RoundingMode::Nearest);
            let e = n - d * q;
            &&& magnitude(2 * e) <= magnitude(d)
            &&& magnitude(2 * e) == magnitude(d) ==> magnitude(d * q) > magnitude(n)
        }),
{
    let an = magnitude(n);
    let ad = magnitude(d);
    let r = an % ad;
    lemma_fundamental_div_mod(an, ad);
    lemma_mod_bound(an, ad);
    assert(n == 0 ==> r == 0) by {
        if n == 0 {
            lemma_fundamental_div_mod_converse(0, ad, 0, 0);
        }
    }
    lemma_rounded_quotient_by_magnitudes(n, d, RoundingMode::Floor);
    lemma_rounded_quotient_by_magnitudes(n, d, RoundingMode::Ceil);
    lemma_rounded_quotient_by_magnitudes(n, d, RoundingMode::TowardZero);
    lemma_rounded_quotient_by_magnitudes(n, d, RoundingMode::Nearest);
    let floor_up: int = if quotient_nonnegative(n, d) || r == 0 { 0 } else { 1 };
    let ceil_up: int = if quotient_nonnegative(n, d) && r != 0 { 1 } else { 0 };
    let nearest_up: int = if 2 * r >= ad { 1 } else { 0 };
    lemma_error_by_magnitudes(n, d, floor_up);
    lemma_error_by_magnitudes(n, d, ceil_up);
    lemma_error_by_magnitudes(n, d, 0);
    lemma_error_by_magnitudes(n, d, nearest_up);
}

/// Rounding toward zero and rounding to nearest (half-way cases away from
/// zero) are symmetric about zero: the quotient of `-n` is minus that of `n`.
pub proof fn lemma_symmetric_rounding_is_odd(n: int, d: int, mode: RoundingMode)
    requires
        d != 0,
        mode == RoundingMode::TowardZero || mode == RoundingMode::Nearest,
    ensures
        rounded_quotient(-n, d, mode) == -rounded_quotient(n, d, mode),
{
    if n == 0 {
        if d > 0 {
            lemma_fundamental_div_mod_converse(0, d, 0, 0);
            lemma_fundamental_div_mod_converse(d, 2 * d, 0, d);
            lemma_fundamental_div_mod_converse(-d, 2 * d, -1, d);
        } else {
            lemma_fundamental_div_mod_converse(0, -d, 0, 0);
            lemma_fundamental_div_mod_converse(-d, -2 * d, 0, -d);
            lemma_fundamental_div_mod_converse(d, -2 * d, -1, -d);
        }
        assert(-n == 0);
    } else {
        assert(-(-n) == n);
        assert(-(2 * (-n) + d) == 2 * n - d);
        assert(-(2 * (-n) - d) == 2 * n + d);
        assert(-(2 * n - d) == 2 * (-n) + d);
        assert(-(2 * n + d) == 2 * (-n) - d);
    }
}

/// Every rounding mode leaves an exact quotient unchanged:
/// `(k·d) / d` rounds to `k`.
pub proof fn lemma_exact_quotient(k: int, d: int, mode: RoundingMode)
    requires
        d != 0,
    ensures
        rounded_quotient(k * d, d, mode) == k,
{
    let n = k * d;
    let ak = magnitude(k);
    let ad = magnitude(d);
    assert(magnitude(n) == ak * ad) by (nonlinear_arith)
        requires
            n == k * d,
            ak == magnitude(k),
            ad == magnitude(d),
    ;
    lemma_fundamental_div_mod_converse(ak * ad, ad, ak, 0);
    assert(ak * ad == ad * ak) by (nonlinear_arith);
    lemma_rounded_quotient_by_magnitudes(n, d, mode);
    if k != 0 {
        assert(quotient_nonnegative(n, d) == (k > 0)) by (nonlinear_arith)
            requires
                n == k * d,
                k != 0,
                d != 0,
        ;
    }
}

/// Divides `numerator` by `denominator` as `mode` prescribes.
///
/// The magnitude of the result never exceeds that of the numerator.
pub(crate) fn round_quotient(numerator: i128, denominator: i128, mode: RoundingMode) -> (q: i128)
    requires
        denominator != 0,
        numerator > i128::MIN,
        denominator > i128::MIN,
    ensures
        q == rounded_quotient(numerator as int, denominator as int, mode),
        magnitude(q as int) <= magnitude(numerator as int),
{
    let an: u128 = if numerator < 0 {
        (-numerator) as u128
    } else {
        numerator as u128
    };
    let ad: u128 = if denominator < 0 {
        (-denominator) as u128
    } else {
        denominator as u128
    };
    let q = an / ad;
    let r = an % ad;
    let nonnegative = numerator == 0 || (numerator > 0) == (denominator > 0);
    proof {
        lemma_fundamental_div_mod(an as int, ad as int);
        lemma_mod_bound(an as int, ad as int);
        assert(ad * q >= q) by (nonlinear_arith)
            requires
                ad >= 1,
                q >= 0,
        ;
        assert(an as int == magnitude(numerator as int));
        assert(ad as int == magnitude(denominator as int));
        lemma_rounded_quotient_by_magnitudes(numerator as int, denominator as int, mode);
    }
    let round_up = match mode {
        RoundingMode::TowardZero => false,
        RoundingMode::Floor => !nonnegative && r != 0,
        RoundingMode::Ceil => nonnegative && r != 0,
        RoundingMode::Nearest => r >= ad - r,
    };
    let rounded: u128 = if round_up {
        q + 1
    } else {
        q
    };
    assert(rounded <= an);
    if nonnegative {
        rounded as i128
    } else {
        -(rounded as i128)
    }
}

impl RoundingMode {
    /// Divide `numerator` by `denominator` using this rounding mode.
    ///
    /// Returns `None` when the denominator is zero or the result
    /// cannot be represented by an `i64`.
    pub fn divide(self, numerator: i64, denominator: i64) -> (r: Option<i64>)
        ensures
            r == if denominator == 0 {
                None
            } else if fits_i64(rounded_quotient(numerator as int, denominator as int, self)) {
                Some(rounded_quotient(numerator as int, denominator as int, self) as i64)
            } else {
                None
            },
    {
        if denominator == 0 {
            return None;
        }
        let q = round_quotient(numerator as i128, denominator as i128, self);
        if i64::MIN as i128 <= q && q <= i64::MAX as i128 {
            Some(q as i64)
        } else {
            None
        }
    }
}

} // verus!
