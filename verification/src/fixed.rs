//! Fixed-point arithmetic for the simulation. Real quantities are integers
//! in units of `1 / SCALE` (six decimal places). Percentages (sweep values,
//! coefficients of variation, thresholds) are carried in the same units.
//!
//! Rounding is half-away-from-zero, matching the reporting rule that a
//! perturbed result is rounded to a fixed number of decimal places before it
//! is categorised.

use vstd::prelude::*;
use vstd::arithmetic::div_mod::{
    lemma_div_is_ordered, lemma_div_multiples_vanish_fancy, lemma_div_pos_is_pos,
    lemma_fundamental_div_mod, lemma_fundamental_div_mod_converse, lemma_mod_division_less_than_divisor,
};

verus! {

/// One unit of measurement value is `1 / SCALE`: six decimal places.
pub const SCALE: i64 = 1_000_000;

/// Largest magnitude accepted for a measurement value or decision limit,
/// in `SCALE` units (a real magnitude of one million).
pub const VAL_MAX: i64 = 1_000_000_000_000;

/// Largest magnitude accepted for a standard-normal noise draw, in `SCALE`
/// units (a thousand standard deviations).
pub const NOISE_MAX: i64 = 1_000_000_000;

/// Largest percentage magnitude accepted for a sweep coordinate or a
/// coefficient of variation handed to the perturbation, in `SCALE` units.
pub const PCT_MAX: i64 = 10_000_000_000;

/// Ten to the `n`th power.
pub open spec fn pow10(n: nat) -> int
    decreases n,
{
    if n == 0 {
        1
    } else {
        10 * pow10((n - 1) as nat)
    }
}

pub proof fn lemma_pow10_pos(n: nat)
    ensures
        pow10(n) >= 1,
    decreases n,
{
    if n > 0 {
        lemma_pow10_pos((n - 1) as nat);
    }
}

pub proof fn lemma_pow10_adds(a: nat, b: nat)
    ensures
        pow10(a + b) == pow10(a) * pow10(b),
    decreases a,
{
    if a == 0 {
    } else {
        lemma_pow10_adds((a - 1) as nat, b);
        assert(pow10(a + b) == 10 * pow10((a + b - 1) as nat));
        assert(10 * (pow10((a - 1) as nat) * pow10(b)) == (10 * pow10((a - 1) as nat)) * pow10(b))
            by (nonlinear_arith);
    }
}

/// Ten to the `n`th power, executable.
pub fn pow10_u128(n: u32) -> (r: u128)
    requires
        n <= 20,
    ensures
        r == pow10(n as nat),
        1 <= r <= 100_000_000_000_000_000_000,
{
    let mut r: u128 = 1;
    let mut i: u32 = 0;
    proof {
        assert(pow10(20) == 100_000_000_000_000_000_000) by {
            reveal_with_fuel(pow10, 21);
        }
    }
    while i < n
        invariant
            0 <= i <= n <= 20,
            r == pow10(i as nat),
            pow10(20) == 100_000_000_000_000_000_000,
        decreases n - i,
    {
        proof {
            lemma_pow10_pos(i as nat);
            lemma_pow10_adds(i as nat, (20 - i) as nat);
            lemma_pow10_pos((20 - i - 1) as nat);
            assert(pow10((20 - i) as nat) == 10 * pow10((20 - i - 1) as nat));
            assert(pow10(i as nat) * 10 <= pow10(i as nat) * pow10((20 - i) as nat)) by (nonlinear_arith)
                requires pow10(i as nat) >= 1 && pow10((20 - i) as nat) >= 10;
        }
        r = r * 10;
        i = i + 1;
    }
    proof {
        lemma_pow10_pos(n as nat);
        lemma_pow10_adds(n as nat, (20 - n) as nat);
        lemma_pow10_pos((20 - n) as nat);
        assert(pow10(n as nat) * 1 <= pow10(n as nat) * pow10((20 - n) as nat)) by (nonlinear_arith)
            requires pow10(n as nat) >= 1 && pow10((20 - n) as nat) >= 1;
    }
    r
}

/// Quotient of `t` by `q`, rounded half away from zero (`q > 0`).
pub open spec fn rhd(t: int, q: int) -> int {
    if t >= 0 {
        (t + q / 2) / q
    } else {
        -((-t + q / 2) / q)
    }
}

/// `rhd` is exact on multiples of the divisor: a value already at the target
/// precision is left unchanged by rounding.
pub proof fn lemma_rhd_multiple(k: int, q: int)
    requires
        q >= 1,
    ensures
        rhd(k * q, q) == k,
{
    assert(0 <= q / 2 < q) by {
        lemma_div_pos_is_pos(q, 2);
        lemma_mod_division_less_than_divisor(q, 2);
        lemma_fundamental_div_mod(q, 2);
    }
    if k * q >= 0 {
        if k >= 0 {
            assert((q * k + q / 2) / q == k) by {
                lemma_div_multiples_vanish_fancy(k, q / 2, q);
            }
            assert(k * q == q * k) by (nonlinear_arith);
        } else {
            assert(k * q <= -q) by (nonlinear_arith)
                requires k <= -1 && q >= 1;
            assert(false);
        }
    } else {
        assert(k < 0) by {
            assert(k >= 0 ==> k * q >= 0) by (nonlinear_arith)
                requires q >= 1;
        }
        assert(-(k * q) == q * (-k)) by (nonlinear_arith);
        assert((q * (-k) + q / 2) / q == -k) by {
            lemma_div_multiples_vanish_fancy(-k, q / 2, q);
        }
    }
}

/// The rounded quotient, scaled back up, stays within one divisor of the
/// original value.
pub proof fn lemma_rhd_bound(t: int, q: int)
    requires
        q >= 1,
        t >= 0,
    ensures
        0 <= rhd(t, q),
        rhd(t, q) * q <= t + q,
{
    let s = t + q / 2;
    assert(0 <= q / 2 < q) by {
        lemma_div_pos_is_pos(q, 2);
        lemma_mod_division_less_than_divisor(q, 2);
        lemma_fundamental_div_mod(q, 2);
    }
    lemma_div_pos_is_pos(s, q);
    lemma_fundamental_div_mod(s, q);
    lemma_mod_division_less_than_divisor(s, q);
    assert(q * (s / q) == s - s % q);
    assert(rhd(t, q) * q == q * (s / q)) by (nonlinear_arith)
        requires rhd(t, q) == s / q;
    assert(rhd(t, q) * q <= s);
}

/// Rounding half away from zero is unchanged when numerator and divisor are
/// both scaled by an even factor.
pub proof fn lemma_rhd_scale(t: int, q: int, m: int)
    requires
        q >= 1,
        m >= 2,
        m % 2 == 0,
    ensures
        rhd(t * m, q * m) == rhd(t, q),
    decreases (if t >= 0 { 0int } else { 1int }),
{
    if t >= 0 {
        let k = (t + q / 2) / q;
        lemma_fundamental_div_mod(t + q / 2, q);
        let rr = (t + q / 2) % q;
        lemma_mod_division_less_than_divisor(t + q / 2, q);
        assert(0 <= q / 2 < q) by {
            lemma_div_pos_is_pos(q, 2);
            lemma_mod_division_less_than_divisor(q, 2);
            lemma_fundamental_div_mod(q, 2);
        }
        assert(k >= 0) by {
            lemma_div_pos_is_pos(t + q / 2, q);
        }
        // (q * m) / 2 == (q / 2) * m + (q % 2) * (m / 2)
        lemma_fundamental_div_mod(q, 2);
        lemma_mod_division_less_than_divisor(q, 2);
        lemma_fundamental_div_mod(m, 2);
        let half_qm = (q / 2) * m + (q % 2) * (m / 2);
        assert((q * m) / 2 == half_qm) by {
            assert(q * m == half_qm * 2) by (nonlinear_arith)
                requires
                    q == 2 * (q / 2) + q % 2,
                    m == 2 * (m / 2),
                    half_qm == (q / 2) * m + (q % 2) * (m / 2);
            lemma_fundamental_div_mod_converse(q * m, 2, half_qm, 0);
        }
        // t*m + half_qm == k*(q*m) + (rr*m + (q%2)*(m/2))
        let rem2 = rr * m + (q % 2) * (m / 2);
        assert(t * m + half_qm == k * (q * m) + rem2) by (nonlinear_arith)
            requires
                t + q / 2 == q * k + rr,
                half_qm == (q / 2) * m + (q % 2) * (m / 2),
                rem2 == rr * m + (q % 2) * (m / 2);
        assert(0 <= rem2 < q * m) by (nonlinear_arith)
            requires
                0 <= rr <= q - 1,
                m >= 2,
                0 <= q % 2 < 2,
                m == 2 * (m / 2),
                q >= 1,
                rem2 == rr * m + (q % 2) * (m / 2);
        assert(t * m >= 0) by (nonlinear_arith)
            requires t >= 0 && m >= 2;
        assert(q * m >= 2) by (nonlinear_arith)
            requires q >= 1 && m >= 2;
        assert((t * m + (q * m) / 2) / (q * m) == k) by {
            lemma_fundamental_div_mod_converse(t * m + half_qm, q * m, k, rem2);
        }
        assert(rhd(t * m, q * m) == k);
    } else {
        lemma_rhd_scale(-t, q, m);
        assert(-(t * m) == (-t) * m) by (nonlinear_arith);
        assert(-t * m >= 0) by (nonlinear_arith)
            requires t <= 0 && m >= 2;
        assert(t * m < 0) by (nonlinear_arith)
            requires t < 0 && m >= 2;
    }
}

/// Quotient of `t` by `q`, rounded half away from zero, executable.
pub fn rhd_i128(t: i128, q: i128) -> (r: i128)
    requires
        1 <= q <= 100_000_000_000_000_000_000,
        -100_000_000_000_000_000_000_000_000_000_000 <= t
            <= 100_000_000_000_000_000_000_000_000_000_000,
    ensures
        r == rhd(t as int, q as int),
{
    proof {
        assert(0 <= q / 2 < q) by {
            lemma_div_pos_is_pos(q as int, 2);
            lemma_mod_division_less_than_divisor(q as int, 2);
            lemma_fundamental_div_mod(q as int, 2);
        }
    }
    if t >= 0 {
        let m = ((t as u128) + (q as u128) / 2) / (q as u128);
        proof {
            vstd::arithmetic::div_mod::lemma_div_basics_5(t + q / 2, q as int);
            lemma_div_pos_is_pos(t + q / 2, q as int);
        }
        m as i128
    } else {
        let neg = -t;
        let m = ((neg as u128) + (q as u128) / 2) / (q as u128);
        proof {
            vstd::arithmetic::div_mod::lemma_div_basics_5(neg + q / 2, q as int);
            lemma_div_pos_is_pos(neg + q / 2, q as int);
        }
        -(m as i128)
    }
}

/// `v` rounded to `d` decimal places, in `SCALE` units.
pub open spec fn spec_round_to(v: int, d: nat) -> int {
    rhd(v, pow10((6 - d) as nat)) * pow10((6 - d) as nat)
}

/// Rounds a fixed-point value to `d` decimal places, half away from zero.
pub fn round_to(v: i64, d: u32) -> (r: i64)
    requires
        d <= 6,
        -9_200_000_000_000_000_000 <= v <= 9_200_000_000_000_000_000,
    ensures
        r == spec_round_to(v as int, d as nat),
{
    let q = pow10_u128((6 - d) as u32) as i128;
    proof {
        lemma_pow10_pos((6 - d) as nat);
        assert(pow10(6) == 1_000_000) by {
            reveal_with_fuel(pow10, 7);
        }
        assert(pow10((6 - d) as nat) <= pow10(6)) by {
            lemma_pow10_adds((6 - d) as nat, d as nat);
            lemma_pow10_pos((6 - d) as nat);
            lemma_pow10_pos(d as nat);
            assert(pow10((6 - d) as nat) * 1 <= pow10((6 - d) as nat) * pow10(d as nat))
                by (nonlinear_arith)
                requires pow10((6 - d) as nat) >= 1 && pow10(d as nat) >= 1;
        }
    }
    let w = rhd_i128(v as i128, q);
    proof {
        if v >= 0 {
            lemma_rhd_bound(v as int, q as int);
            assert(0 <= w && w * q <= v + q);
        } else {
            lemma_rhd_bound(-(v as int), q as int);
            assert(0 <= -w && (-w) * q <= -(v as int) + q) by {
                assert(w == -rhd(-(v as int), q as int));
            }
        }
        assert(-0x7fff_ffff_ffff_ffff <= w * q <= 0x7fff_ffff_ffff_ffff) by (nonlinear_arith)
            requires
                1 <= q <= 1_000_000,
                -9_200_000_000_000_000_000 <= v <= 9_200_000_000_000_000_000,
                (0 <= w && w * q <= v + q) || (0 <= -w && (-w) * q <= -(v as int) + q);
    }
    let r = w * q;
    r as i64
}

/// Law: rounding a value that already sits at the target precision leaves it
/// unchanged.
pub proof fn lemma_round_idempotent(v: int, d: nat)
    requires
        d <= 6,
        v % pow10((6 - d) as nat) == 0,
    ensures
        spec_round_to(v, d) == v,
{
    let q = pow10((6 - d) as nat);
    lemma_pow10_pos((6 - d) as nat);
    lemma_fundamental_div_mod(v, q);
    let k = v / q;
    assert(v == q * k);
    assert(k * q == q * k) by (nonlinear_arith);
    lemma_rhd_multiple(k, q);
}

/// `r` is the integer square root of `x`.
pub open spec fn is_sqrt(x: int, r: int) -> bool {
    0 <= r && r * r <= x < (r + 1) * (r + 1)
}

/// The integer square root of `x` (the witness of `is_sqrt`).
pub open spec fn spec_isqrt(x: int) -> int {
    choose|r: int| is_sqrt(x, r)
}

pub proof fn lemma_sqrt_unique(x: int, a: int, b: int)
    requires
        is_sqrt(x, a),
        is_sqrt(x, b),
    ensures
        a == b,
{
    assert(a < b ==> (a + 1) * (a + 1) <= b * b) by (nonlinear_arith)
        requires 0 <= a && 0 <= b;
    assert(b < a ==> (b + 1) * (b + 1) <= a * a) by (nonlinear_arith)
        requires 0 <= a && 0 <= b;
}

/// Integer square root by bisection.
pub fn isqrt_u64(x: u64) -> (r: u64)
    ensures
        is_sqrt(x as int, r as int),
        r == spec_isqrt(x as int),
{
    let mut lo: u64 = 0;
    let mut hi: u64 = 4_294_967_296;
    proof {
        assert((4_294_967_296int) * 4_294_967_296 > u64::MAX);
    }
    while lo + 1 < hi
        invariant
            0 <= lo < hi <= 4_294_967_296,
            (lo as int) * (lo as int) <= x as int,
            (x as int) < (hi as int) * (hi as int),
        decreases hi - lo,
    {
        let mid = lo + (hi - lo) / 2;
        proof {
            assert((mid as int) * (mid as int) <= 0x1_0000_0000_0000_0000_0000) by (nonlinear_arith)
                requires 0 <= mid <= 4_294_967_296;
        }
        if (mid as u128) * (mid as u128) <= x as u128 {
            lo = mid;
        } else {
            hi = mid;
        }
    }
    proof {
        assert(is_sqrt(x as int, lo as int));
        lemma_sqrt_unique(x as int, lo as int, spec_isqrt(x as int));
    }
    lo
}

/// The noise scale for a grid point: the sweep value itself for the
/// analytical models, the root-sum-of-squares of the sweep value and the
/// inherent coefficient of variation for the resampling models. Percentages
/// in `SCALE` units; the square root is the integer square root.
pub open spec fn spec_scale(resampling: bool, e: int, cvi: int) -> int {
    if resampling {
        spec_isqrt(e * e + cvi * cvi)
    } else {
        e
    }
}

/// Computes the noise scale for one grid point (see `spec_scale`).
pub fn noise_scale(resampling: bool, e: u64, cvi: u64) -> (r: u64)
    requires
        e <= 2_000_000_000,
        cvi <= 1_000_000_000,
    ensures
        r == spec_scale(resampling, e as int, cvi as int),
        r <= 3_000_000_000,
{
    if resampling {
        proof {
            assert((e as int) * (e as int) + (cvi as int) * (cvi as int)
                <= 5_000_000_000_000_000_000) by (nonlinear_arith)
                requires e <= 2_000_000_000 && cvi <= 1_000_000_000;
        }
        let s = isqrt_u64(e * e + cvi * cvi);
        proof {
            let x = (e as int) * (e as int) + (cvi as int) * (cvi as int);
            assert(s as int <= 3_000_000_000) by (nonlinear_arith)
                requires
                    is_sqrt(x, s as int),
                    x <= 5_000_000_000_000_000_000;
        }
        s
    } else {
        e
    }
}

/// The perturbed-and-rounded value for one data point, in `SCALE` units.
/// `v` is the original value, `n` the standard-normal draw, `c` the noise
/// scale (a percentage), `b` the bias (a percentage), `d` the number of
/// reported decimal places. The exact real perturbation is
/// `x * (1 + (n/SCALE) * (c / (100*SCALE)) + b / (100*SCALE))`, which over a
/// common denominator is `v * (100*SCALE^2 + n*c + SCALE*b) / (100*SCALE^3)`;
/// rounding that to `d` decimals is one half-away division.
pub open spec fn spec_perturb(v: int, n: int, c: int, b: int, d: nat) -> int {
    rhd(v * (100 * (SCALE as int) * (SCALE as int) + n * c + (SCALE as int) * b),
        pow10((20 - d) as nat)) * pow10((6 - d) as nat)
}

/// Perturbs one value with scaled noise and bias and rounds the result to
/// `d` decimal places.
pub fn perturb(v: i64, n: i64, c: u64, b: i64, d: u32) -> (r: i64)
    requires
        d <= 6,
        -VAL_MAX <= v <= VAL_MAX,
        -NOISE_MAX <= n <= NOISE_MAX,
        c <= 3 * PCT_MAX,
        -2 * PCT_MAX <= b <= 2 * PCT_MAX,
    ensures
        r == spec_perturb(v as int, n as int, c as int, b as int, d as nat),
        -0x7fff_ffff_ffff_0000 <= r <= 0x7fff_ffff_ffff_0000,
{
    proof {
        assert(-30_000_000_000_000_000_000 <= (n as int) * (c as int) <= 30_000_000_000_000_000_000)
            by (nonlinear_arith)
            requires -1_000_000_000 <= n <= 1_000_000_000 && 0 <= c <= 30_000_000_000;
    }
    let s128 = SCALE as i128;
    let factor: i128 = 100 * s128 * s128 + (n as i128) * (c as i128) + s128 * (b as i128);
    proof {
        assert(-31_000_000_000_000_000_000 <= factor <= 31_000_000_000_000_000_000);
        assert(-40_000_000_000_000_000_000_000_000_000_000 <= (v as int) * (factor as int)
            <= 40_000_000_000_000_000_000_000_000_000_000) by (nonlinear_arith)
            requires
                -1_000_000_000_000 <= v <= 1_000_000_000_000,
                -31_000_000_000_000_000_000 <= factor <= 31_000_000_000_000_000_000;
    }
    let t: i128 = (v as i128) * factor;
    let q = pow10_u128((20 - d) as u32) as i128;
    proof {
        lemma_pow10_pos((20 - d) as nat);
        assert(pow10(20) == 100_000_000_000_000_000_000) by {
            reveal_with_fuel(pow10, 21);
        }
        assert(pow10((20 - d) as nat) <= pow10(20) && pow10(14) <= pow10((20 - d) as nat)) by {
            lemma_pow10_adds((20 - d) as nat, d as nat);
            lemma_pow10_adds(14, (6 - d) as nat);
            lemma_pow10_pos(d as nat);
            lemma_pow10_pos((6 - d) as nat);
            lemma_pow10_pos((20 - d) as nat);
            lemma_pow10_pos(14);
            assert(pow10((20 - d) as nat) * 1 <= pow10((20 - d) as nat) * pow10(d as nat)
                && pow10(14) * 1 <= pow10(14) * pow10((6 - d) as nat))
                by (nonlinear_arith)
                requires
                    pow10((20 - d) as nat) >= 1 && pow10(d as nat) >= 1 && pow10(14) >= 1
                    && pow10((6 - d) as nat) >= 1;
        }
        assert(pow10(14) == 100_000_000_000_000) by {
            reveal_with_fuel(pow10, 15);
        }
    }
    let w = rhd_i128(t, q);
    let m = pow10_u128((6 - d) as u32) as i128;
    proof {
        lemma_pow10_pos((6 - d) as nat);
        assert(pow10(6) == 1_000_000) by {
            reveal_with_fuel(pow10, 7);
        }
        assert(pow10((6 - d) as nat) <= pow10(6)) by {
            lemma_pow10_adds((6 - d) as nat, d as nat);
            lemma_pow10_pos(d as nat);
            lemma_pow10_pos((6 - d) as nat);
            assert(pow10((6 - d) as nat) * 1 <= pow10((6 - d) as nat) * pow10(d as nat))
                by (nonlinear_arith)
                requires pow10((6 - d) as nat) >= 1 && pow10(d as nat) >= 1;
        }
        // |w| * q <= |t| + q, and q == m * 10^14, so
        // |w * m| * 10^14 <= |t| + q; with |t| <= 4 * 10^31 and
        // q <= 10^20 this keeps w * m comfortably inside i64.
        assert(q as int == m * 100_000_000_000_000) by {
            lemma_pow10_adds((6 - d) as nat, 14);
            assert(((6 - d) + 14) as nat == (20 - d) as nat);
            assert(pow10(14) == 100_000_000_000_000) by {
                reveal_with_fuel(pow10, 15);
            }
        }
        if t >= 0 {
            lemma_rhd_bound(t as int, q as int);
            assert(0 <= w && w * q <= t + q);
            assert(w * m <= 0x7fff_ffff_ffff_0000 && 0 <= w * m) by (nonlinear_arith)
                requires
                    0 <= w,
                    w * q <= t + q,
                    t <= 40_000_000_000_000_000_000_000_000_000_000,
                    100_000_000_000_000 <= q <= 100_000_000_000_000_000_000,
                    1 <= m <= 1_000_000,
                    q == m * 100_000_000_000_000;
        } else {
            lemma_rhd_bound(-(t as int), q as int);
            assert(0 <= -w && (-w) * q <= -t + q) by {
                assert(w == -rhd(-(t as int), q as int));
            }
            assert(-0x7fff_ffff_ffff_0000 <= w * m && w * m <= 0) by (nonlinear_arith)
                requires
                    0 <= -w,
                    (-w) * q <= -t + q,
                    -t <= 40_000_000_000_000_000_000_000_000_000_000,
                    100_000_000_000_000 <= q <= 100_000_000_000_000_000_000,
                    1 <= m <= 1_000_000,
                    q == m * 100_000_000_000_000;
        }
    }
    let r = w * m;
    r as i64
}

} // verus!
