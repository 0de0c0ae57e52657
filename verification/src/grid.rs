//! Sweep-axis construction. An axis is an evenly spaced ascending sequence
//! built by integer step-counting (`round(max/step)` steps), so repeated runs
//! never drift. The bias axis is symmetric around zero; the uncertainty and
//! imprecision axes start at zero. All values are percentages in `SCALE`
//! units.

use vstd::prelude::*;
use vstd::arithmetic::div_mod::{lemma_div_pos_is_pos, lemma_fundamental_div_mod,
    lemma_mod_division_less_than_divisor};

verus! {

/// Largest percentage accepted for a sweep maximum or step, in `SCALE` units.
pub const AXIS_MAX: u64 = 1_000_000_000;

/// Number of steps of size `step` needed to reach `max`, rounded half up.
pub open spec fn spec_num_steps(max: int, step: int) -> int {
    (2 * max + step) / (2 * step)
}

/// Computes `round(max / step)` by integer arithmetic.
pub fn num_steps(max: u64, step: u64) -> (r: u64)
    requires
        1 <= step <= AXIS_MAX,
        max <= AXIS_MAX,
    ensures
        r == spec_num_steps(max as int, step as int),
        r * step <= max + step,
        r <= 2 * AXIS_MAX,
{
    let r = (2 * max + step) / (2 * step);
    proof {
        let x = 2 * (max as int) + step;
        let d = 2 * (step as int);
        lemma_fundamental_div_mod(x, d);
        lemma_mod_division_less_than_divisor(x, d);
        lemma_div_pos_is_pos(x, d);
        assert(d * (x / d) <= x);
        assert((r as int) * step * 2 == d * (x / d)) by (nonlinear_arith)
            requires r == x / d && d == 2 * (step as int);
        assert((r as int) * step <= max + step) by (nonlinear_arith)
            requires (r as int) * step * 2 <= 2 * (max as int) + step && step >= 1;
        assert(r <= 2 * AXIS_MAX) by (nonlinear_arith)
            requires
                (r as int) * step <= max + step && step >= 1 && max <= AXIS_MAX
                && step <= AXIS_MAX && r >= 0;
    }
    r
}

/// Builds the ascending axis `0, step, 2*step, ..., n*step` where `n` is the
/// rounded step count for `max`.
pub fn build_pos_axis(max: u64, step: u64) -> (r: Vec<u64>)
    requires
        1 <= step <= AXIS_MAX,
        max <= AXIS_MAX,
    ensures
        r@.len() == spec_num_steps(max as int, step as int) + 1,
        forall|i: int| 0 <= i < r@.len() ==> r@[i] == i * step,
        forall|i: int| 0 <= i < r@.len() ==> #[trigger] r@[i] <= 2_000_000_000,
{
    let n = num_steps(max, step);
    let mut r: Vec<u64> = Vec::new();
    let mut i: u64 = 0;
    while i <= n
        invariant
            0 <= i <= n + 1,
            n * step <= max + step,
            n <= 2 * AXIS_MAX,
            1 <= step <= AXIS_MAX,
            max <= AXIS_MAX,
            r@.len() == i,
            forall|j: int| 0 <= j < i ==> r@[j] == j * step,
            forall|j: int| 0 <= j < i ==> #[trigger] r@[j] <= 2_000_000_000,
        decreases n + 1 - i,
    {
        proof {
            assert((i as int) * step <= (n as int) * step) by (nonlinear_arith)
                requires 0 <= i <= n && step >= 1;
        }
        r.push(i * step);
        i = i + 1;
    }
    r
}

/// Builds the symmetric bias axis `-n*step, ..., -step, 0, step, ..., n*step`
/// where `n` is the rounded step count for `max`.
pub fn build_bias_axis(max: u64, step: u64) -> (r: Vec<i64>)
    requires
        1 <= step <= AXIS_MAX,
        max <= AXIS_MAX,
    ensures
        r@.len() == 2 * spec_num_steps(max as int, step as int) + 1,
        forall|i: int| 0 <= i < r@.len() ==>
            r@[i] == (i - spec_num_steps(max as int, step as int)) * step,
        forall|i: int| 0 <= i < r@.len() ==> -2_000_000_000 <= #[trigger] r@[i] <= 2_000_000_000,
{
    let n = num_steps(max, step);
    let mut r: Vec<i64> = Vec::new();
    let mut i: u64 = 0;
    while i <= 2 * n
        invariant
            0 <= i <= 2 * n + 1,
            n * step <= max + step,
            n <= 2 * AXIS_MAX,
            1 <= step <= AXIS_MAX,
            max <= AXIS_MAX,
            r@.len() == i,
            forall|j: int| 0 <= j < i ==> r@[j] == (j - n) * step,
            forall|j: int| 0 <= j < i ==> -2_000_000_000 <= #[trigger] r@[j] <= 2_000_000_000,
        decreases 2 * n + 1 - i,
    {
        proof {
            assert(-((n as int) * step) <= ((i as int) - n) * step
                && ((i as int) - n) * step <= (n as int) * step) by (nonlinear_arith)
                requires 0 <= i <= 2 * (n as int) && step >= 1;
        }
        let v: i64 = (i as i64 - n as i64) * (step as i64);
        r.push(v);
        i = i + 1;
    }
    r
}

/// Law: a bias axis is symmetric around zero — it has odd length, its middle
/// entry is exactly zero and nothing else is zero, and the entry mirrored
/// around the middle is the negation.
pub proof fn lemma_bias_axis_symmetric(b: Seq<i64>, n: int, step: int)
    requires
        step >= 1,
        n >= 0,
        b.len() == 2 * n + 1,
        forall|i: int| 0 <= i < b.len() ==> b[i] == (i - n) * step,
    ensures
        b.len() % 2 == 1,
        b[n] == 0,
        forall|i: int| 0 <= i < b.len() ==> b[b.len() - 1 - i] == -(#[trigger] b[i]),
        forall|i: int| 0 <= i < b.len() && i != n ==> #[trigger] b[i] != 0,
{
    assert((n - n) * step == 0) by (nonlinear_arith);
    assert forall|i: int| 0 <= i < b.len() implies b[b.len() - 1 - i] == -(#[trigger] b[i]) by {
        assert((2 * n - i - n) * step == -((i - n) * step)) by (nonlinear_arith);
    }
    assert forall|i: int| 0 <= i < b.len() && i != n implies b[i] != 0 by {
        assert((i - n) * step != 0) by (nonlinear_arith)
            requires i != n && step >= 1;
    }
}

} // verus!
