//! Laws of the grid evaluator that span several components: what a grid
//! point looks like when nothing perturbs the data, and how a category with
//! no true instances is scored.

use vstd::prelude::*;
use crate::categorize::lemma_categorize_total;
use crate::engine::{spec_eval_point, spec_pred, sum_aggtn, sum_diag, sum_tp, sum_tn_cat,
    wf_ctx, CtxSpec, REPS};
use crate::fixed::{is_sqrt, lemma_pow10_adds, lemma_pow10_pos, lemma_rhd_scale,
    lemma_round_idempotent, lemma_sqrt_unique, pow10, rhd, spec_isqrt, spec_perturb,
    spec_round_to, spec_scale, SCALE};
use crate::metrics::{cnt_diag, cnt_eq, lemma_diagonal, lemma_rows_partition,
    spec_make_ratio, spec_sum_rows, spec_sum_tn, spec_tn, SpecRatio};

verus! {

/// Law: with zero noise scale and zero bias, a perturbed value equals the
/// original value after rounding to the reporting precision — whatever the
/// noise draw was.
pub proof fn lemma_perturb_zero_rounds(v: int, n: int, d: nat)
    requires
        d <= 6,
    ensures
        spec_perturb(v, n, 0, 0, d) == spec_round_to(v, d),
{
    let q = pow10((6 - d) as nat);
    let m = pow10(14);
    lemma_pow10_pos((6 - d) as nat);
    assert(m == 100_000_000_000_000) by {
        reveal_with_fuel(pow10, 15);
    }
    assert(v * (100 * (SCALE as int) * (SCALE as int) + n * 0 + (SCALE as int) * 0) == v * m)
        by (nonlinear_arith)
        requires m == 100_000_000_000_000;
    assert(pow10((20 - d) as nat) == q * m) by {
        lemma_pow10_adds((6 - d) as nat, 14);
    }
    lemma_rhd_scale(v, q, m);
    assert(spec_perturb(v, n, 0, 0, d) == rhd(v * m, q * m) * q);
}

/// With zero noise scale and zero bias, perturbing a value that already sits
/// at the reporting precision gives the value back unchanged.
pub proof fn lemma_perturb_zero(v: int, n: int, d: nat)
    requires
        d <= 6,
        v % pow10((6 - d) as nat) == 0,
    ensures
        spec_perturb(v, n, 0, 0, d) == v,
{
    lemma_perturb_zero_rounds(v, n, d);
    lemma_round_idempotent(v, d);
}

/// A context whose every prepared value sits at the reporting precision.
pub open spec fn data_at_precision(c: CtxSpec) -> bool {
    forall|k: int| 0 <= k < c.data.len() ==>
        (#[trigger] c.data[k]) as int % pow10((6 - c.dec) as nat) == 0
}

proof fn lemma_pred_zero(c: CtxSpec, s: int)
    requires
        wf_ctx(c),
        data_at_precision(c),
        0 <= s < REPS,
    ensures
        spec_pred(c, 0, 0, s) == c.tcats,
{
    assert forall|k: int| 0 <= k < c.data.len() implies
        spec_pred(c, 0, 0, s)[k] == c.tcats[k] by {
        lemma_perturb_zero(c.data[k] as int, c.noise[s][k] as int, c.dec as nat);
        lemma_categorize_total(c.data[k], c.cdls);
    }
    assert(spec_pred(c, 0, 0, s) =~= c.tcats);
}

proof fn lemma_sum_tn_diagonal(t: Seq<usize>, n: int)
    requires
        n >= 0,
    ensures
        spec_sum_tn(t, t, n) == n * t.len() - spec_sum_rows(t, n),
    decreases n,
{
    if n > 0 {
        lemma_sum_tn_diagonal(t, n - 1);
        lemma_diagonal(t, n - 1);
        assert(spec_tn(t, t, n - 1) == t.len() - cnt_eq(t, n - 1));
        assert(n * t.len() == (n - 1) * t.len() + t.len()) by (nonlinear_arith);
    } else {
        assert(n * t.len() == 0) by (nonlinear_arith)
            requires n == 0;
    }
}

proof fn lemma_sums_at_zero(c: CtxSpec, s: int)
    requires
        wf_ctx(c),
        data_at_precision(c),
        0 <= s <= REPS,
    ensures
        sum_diag(c, 0, 0, s) == s * c.data.len(),
        sum_aggtn(c, 0, 0, s) == s * ((c.ncats - 1) * c.data.len()),
    decreases s,
{
    let t = c.tcats;
    if s == 0 {
        assert(0 * c.data.len() == 0) by (nonlinear_arith);
        assert(0 * ((c.ncats - 1) * c.data.len()) == 0) by (nonlinear_arith);
    } else {
        lemma_sums_at_zero(c, s - 1);
        lemma_pred_zero(c, s - 1);
        lemma_diagonal(t, 0);
        assert(cnt_diag(t, t) == t.len());
        lemma_sum_tn_diagonal(t, c.ncats);
        assert forall|k: int| 0 <= k < t.len() implies 0 <= #[trigger] t[k] < c.ncats by {
            lemma_categorize_total(c.data[k], c.cdls);
        }
        lemma_rows_partition(t, c.ncats);
        assert(spec_sum_tn(t, t, c.ncats) == c.ncats * t.len() - t.len());
        assert(c.ncats * t.len() - t.len() == (c.ncats - 1) * t.len()) by (nonlinear_arith);
        assert(s * c.data.len() == (s - 1) * c.data.len() + c.data.len()) by (nonlinear_arith);
        assert(s * ((c.ncats - 1) * c.data.len())
            == (s - 1) * ((c.ncats - 1) * c.data.len()) + (c.ncats - 1) * c.data.len())
            by (nonlinear_arith);
    }
}

/// Law: at zero uncertainty and zero bias, with the population already at the
/// reporting precision and no inherent imprecision, every perturbed value
/// equals its original, the confusion matrix is perfectly diagonal, and
/// aggregate agreement, sensitivity and specificity are all exactly one.
pub proof fn lemma_perfect_at_zero(c: CtxSpec)
    requires
        wf_ctx(c),
        c.data.len() > 0,
        data_at_precision(c),
        c.resampling ==> c.cvi == 0,
    ensures
        spec_eval_point(c, 0, 0).agreement.num == spec_eval_point(c, 0, 0).agreement.den,
        spec_eval_point(c, 0, 0).agreement.den > 0,
        spec_eval_point(c, 0, 0).sensitivity == spec_eval_point(c, 0, 0).agreement,
        spec_eval_point(c, 0, 0).specificity.num == spec_eval_point(c, 0, 0).specificity.den,
        spec_eval_point(c, 0, 0).specificity.den > 0,
{
    let len = c.data.len() as int;
    assert(spec_scale(c.resampling, 0, c.cvi) == 0) by {
        if c.resampling {
            assert(0 * 0 + c.cvi * c.cvi == 0) by (nonlinear_arith)
                requires c.cvi == 0;
            assert(is_sqrt(0, 0)) by (nonlinear_arith);
            assert(is_sqrt(0, spec_isqrt(0)));
            lemma_sqrt_unique(0, 0, spec_isqrt(0));
        }
    }
    lemma_sums_at_zero(c, REPS as int);
    assert(sum_diag(c, 0, 0, REPS as int) == 10 * len) by (nonlinear_arith)
        requires sum_diag(c, 0, 0, REPS as int) == (REPS as int) * len && REPS == 10;
    assert(sum_aggtn(c, 0, 0, REPS as int) == 10 * ((c.ncats - 1) * len)) by (nonlinear_arith)
        requires
            sum_aggtn(c, 0, 0, REPS as int) == (REPS as int) * ((c.ncats - 1) * len)
            && REPS == 10;
    assert(10 * ((c.ncats - 1) * len) == 10 * (c.ncats - 1) * len) by (nonlinear_arith);
    assert(10 * (c.ncats - 1) * len > 0) by (nonlinear_arith)
        requires c.ncats >= 2 && len > 0;
}

/// Law: a category with no true instances has sensitivity zero (its
/// denominator would be zero, so the metric is defined as zero), and its
/// specificity keeps the well-defined denominator `REPS * total`, built
/// purely from true-negative and false-positive counts — no division by zero
/// reaches any metric.
pub proof fn lemma_zero_instance_category(c: CtxSpec, e: int, f: int, i: int)
    requires
        wf_ctx(c),
        0 <= i < c.ncats,
        cnt_eq(c.tcats, i) == 0,
    ensures
        spec_eval_point(c, e, f).sublevel_sensitivity[i] == (SpecRatio { num: 0, den: 1 }),
        c.data.len() > 0 ==> spec_eval_point(c, e, f).sublevel_specificity[i].den
            == 10 * c.data.len(),
{
    let scale = spec_scale(c.resampling, e, c.cvi);
    assert(spec_eval_point(c, e, f).sublevel_sensitivity[i]
        == spec_make_ratio(sum_tp(c, scale, f, i, REPS as int), 10 * cnt_eq(c.tcats, i)));
    assert(spec_eval_point(c, e, f).sublevel_specificity[i]
        == spec_make_ratio(sum_tn_cat(c, scale, f, i, REPS as int),
            10 * (c.data.len() - cnt_eq(c.tcats, i))));
}

} // verus!
