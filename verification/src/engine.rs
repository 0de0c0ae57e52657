//! The grid evaluator. For every grid point (a sweep value and a bias value)
//! the population is perturbed once per repetition seed, each perturbed
//! dataset is categorised and compared with the true categories, and the
//! repetition metrics are averaged exactly: every averaged metric shares one
//! repetition-independent denominator, so the average is the summed numerator
//! over `REPS` times that denominator.

use vstd::prelude::*;
use crate::categorize::{categorize, spec_categorize, strictly_increasing};
use crate::fixed::{noise_scale, perturb, spec_perturb, spec_scale, NOISE_MAX, VAL_MAX};
use crate::metrics::{band_of, cnt_diag, cnt_eq, cnt_tp, lemma_cnt_eq_bounds,
    lemma_cnt_diag_bounds, lemma_cnt_tp_bounds, make_ratio, spec_band, spec_make_ratio,
    spec_sum_tn, spec_tn, AgreementThresholds, Band, Ratio, SpecRatio};

verus! {

/// Number of repetitions per grid point: fixed, not configurable.
pub const REPS: usize = 10;

/// Largest accepted population size.
pub const LEN_MAX: usize = 1_000_000_000;

/// Largest accepted number of decision limits.
pub const CAT_MAX: usize = 10_000;

/// One evaluated grid point: the sweep coordinates, the aggregate metrics
/// (exact rationals averaged over the repetitions), their qualitative bands,
/// and the per-category metric vectors.
#[derive(Clone, Debug)]
pub struct SimulationPoint {
    pub mu: u64,
    pub bias: i64,
    pub agreement: Ratio,
    pub sensitivity: Ratio,
    pub specificity: Ratio,
    pub agreement_cat: Band,
    pub sensitivity_cat: Band,
    pub specificity_cat: Band,
    pub sublevel_agreement: Vec<Ratio>,
    pub sublevel_sensitivity: Vec<Ratio>,
    pub sublevel_specificity: Vec<Ratio>,
}

#[verifier::ext_equal]
pub ghost struct SpecPoint {
    pub mu: int,
    pub bias: int,
    pub agreement: SpecRatio,
    pub sensitivity: SpecRatio,
    pub specificity: SpecRatio,
    pub agreement_cat: Band,
    pub sensitivity_cat: Band,
    pub specificity_cat: Band,
    pub sublevel_agreement: Seq<SpecRatio>,
    pub sublevel_sensitivity: Seq<SpecRatio>,
    pub sublevel_specificity: Seq<SpecRatio>,
}

impl View for SimulationPoint {
    type V = SpecPoint;

    open spec fn view(&self) -> SpecPoint {
        SpecPoint {
            mu: self.mu as int,
            bias: self.bias as int,
            agreement: self.agreement@,
            sensitivity: self.sensitivity@,
            specificity: self.specificity@,
            agreement_cat: self.agreement_cat,
            sensitivity_cat: self.sensitivity_cat,
            specificity_cat: self.specificity_cat,
            sublevel_agreement: self.sublevel_agreement@.map_values(|r: Ratio| r@),
            sublevel_sensitivity: self.sublevel_sensitivity@.map_values(|r: Ratio| r@),
            sublevel_specificity: self.sublevel_specificity@.map_values(|r: Ratio| r@),
        }
    }
}

/// The read-only state shared by every grid-point evaluation: the prepared
/// population, its true categories, the decision limits, the noise tables
/// (one standard-normal draw per repetition and data point, in `SCALE`
/// units), and the model parameters.
pub struct EvalContext {
    pub data: Vec<i64>,
    pub tcats: Vec<usize>,
    pub cdls: Vec<i64>,
    pub decimal_places: u32,
    pub noise: Vec<Vec<i64>>,
    pub resampling: bool,
    pub cvi: u64,
    pub thresholds: AgreementThresholds,
    pub ncats: usize,
}

#[verifier::ext_equal]
pub ghost struct CtxSpec {
    pub data: Seq<i64>,
    pub tcats: Seq<usize>,
    pub cdls: Seq<i64>,
    pub dec: int,
    pub noise: Seq<Seq<i64>>,
    pub resampling: bool,
    pub cvi: int,
    pub thresholds: AgreementThresholds,
    pub ncats: int,
}

impl View for EvalContext {
    type V = CtxSpec;

    open spec fn view(&self) -> CtxSpec {
        CtxSpec {
            data: self.data@,
            tcats: self.tcats@,
            cdls: self.cdls@,
            dec: self.decimal_places as int,
            noise: self.noise@.map_values(|v: Vec<i64>| v@),
            resampling: self.resampling,
            cvi: self.cvi as int,
            thresholds: self.thresholds,
            ncats: self.ncats as int,
        }
    }
}

/// Well-formedness of an evaluation context.
pub open spec fn wf_ctx(c: CtxSpec) -> bool {
    &&& 1 <= c.cdls.len() <= CAT_MAX
    &&& c.ncats == c.cdls.len() + 1
    &&& strictly_increasing(c.cdls)
    &&& forall|k: int| 0 <= k < c.cdls.len() ==> -VAL_MAX <= #[trigger] c.cdls[k] <= VAL_MAX
    &&& c.data.len() <= LEN_MAX
    &&& forall|k: int| 0 <= k < c.data.len() ==> -VAL_MAX <= #[trigger] c.data[k] <= VAL_MAX
    &&& c.tcats.len() == c.data.len()
    &&& forall|k: int| 0 <= k < c.data.len() ==>
        #[trigger] c.tcats[k] == spec_categorize(c.data[k], c.cdls)
    &&& 0 <= c.dec <= 6
    &&& 0 <= c.cvi <= 1_000_000_000
    &&& c.noise.len() == REPS
    &&& forall|s: int| 0 <= s < REPS ==> (#[trigger] c.noise[s]).len() == c.data.len()
    &&& forall|s: int, k: int| 0 <= s < REPS && 0 <= k < c.data.len() ==>
        -NOISE_MAX <= #[trigger] c.noise[s][k] <= NOISE_MAX
}

/// The predicted categories of repetition `s` at noise scale `scale` and
/// bias `f`: each value perturbed, rounded, and categorised.
pub open spec fn spec_pred(c: CtxSpec, scale: int, f: int, s: int) -> Seq<usize> {
    Seq::new(c.data.len(), |k: int|
        spec_categorize(
            spec_perturb(c.data[k] as int, c.noise[s][k] as int, scale, f, c.dec as nat) as i64,
            c.cdls) as usize)
}

/// Sum over the first `s` repetitions of the agreeing-position count.
pub open spec fn sum_diag(c: CtxSpec, scale: int, f: int, s: int) -> int
    decreases s,
{
    if s <= 0 {
        0
    } else {
        sum_diag(c, scale, f, s - 1) + cnt_diag(c.tcats, spec_pred(c, scale, f, s - 1))
    }
}

/// Sum over the first `s` repetitions of the true positives of category `i`.
pub open spec fn sum_tp(c: CtxSpec, scale: int, f: int, i: int, s: int) -> int
    decreases s,
{
    if s <= 0 {
        0
    } else {
        sum_tp(c, scale, f, i, s - 1) + cnt_tp(c.tcats, spec_pred(c, scale, f, s - 1), i)
    }
}

/// Sum over the first `s` repetitions of the true negatives of category `i`.
pub open spec fn sum_tn_cat(c: CtxSpec, scale: int, f: int, i: int, s: int) -> int
    decreases s,
{
    if s <= 0 {
        0
    } else {
        sum_tn_cat(c, scale, f, i, s - 1) + spec_tn(c.tcats, spec_pred(c, scale, f, s - 1), i)
    }
}

/// Sum over the first `s` repetitions of the pooled true negatives (summed
/// over all categories).
pub open spec fn sum_aggtn(c: CtxSpec, scale: int, f: int, s: int) -> int
    decreases s,
{
    if s <= 0 {
        0
    } else {
        sum_aggtn(c, scale, f, s - 1) + spec_sum_tn(c.tcats, spec_pred(c, scale, f, s - 1), c.ncats)
    }
}

/// The full result of one grid point. Aggregate agreement and sensitivity are
/// the same micro-averaged quantity (intentionally so); aggregate specificity
/// pools true negatives and false positives over the categories, whose
/// repetition-independent denominator is `(ncats - 1) * total`. Per-category
/// sensitivity and specificity have the repetition-independent denominators
/// `row(i)` and `total - row(i)`, so each average is a summed numerator over
/// `REPS` times the denominator, with the zero-denominator-is-zero rule.
pub open spec fn spec_eval_point(c: CtxSpec, e: int, f: int) -> SpecPoint {
    let scale = spec_scale(c.resampling, e, c.cvi);
    let total = c.data.len() as int;
    let agreement = spec_make_ratio(sum_diag(c, scale, f, REPS as int), 10 * total);
    let specificity = spec_make_ratio(
        sum_aggtn(c, scale, f, REPS as int), 10 * (c.ncats - 1) * total);
    SpecPoint {
        mu: e,
        bias: f,
        agreement: agreement,
        sensitivity: agreement,
        specificity: specificity,
        agreement_cat: spec_band(agreement, c.thresholds),
        sensitivity_cat: spec_band(agreement, c.thresholds),
        specificity_cat: spec_band(specificity, c.thresholds),
        sublevel_agreement: Seq::new(c.ncats as nat, |i: int| spec_make_ratio(
            sum_tp(c, scale, f, i, REPS as int) + sum_tn_cat(c, scale, f, i, REPS as int),
            10 * total)),
        sublevel_sensitivity: Seq::new(c.ncats as nat, |i: int| spec_make_ratio(
            sum_tp(c, scale, f, i, REPS as int), 10 * cnt_eq(c.tcats, i))),
        sublevel_specificity: Seq::new(c.ncats as nat, |i: int| spec_make_ratio(
            sum_tn_cat(c, scale, f, i, REPS as int), 10 * (total - cnt_eq(c.tcats, i)))),
    }
}

proof fn lemma_cnt_take_step(t: Seq<usize>, p: Seq<usize>, x: int, k: int)
    requires
        0 <= k < t.len(),
        t.len() == p.len(),
    ensures
        cnt_eq(t.take(k + 1), x) == cnt_eq(t.take(k), x) + if t[k] == x { 1int } else { 0 },
        cnt_tp(t.take(k + 1), p.take(k + 1), x) == cnt_tp(t.take(k), p.take(k), x)
            + if t[k] == x && p[k] == x { 1int } else { 0 },
        cnt_diag(t.take(k + 1), p.take(k + 1)) == cnt_diag(t.take(k), p.take(k))
            + if t[k] == p[k] { 1int } else { 0 },
{
    assert(t.take(k + 1).drop_last() =~= t.take(k));
    assert(p.take(k + 1).drop_last() =~= p.take(k));
    assert(t.take(k + 1).last() == t[k]);
    assert(p.take(k + 1).last() == p[k]);
}

/// How many entries of `cats` equal each category index below `n`.
fn count_eq_vec(cats: &Vec<usize>, n: usize) -> (r: Vec<u64>)
    requires
        cats@.len() <= LEN_MAX,
        forall|k: int| 0 <= k < cats@.len() ==> #[trigger] cats@[k] < n,
    ensures
        r@.len() == n,
        forall|i: int| 0 <= i < n ==> r@[i] == cnt_eq(cats@, i),
{
    let mut r: Vec<u64> = Vec::new();
    let mut i: usize = 0;
    while i < n
        invariant
            r@.len() == i <= n,
            forall|j: int| 0 <= j < i ==> r@[j] == cnt_eq(Seq::<usize>::empty(), j),
        decreases n - i,
    {
        r.push(0);
        i = i + 1;
    }
    let mut k: usize = 0;
    proof {
        assert(cats@.take(0) =~= Seq::<usize>::empty());
    }
    while k < cats.len()
        invariant
            r@.len() == n,
            k <= cats@.len() <= LEN_MAX,
            forall|j: int| 0 <= j < cats@.len() ==> #[trigger] cats@[j] < n,
            forall|i: int| 0 <= i < n ==> r@[i] == cnt_eq(cats@.take(k as int), i),
        decreases cats@.len() - k,
    {
        let c = cats[k];
        proof {
            lemma_cnt_eq_bounds(cats@.take(k as int), c as int);
            assert forall|i: int| 0 <= i < n implies
                cnt_eq(cats@.take(k as int + 1), i)
                    == cnt_eq(cats@.take(k as int), i) + if cats@[k as int] == i { 1int } else { 0 } by {
                lemma_cnt_take_step(cats@, cats@, i, k as int);
            }
        }
        let old_v = r[c];
        r.set(c, old_v + 1);
        k = k + 1;
    }
    proof {
        assert(cats@.take(cats@.len() as int) =~= cats@);
    }
    r
}

/// True-positive counts per category and the number of agreeing positions,
/// for one repetition.
fn count_tp_diag(t: &Vec<usize>, p: &Vec<usize>, n: usize) -> (r: (Vec<u64>, u64))
    requires
        t@.len() == p@.len(),
        t@.len() <= LEN_MAX,
        forall|k: int| 0 <= k < t@.len() ==> #[trigger] t@[k] < n,
        forall|k: int| 0 <= k < p@.len() ==> #[trigger] p@[k] < n,
    ensures
        r.0@.len() == n,
        forall|i: int| 0 <= i < n ==> r.0@[i] == cnt_tp(t@, p@, i),
        r.1 == cnt_diag(t@, p@),
{
    let mut tp: Vec<u64> = Vec::new();
    let mut i: usize = 0;
    while i < n
        invariant
            tp@.len() == i <= n,
            forall|j: int| 0 <= j < i ==> tp@[j] == 0,
        decreases n - i,
    {
        tp.push(0);
        i = i + 1;
    }
    let mut diag: u64 = 0;
    let mut k: usize = 0;
    proof {
        assert(t@.take(0) =~= Seq::<usize>::empty());
        assert(p@.take(0) =~= Seq::<usize>::empty());
    }
    while k < t.len()
        invariant
            tp@.len() == n,
            t@.len() == p@.len(),
            k <= t@.len() <= LEN_MAX,
            forall|j: int| 0 <= j < t@.len() ==> #[trigger] t@[j] < n,
            forall|j: int| 0 <= j < p@.len() ==> #[trigger] p@[j] < n,
            forall|i: int| 0 <= i < n ==> tp@[i] == cnt_tp(t@.take(k as int), p@.take(k as int), i),
            diag == cnt_diag(t@.take(k as int), p@.take(k as int)),
        decreases t@.len() - k,
    {
        let tc = t[k];
        let pc = p[k];
        proof {
            lemma_cnt_diag_bounds(t@.take(k as int), p@.take(k as int));
            lemma_cnt_tp_bounds(t@.take(k as int), p@.take(k as int), tc as int);
            lemma_cnt_eq_bounds(t@.take(k as int), tc as int);
            assert forall|i: int| 0 <= i < n implies
                cnt_tp(t@.take(k as int + 1), p@.take(k as int + 1), i)
                    == cnt_tp(t@.take(k as int), p@.take(k as int), i)
                        + if t@[k as int] == i && p@[k as int] == i { 1int } else { 0 } by {
                lemma_cnt_take_step(t@, p@, i, k as int);
            }
            lemma_cnt_take_step(t@, p@, 0, k as int);
        }
        if tc == pc {
            let old_v = tp[tc];
            tp.set(tc, old_v + 1);
            diag = diag + 1;
        }
        k = k + 1;
    }
    proof {
        assert(t@.take(t@.len() as int) =~= t@);
        assert(p@.take(p@.len() as int) =~= p@);
    }
    (tp, diag)
}

/// The predicted category of every data point for repetition `s`, at noise
/// scale `scale` and bias `f`.
fn predict_rep(ctx: &EvalContext, scale: u64, f: i64, s: usize) -> (r: Vec<usize>)
    requires
        wf_ctx(ctx@),
        scale <= 3_000_000_000,
        -2_000_000_000 <= f <= 2_000_000_000,
        s < REPS,
    ensures
        r@ == spec_pred(ctx@, scale as int, f as int, s as int),
        r@.len() == ctx@.data.len(),
        forall|k: int| 0 <= k < r@.len() ==> #[trigger] r@[k] < ctx@.ncats,
{
    let ghost c = ctx@;
    let mut r: Vec<usize> = Vec::new();
    let mut k: usize = 0;
    let noise_row: &Vec<i64> = &ctx.noise[s];
    proof {
        assert(c.noise[s as int] == ctx.noise@[s as int]@);
    }
    while k < ctx.data.len()
        invariant
            wf_ctx(c),
            c == ctx@,
            noise_row@ == c.noise[s as int],
            0 <= s < REPS,
            scale <= 3_000_000_000,
            -2_000_000_000 <= f <= 2_000_000_000,
            k <= c.data.len(),
            r@.len() == k,
            forall|j: int| 0 <= j < k ==>
                #[trigger] r@[j] == spec_pred(c, scale as int, f as int, s as int)[j],
            forall|j: int| 0 <= j < k ==> #[trigger] r@[j] < c.ncats,
        decreases c.data.len() - k,
    {
        let pv = perturb(ctx.data[k], noise_row[k], scale, f, ctx.decimal_places);
        let cat = categorize(pv, &ctx.cdls);
        proof {
            assert(pv as int == spec_perturb(
                c.data[k as int] as int, c.noise[s as int][k as int] as int,
                scale as int, f as int, c.dec as nat));
            assert(cat as int == spec_categorize(pv, c.cdls));
            assert(cat <= c.cdls.len());
        }
        r.push(cat);
        k = k + 1;
    }
    proof {
        assert(r@ =~= spec_pred(c, scale as int, f as int, s as int));
    }
    r
}

/// Evaluates one grid point: `REPS` perturbation repetitions, confusion
/// bookkeeping, exact averaging, and qualitative banding.
pub fn eval_point(ctx: &EvalContext, e: u64, f: i64) -> (r: SimulationPoint)
    requires
        wf_ctx(ctx@),
        e <= 2_000_000_000,
        -2_000_000_000 <= f <= 2_000_000_000,
    ensures
        r@ == spec_eval_point(ctx@, e as int, f as int),
{
    let ghost c = ctx@;
    let n = ctx.ncats;
    let len = ctx.data.len();
    let total: u64 = len as u64;
    let scale = noise_scale(ctx.resampling, e, ctx.cvi);
    let ghost sc = scale as int;
    proof {
        assert(sc == spec_scale(c.resampling, e as int, c.cvi));
        assert forall|k: int| 0 <= k < c.tcats.len() implies #[trigger] c.tcats[k] < n by {
            crate::categorize::lemma_categorize_total(c.data[k], c.cdls);
        }
    }
    let rows = count_eq_vec(&ctx.tcats, n);

    let mut sum_diag_acc: u64 = 0;
    let mut sum_aggtn_acc: u64 = 0;
    let mut sum_tp_acc: Vec<u64> = Vec::new();
    let mut sum_tn_acc: Vec<u64> = Vec::new();
    let mut i0: usize = 0;
    while i0 < n
        invariant
            sum_tp_acc@.len() == i0 <= n,
            sum_tn_acc@.len() == i0,
            forall|j: int| 0 <= j < i0 ==> sum_tp_acc@[j] == 0 && sum_tn_acc@[j] == 0,
        decreases n - i0,
    {
        sum_tp_acc.push(0);
        sum_tn_acc.push(0);
        i0 = i0 + 1;
    }

    let mut s: usize = 0;
    while s < REPS
        invariant
            wf_ctx(c),
            c == ctx@,
            n == c.ncats,
            len == c.data.len(),
            total == len as u64,
            0 <= s <= REPS,
            scale <= 3_000_000_000,
            sc == scale as int,
            e <= 2_000_000_000,
            -2_000_000_000 <= f <= 2_000_000_000,
            rows@.len() == n,
            forall|i: int| 0 <= i < n ==> rows@[i] == cnt_eq(c.tcats, i),
            sum_tp_acc@.len() == n,
            sum_tn_acc@.len() == n,
            sum_diag_acc == sum_diag(c, sc, f as int, s as int),
            sum_aggtn_acc == sum_aggtn(c, sc, f as int, s as int),
            forall|i: int| 0 <= i < n ==>
                #[trigger] sum_tp_acc@[i] == sum_tp(c, sc, f as int, i, s as int),
            forall|i: int| 0 <= i < n ==>
                #[trigger] sum_tn_acc@[i] == sum_tn_cat(c, sc, f as int, i, s as int),
            sum_diag_acc <= (s as int) * (len as int),
            sum_aggtn_acc <= (s as int) * (n as int) * (len as int),
            forall|i: int| 0 <= i < n ==> #[trigger] sum_tp_acc@[i] <= (s as int) * (len as int),
            forall|i: int| 0 <= i < n ==> #[trigger] sum_tn_acc@[i] <= (s as int) * (len as int),
        decreases REPS - s,
    {
        proof {
            assert forall|k: int| 0 <= k < c.tcats.len() implies #[trigger] c.tcats[k] < n by {
                crate::categorize::lemma_categorize_total(c.data[k], c.cdls);
            }
        }
        let pred = predict_rep(ctx, scale, f, s);
        let ghost pd = spec_pred(c, sc, f as int, s as int);
        let cols = count_eq_vec(&pred, n);
        let (tps, diag) = count_tp_diag(&ctx.tcats, &pred, n);
        proof {
            lemma_cnt_diag_bounds(c.tcats, pd);
            assert((s as int + 1) * (len as int) == (s as int) * (len as int) + (len as int))
                by (nonlinear_arith);
            assert((s as int + 1) * (n as int) * (len as int)
                == (s as int) * (n as int) * (len as int) + (n as int) * (len as int))
                by (nonlinear_arith);
            assert((s as int) * (len as int) <= 10 * (LEN_MAX as int)) by (nonlinear_arith)
                requires 0 <= s <= 10 && 0 <= len <= LEN_MAX;
            assert((s as int) * (n as int) * (len as int)
                <= 10 * ((CAT_MAX as int) + 1) * (LEN_MAX as int)) by (nonlinear_arith)
                requires 0 <= s <= 10 && 0 <= len <= LEN_MAX && 0 < n <= (CAT_MAX as int) + 1;
            assert((n as int) * (len as int) <= ((CAT_MAX as int) + 1) * (LEN_MAX as int))
                by (nonlinear_arith)
                requires 0 <= len <= LEN_MAX && 0 < n <= (CAT_MAX as int) + 1;
        }
        sum_diag_acc = sum_diag_acc + diag;

        let mut i: usize = 0;
        while i < n
            invariant
                wf_ctx(c),
                c == ctx@,
                n == c.ncats,
                len == c.data.len(),
                total == len as u64,
                0 <= s < REPS,
                sc == scale as int,
                pd == spec_pred(c, sc, f as int, s as int),
                pred@ == pd,
                0 <= i <= n,
                rows@.len() == n,
                cols@.len() == n,
                tps@.len() == n,
                sum_tp_acc@.len() == n,
                sum_tn_acc@.len() == n,
                forall|j: int| 0 <= j < n ==> rows@[j] == cnt_eq(c.tcats, j),
                forall|j: int| 0 <= j < n ==> cols@[j] == cnt_eq(pd, j),
                forall|j: int| 0 <= j < n ==> tps@[j] == cnt_tp(c.tcats, pd, j),
                forall|j: int| 0 <= j < i ==>
                    #[trigger] sum_tp_acc@[j] == sum_tp(c, sc, f as int, j, s as int + 1),
                forall|j: int| i <= j < n ==>
                    #[trigger] sum_tp_acc@[j] == sum_tp(c, sc, f as int, j, s as int),
                forall|j: int| 0 <= j < i ==>
                    #[trigger] sum_tn_acc@[j] == sum_tn_cat(c, sc, f as int, j, s as int + 1),
                forall|j: int| i <= j < n ==>
                    #[trigger] sum_tn_acc@[j] == sum_tn_cat(c, sc, f as int, j, s as int),
                sum_aggtn_acc == sum_aggtn(c, sc, f as int, s as int)
                    + spec_sum_tn(c.tcats, pd, i as int),
                forall|j: int| 0 <= j < i ==> #[trigger] sum_tp_acc@[j]
                    <= (s as int) * (len as int) + (len as int),
                forall|j: int| i <= j < n ==> #[trigger] sum_tp_acc@[j]
                    <= (s as int) * (len as int),
                forall|j: int| 0 <= j < i ==> #[trigger] sum_tn_acc@[j]
                    <= (s as int) * (len as int) + (len as int),
                forall|j: int| i <= j < n ==> #[trigger] sum_tn_acc@[j]
                    <= (s as int) * (len as int),
                sum_aggtn_acc <= (s as int) * (n as int) * (len as int)
                    + (i as int) * (len as int),
                (s as int) * (len as int) <= 10 * (LEN_MAX as int),
                (s as int) * (n as int) * (len as int)
                    <= 10 * ((CAT_MAX as int) + 1) * (LEN_MAX as int),
            decreases n - i,
        {
            let row = rows[i];
            let col = cols[i];
            let tp = tps[i];
            proof {
                lemma_cnt_tp_bounds(c.tcats, pd, i as int);
                lemma_cnt_eq_bounds(c.tcats, i as int);
                lemma_cnt_eq_bounds(pd, i as int);
                assert((i as int + 1) * (len as int) == (i as int) * (len as int) + (len as int))
                    by (nonlinear_arith);
                assert((i as int) * (len as int) <= ((CAT_MAX as int) + 1) * (LEN_MAX as int))
                    by (nonlinear_arith)
                    requires 0 <= len <= LEN_MAX && 0 <= i <= (CAT_MAX as int) + 1;
            }
            let tn = total + tp - row - col;
            let old_tp = sum_tp_acc[i];
            sum_tp_acc.set(i, old_tp + tp);
            let old_tn = sum_tn_acc[i];
            sum_tn_acc.set(i, old_tn + tn);
            sum_aggtn_acc = sum_aggtn_acc + tn;
            i = i + 1;
        }
        s = s + 1;
    }

    proof {
        assert(10 * ((CAT_MAX as int) + 1) * (LEN_MAX as int) + ((CAT_MAX as int) + 1) * (LEN_MAX as int)
            < 0xffff_ffff_ffff_ffff);
        assert(10 * (total as int) <= 10 * (LEN_MAX as int));
        assert((10 * ((n as int) - 1)) * (total as int)
            <= 10 * (CAT_MAX as int) * (LEN_MAX as int)) by (nonlinear_arith)
            requires 0 < n <= (CAT_MAX as int) + 1 && 0 <= total <= LEN_MAX;
    }
    let agg_den: u64 = 10 * ((n as u64) - 1) * total;
    let agreement = make_ratio(sum_diag_acc, 10 * total);
    let specificity = make_ratio(sum_aggtn_acc, agg_den);
    let agreement_cat = band_of(&agreement, &ctx.thresholds);
    let specificity_cat = band_of(&specificity, &ctx.thresholds);

    let ghost sp = spec_eval_point(c, e as int, f as int);
    proof {
        assert(agg_den as int == 10 * ((c.ncats - 1) as int) * (c.data.len() as int))
            by (nonlinear_arith)
            requires
                agg_den == (10 * ((n as int) - 1)) * (total as int),
                n == c.ncats, total == c.data.len(), n >= 1;
        assert(agreement@ == sp.agreement);
        assert(specificity@ == sp.specificity);
    }

    let mut sub_agree: Vec<Ratio> = Vec::new();
    let mut sub_sens: Vec<Ratio> = Vec::new();
    let mut sub_spec: Vec<Ratio> = Vec::new();
    let mut i: usize = 0;
    while i < n
        invariant
            0 <= i <= n,
            wf_ctx(c),
            c == ctx@,
            n == c.ncats,
            len == c.data.len(),
            total == len as u64,
            rows@.len() == n,
            sum_tp_acc@.len() == n,
            sum_tn_acc@.len() == n,
            forall|j: int| 0 <= j < n ==> rows@[j] == cnt_eq(c.tcats, j),
            forall|j: int| 0 <= j < n ==>
                #[trigger] sum_tp_acc@[j] == sum_tp(c, sc, f as int, j, REPS as int),
            forall|j: int| 0 <= j < n ==>
                #[trigger] sum_tn_acc@[j] == sum_tn_cat(c, sc, f as int, j, REPS as int),
            forall|j: int| 0 <= j < n ==> #[trigger] sum_tp_acc@[j] <= 10 * (LEN_MAX as int),
            forall|j: int| 0 <= j < n ==> #[trigger] sum_tn_acc@[j] <= 10 * (LEN_MAX as int),
            sp == spec_eval_point(c, e as int, f as int),
            sc == spec_scale(c.resampling, e as int, c.cvi),
            sub_agree@.len() == i,
            sub_sens@.len() == i,
            sub_spec@.len() == i,
            forall|j: int| 0 <= j < i ==>
                (#[trigger] sub_agree@[j])@ == sp.sublevel_agreement[j],
            forall|j: int| 0 <= j < i ==>
                (#[trigger] sub_sens@[j])@ == sp.sublevel_sensitivity[j],
            forall|j: int| 0 <= j < i ==>
                (#[trigger] sub_spec@[j])@ == sp.sublevel_specificity[j],
        decreases n - i,
    {
        proof {
            lemma_cnt_eq_bounds(c.tcats, i as int);
        }
        let row = rows[i];
        sub_agree.push(make_ratio(sum_tp_acc[i] + sum_tn_acc[i], 10 * total));
        sub_sens.push(make_ratio(sum_tp_acc[i], 10 * row));
        sub_spec.push(make_ratio(sum_tn_acc[i], 10 * (total - row)));
        i = i + 1;
    }

    let r = SimulationPoint {
        mu: e,
        bias: f,
        agreement: agreement,
        sensitivity: agreement,
        specificity: specificity,
        agreement_cat: agreement_cat,
        sensitivity_cat: agreement_cat,
        specificity_cat: specificity_cat,
        sublevel_agreement: sub_agree,
        sublevel_sensitivity: sub_sens,
        sublevel_specificity: sub_spec,
    };
    proof {
        assert(r@.sublevel_agreement =~= sp.sublevel_agreement);
        assert(r@.sublevel_sensitivity =~= sp.sublevel_sensitivity);
        assert(r@.sublevel_specificity =~= sp.sublevel_specificity);
        assert(r@ =~= sp);
    }
    r
}

} // verus!
