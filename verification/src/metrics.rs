//! Confusion bookkeeping and metric derivation. For one repetition the true
//! and predicted category sequences are compared pairwise; the count matrix
//! entries are co-occurrence counts, kept here as counting functions over the
//! two sequences. Metrics are exact rationals: no value is ever divided, so
//! the zero-denominator rule (the metric is zero) is explicit.

use vstd::prelude::*;

verus! {

/// An exact nonnegative rational. The canonical zero-denominator form is
/// `0 / 1`: a ratio whose denominator would be zero is defined as zero.
#[derive(Clone, Copy, Debug, PartialEq, Eq, Structural)]
pub struct Ratio {
    pub num: u64,
    pub den: u64,
}

pub ghost struct SpecRatio {
    pub num: int,
    pub den: int,
}

impl View for Ratio {
    type V = SpecRatio;

    open spec fn view(&self) -> SpecRatio {
        SpecRatio { num: self.num as int, den: self.den as int }
    }
}

/// `num / den` with the zero-denominator rule: a metric whose denominator is
/// zero is defined as zero, not left to division semantics.
pub open spec fn spec_make_ratio(num: int, den: int) -> SpecRatio {
    if den == 0 {
        SpecRatio { num: 0, den: 1 }
    } else {
        SpecRatio { num, den }
    }
}

/// Builds the canonical ratio for a metric numerator and denominator.
pub fn make_ratio(num: u64, den: u64) -> (r: Ratio)
    ensures
        r@ == spec_make_ratio(num as int, den as int),
        r.den >= 1,
{
    if den == 0 {
        Ratio { num: 0, den: 1 }
    } else {
        Ratio { num, den }
    }
}

/// How many entries of `s` equal `x`.
pub open spec fn cnt_eq(s: Seq<usize>, x: int) -> int
    decreases s.len(),
{
    if s.len() == 0 {
        0
    } else {
        cnt_eq(s.drop_last(), x) + if s.last() == x { 1int } else { 0 }
    }
}

/// How many positions hold `x` in both sequences: the diagonal entry `x` of
/// the count matrix (true positives of category `x`).
pub open spec fn cnt_tp(t: Seq<usize>, p: Seq<usize>, x: int) -> int
    decreases t.len(),
{
    if t.len() == 0 {
        0
    } else {
        cnt_tp(t.drop_last(), p.drop_last(), x)
            + if t.last() == x && p.last() == x { 1int } else { 0 }
    }
}

/// How many positions agree: the trace of the count matrix.
pub open spec fn cnt_diag(t: Seq<usize>, p: Seq<usize>) -> int
    decreases t.len(),
{
    if t.len() == 0 {
        0
    } else {
        cnt_diag(t.drop_last(), p.drop_last()) + if t.last() == p.last() { 1int } else { 0 }
    }
}

/// True negatives of category `x`: positions where neither sequence holds
/// `x`. Equal to `total - TP - FN - FP` of the count matrix.
pub open spec fn spec_tn(t: Seq<usize>, p: Seq<usize>, x: int) -> int {
    t.len() - cnt_eq(t, x) - cnt_eq(p, x) + cnt_tp(t, p, x)
}

/// Sum of the true negatives of the categories below `n`.
pub open spec fn spec_sum_tn(t: Seq<usize>, p: Seq<usize>, n: int) -> int
    decreases n,
{
    if n <= 0 {
        0
    } else {
        spec_sum_tn(t, p, n - 1) + spec_tn(t, p, n - 1)
    }
}

pub proof fn lemma_cnt_eq_bounds(s: Seq<usize>, x: int)
    ensures
        0 <= cnt_eq(s, x) <= s.len(),
    decreases s.len(),
{
    if s.len() > 0 {
        lemma_cnt_eq_bounds(s.drop_last(), x);
    }
}

pub proof fn lemma_cnt_diag_bounds(t: Seq<usize>, p: Seq<usize>)
    ensures
        0 <= cnt_diag(t, p) <= t.len(),
    decreases t.len(),
{
    if t.len() > 0 {
        lemma_cnt_diag_bounds(t.drop_last(), p.drop_last());
    }
}

/// The count-matrix identities that keep every derived quantity nonnegative:
/// the true positives of a category never exceed its row or column sum, and
/// row plus column sum minus the true positives never exceeds the total.
pub proof fn lemma_cnt_tp_bounds(t: Seq<usize>, p: Seq<usize>, x: int)
    requires
        t.len() == p.len(),
    ensures
        0 <= cnt_tp(t, p, x),
        cnt_tp(t, p, x) <= cnt_eq(t, x),
        cnt_tp(t, p, x) <= cnt_eq(p, x),
        cnt_eq(t, x) + cnt_eq(p, x) - cnt_tp(t, p, x) <= t.len(),
    decreases t.len(),
{
    if t.len() > 0 {
        lemma_cnt_tp_bounds(t.drop_last(), p.drop_last(), x);
    }
}

/// When the predicted sequence equals the true one, the matrix is diagonal:
/// every position agrees and the true positives of each category are its full
/// row sum.
pub proof fn lemma_diagonal(t: Seq<usize>, x: int)
    ensures
        cnt_diag(t, t) == t.len(),
        cnt_tp(t, t, x) == cnt_eq(t, x),
    decreases t.len(),
{
    if t.len() > 0 {
        lemma_diagonal(t.drop_last(), x);
    }
}

/// Sum of the row sums of the categories below `n`.
pub open spec fn spec_sum_rows(t: Seq<usize>, n: int) -> int
    decreases n,
{
    if n <= 0 {
        0
    } else {
        spec_sum_rows(t, n - 1) + cnt_eq(t, n - 1)
    }
}

proof fn lemma_sum_rows_drop(t: Seq<usize>, n: int)
    requires
        t.len() > 0,
    ensures
        spec_sum_rows(t, n) == spec_sum_rows(t.drop_last(), n)
            + if 0 <= t.last() < n { 1int } else { 0 },
    decreases n,
{
    if n > 0 {
        lemma_sum_rows_drop(t, n - 1);
    }
}

/// The categories partition the population: when every true category index is
/// below `n`, the row sums of the categories below `n` add up to the total.
pub proof fn lemma_rows_partition(t: Seq<usize>, n: int)
    requires
        forall|k: int| 0 <= k < t.len() ==> 0 <= #[trigger] t[k] < n,
    ensures
        spec_sum_rows(t, n) == t.len(),
    decreases t.len(),
{
    if t.len() == 0 {
        assert(spec_sum_rows(t, n) == 0) by {
            lemma_sum_rows_zero(t, n);
        }
    } else {
        let front = t.drop_last();
        assert(forall|k: int| 0 <= k < front.len() ==> 0 <= #[trigger] front[k] < n);
        lemma_rows_partition(front, n);
        lemma_sum_rows_drop(t, n);
        assert(0 <= t.last() < n) by {
            assert(t[t.len() - 1] == t.last());
        }
    }
}

proof fn lemma_sum_rows_zero(t: Seq<usize>, n: int)
    requires
        t.len() == 0,
    ensures
        spec_sum_rows(t, n) == 0,
    decreases n,
{
    if n > 0 {
        lemma_sum_rows_zero(t, n - 1);
    }
}

/// Qualitative band of an averaged metric against the three ascending
/// percentage thresholds.
#[derive(Clone, Copy, Debug, PartialEq, Eq, Structural)]
pub enum Band {
    BelowMin,
    AtLeastMin,
    AtLeastDesired,
    AtLeastOptimal,
}

/// The three ascending percentage cut-points used to band aggregate metrics,
/// as percentages in `SCALE` units.
#[derive(Clone, Copy, Debug, PartialEq, Eq, Structural)]
pub struct AgreementThresholds {
    pub min: u64,
    pub des: u64,
    pub opt: u64,
}

/// Whether the metric `r` (a fraction of one) reaches the percentage
/// threshold `thr` (in `SCALE` units): `r * 100 >= thr / SCALE`.
pub open spec fn ratio_at_least_pct(r: SpecRatio, thr: int) -> bool {
    r.num * 100 * (crate::fixed::SCALE as int) >= thr * r.den
}

/// Band of a metric: the highest threshold it reaches.
pub open spec fn spec_band(r: SpecRatio, t: AgreementThresholds) -> Band {
    if ratio_at_least_pct(r, t.opt as int) {
        Band::AtLeastOptimal
    } else if ratio_at_least_pct(r, t.des as int) {
        Band::AtLeastDesired
    } else if ratio_at_least_pct(r, t.min as int) {
        Band::AtLeastMin
    } else {
        Band::BelowMin
    }
}

/// Compares a metric with a percentage threshold without leaving integers.
fn ratio_reaches(r: &Ratio, thr: u64) -> (b: bool)
    ensures
        b == ratio_at_least_pct(r@, thr as int),
{
    proof {
        assert((r.num as int) * 100 * (crate::fixed::SCALE as int)
            <= 0xffff_ffff_ffff_ffff * 100 * 1_000_000) by (nonlinear_arith)
            requires 0 <= r.num <= 0xffff_ffff_ffff_ffff;
        assert((thr as int) * (r.den as int) <= 0xffff_ffff_ffff_ffff * 0xffff_ffff_ffff_ffff)
            by (nonlinear_arith)
            requires 0 <= thr <= 0xffff_ffff_ffff_ffff && 0 <= r.den <= 0xffff_ffff_ffff_ffff;
    }
    (r.num as u128) * 100 * (crate::fixed::SCALE as u128) >= (thr as u128) * (r.den as u128)
}

/// Assigns the qualitative band for a metric (see `spec_band`).
pub fn band_of(r: &Ratio, t: &AgreementThresholds) -> (b: Band)
    ensures
        b == spec_band(r@, *t),
{
    if ratio_reaches(r, t.opt) {
        Band::AtLeastOptimal
    } else if ratio_reaches(r, t.des) {
        Band::AtLeastDesired
    } else if ratio_reaches(r, t.min) {
        Band::AtLeastMin
    } else {
        Band::BelowMin
    }
}

} // verus!
