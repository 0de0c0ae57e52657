//! The simulation entry point: configuration, data preparation, grid
//! construction and the parallel grid evaluation.
//!
//! The standard-normal noise tables are an input: one row per repetition
//! seed (`SEED_BASE + 1 ..= SEED_BASE + REPS`), one draw per data point, in
//! `SCALE` units. The caller draws them once per run; the engine itself is a
//! pure function of the configuration and the tables, which is what makes two
//! runs with the same configuration identical.

use vstd::prelude::*;
use rayon::iter::{IndexedParallelIterator, IntoParallelRefIterator, ParallelIterator};
use rand::seq::SliceRandom;
use rand::SeedableRng;
use crate::categorize::{spec_categorize, strictly_increasing};
use crate::engine::{eval_point, spec_eval_point, wf_ctx, CtxSpec, EvalContext,
    SimulationPoint, CAT_MAX, LEN_MAX, REPS};
use crate::fixed::{NOISE_MAX, VAL_MAX};
use crate::grid::{build_bias_axis, build_pos_axis, spec_num_steps, AXIS_MAX};
use crate::metrics::AgreementThresholds;
use crate::model::{spec_is_imp_bias, spec_is_resampling, spec_model_of, SimulationModel};
use crate::names::{build_names, spec_name};

verus! {

/// Seed of the deterministic subsampling shuffle.
pub const SHUFFLE_SEED: u64 = 42;

/// Base of the repetition seeds: repetition `s` uses `SEED_BASE + s + 1`.
pub const SEED_BASE: u64 = 1234;

/// Default sweep bounds, percentages in `SCALE` units.
pub const DEFAULT_MAX_MU: u64 = 33_100_000;

pub const DEFAULT_STEP_MU: u64 = 100_000;

pub const DEFAULT_MAX_IMPRECISION: u64 = 33_300_000;

pub const DEFAULT_MAX_BIAS: u64 = 35_000_000;

pub const DEFAULT_STEP_IMP_BIAS: u64 = 1_000_000;

/// One simulation run's input. Real quantities are fixed-point integers in
/// `SCALE` units; percentages (thresholds, sweep bounds, `cv_i`) likewise.
pub struct SimulationConfig {
    pub model: String,
    pub data: Vec<i64>,
    pub cdls: Vec<i64>,
    pub decimal_places: u32,
    pub agreement_thresholds: AgreementThresholds,
    pub cv_i: Option<u64>,
    pub sample_size: Option<usize>,
    pub max_imprecision: Option<u64>,
    pub max_bias: Option<u64>,
    pub max_mu: Option<u64>,
    pub step_size_mu: Option<u64>,
    pub step_size_imp_bias: Option<u64>,
}

/// The full ordered result: one point per grid cell, all bias values of the
/// first sweep value first, and the category names shared by every point.
pub struct SimulationResult {
    pub mu_data: Vec<SimulationPoint>,
    pub names: Vec<String>,
}

/// What `rand`'s seeded shuffle returns for a seed and an input sequence:
/// fixed by them alone, which is what makes subsampling reproducible.
pub uninterp spec fn shuffle_of(seed: u64, s: Seq<i64>) -> Seq<i64>;

/// Relies on `rand::seq::SliceRandom::shuffle` with `rand::rngs::StdRng`
/// seeded by `StdRng::seed_from_u64(seed)`: a permutation of the input that
/// depends on the seed and the input alone.
#[verifier::external_body]
fn shuffle_seeded(v: Vec<i64>, seed: u64) -> (r: Vec<i64>)
    ensures
        r@ == shuffle_of(seed, v@),
        r@.len() == v@.len(),
        r@.to_multiset() == v@.to_multiset(),
        forall|k: int| 0 <= k < r@.len() ==> v@.contains(#[trigger] r@[k]),
{
    let mut v = v;
    let mut rng = rand::rngs::StdRng::seed_from_u64(seed);
    v.shuffle(&mut rng);
    v
}

/// The length of the prepared population: the requested sample size when it
/// is smaller than the population, the full population otherwise.
pub open spec fn spec_prepared_len(data_len: int, sample_size: Option<usize>) -> int {
    match sample_size {
        Some(sz) => if sz < data_len { sz as int } else { data_len },
        None => data_len,
    }
}

/// The prepared population: deterministically shuffled with `SHUFFLE_SEED`
/// and truncated when a smaller sample size is requested, the input unchanged
/// otherwise.
pub open spec fn spec_prepared_data(data: Seq<i64>, sample_size: Option<usize>) -> Seq<i64> {
    match sample_size {
        Some(sz) => if sz < data.len() {
            shuffle_of(SHUFFLE_SEED, data).take(sz as int)
        } else {
            data
        },
        None => data,
    }
}

/// Prepares the population for one run. Subsampling shuffles with the fixed
/// seed and truncates, so repeated runs select the same subset in the same
/// order; without a smaller sample size the population is used unchanged.
pub fn prepare_data(data: Vec<i64>, sample_size: Option<usize>) -> (r: Vec<i64>)
    ensures
        r@ == spec_prepared_data(data@, sample_size),
        r@.len() == spec_prepared_len(data@.len() as int, sample_size),
        forall|k: int| 0 <= k < r@.len() ==> data@.contains(#[trigger] r@[k]),
{
    let ghost d0 = data@;
    let do_sample = match sample_size {
        Some(sz) => sz < data.len(),
        None => false,
    };
    if do_sample {
        let sz = match sample_size {
            Some(sz) => sz,
            None => 0,
        };
        let mut shuffled = shuffle_seeded(data, SHUFFLE_SEED);
        shuffled.truncate(sz);
        proof {
            assert(shuffled@ =~= spec_prepared_data(d0, sample_size));
        }
        shuffled
    } else {
        data
    }
}

/// Whether the counter value `count` of `total` completed grid points fires
/// a progress notification: every fiftieth completion, and the last one.
pub fn should_notify(count: usize, total: usize) -> (r: bool)
    ensures
        r == (count % 50 == 0 || count == total),
{
    count % 50 == 0 || count == total
}

/// The completion percentage for `count` of `total` grid points, as a
/// percentage in `SCALE` units (rounded down).
pub fn progress_percent(count: u64, total: u64) -> (r: u64)
    requires
        1 <= total,
        count <= total,
        total <= 0x1_0000_0000,
    ensures
        r == (count as int) * 100 * (crate::fixed::SCALE as int) / (total as int),
        r <= 100 * (crate::fixed::SCALE as int),
{
    proof {
        assert((count as int) * 100 * (crate::fixed::SCALE as int)
            <= 0x1_0000_0000 * 100 * 1_000_000) by (nonlinear_arith)
            requires 0 <= count <= 0x1_0000_0000;
        let p = (count as int) * 100 * (crate::fixed::SCALE as int);
        let q = (total as int) * 100 * (crate::fixed::SCALE as int);
        assert(p <= q) by (nonlinear_arith)
            requires
                p == (count as int) * 100 * (crate::fixed::SCALE as int),
                q == (total as int) * 100 * (crate::fixed::SCALE as int),
                count <= total,
                0 <= count;
        vstd::arithmetic::div_mod::lemma_div_is_ordered(p, q, total as int);
        assert(q / (total as int) == 100 * (crate::fixed::SCALE as int)) by {
            vstd::arithmetic::div_mod::lemma_div_multiples_vanish(
                100 * (crate::fixed::SCALE as int), total as int);
            assert(q == (total as int) * (100 * (crate::fixed::SCALE as int)))
                by (nonlinear_arith)
                requires q == (total as int) * 100 * (crate::fixed::SCALE as int);
        }
        vstd::arithmetic::div_mod::lemma_div_pos_is_pos(p, total as int);
    }
    count * 100 * 1_000_000 / total
}

/// The repetition seeds, in order: `SEED_BASE + 1 ..= SEED_BASE + REPS`.
pub fn rep_seeds() -> (r: Vec<u64>)
    ensures
        r@.len() == REPS,
        forall|s: int| 0 <= s < REPS ==> #[trigger] r@[s] == SEED_BASE + s + 1,
{
    let mut r: Vec<u64> = Vec::new();
    let mut s: u64 = 0;
    while s < 10
        invariant
            r@.len() == s <= 10,
            forall|j: int| 0 <= j < s ==> #[trigger] r@[j] == SEED_BASE + j + 1,
        decreases 10 - s,
    {
        r.push(SEED_BASE + s + 1);
        s = s + 1;
    }
    r
}

/// The active sweep maximum for the configuration's model.
pub open spec fn spec_max_e(c: SimulationConfig) -> int {
    if spec_is_imp_bias(spec_model_of(c.model@)) {
        match c.max_imprecision {
            Some(v) => v as int,
            None => DEFAULT_MAX_IMPRECISION as int,
        }
    } else {
        match c.max_mu {
            Some(v) => v as int,
            None => DEFAULT_MAX_MU as int,
        }
    }
}

/// The active step size for the configuration's model.
pub open spec fn spec_step(c: SimulationConfig) -> int {
    if spec_is_imp_bias(spec_model_of(c.model@)) {
        match c.step_size_imp_bias {
            Some(v) => v as int,
            None => DEFAULT_STEP_IMP_BIAS as int,
        }
    } else {
        match c.step_size_mu {
            Some(v) => v as int,
            None => DEFAULT_STEP_MU as int,
        }
    }
}

/// The bias sweep maximum (meaningful only for the imprecision/bias models).
pub open spec fn spec_max_bias(c: SimulationConfig) -> int {
    match c.max_bias {
        Some(v) => v as int,
        None => DEFAULT_MAX_BIAS as int,
    }
}

/// Length of the uncertainty/imprecision axis.
pub open spec fn spec_e_axis_len(c: SimulationConfig) -> int {
    spec_num_steps(spec_max_e(c), spec_step(c)) + 1
}

/// The `i`th value of the uncertainty/imprecision axis.
pub open spec fn spec_e_val(c: SimulationConfig, i: int) -> int {
    i * spec_step(c)
}

/// Length of the bias axis: the single value zero for the uncertainty
/// models, the symmetric range for the imprecision/bias models.
pub open spec fn spec_f_axis_len(c: SimulationConfig) -> int {
    if spec_is_imp_bias(spec_model_of(c.model@)) {
        2 * spec_num_steps(spec_max_bias(c), spec_step(c)) + 1
    } else {
        1
    }
}

/// The `i`th value of the bias axis.
pub open spec fn spec_f_val(c: SimulationConfig, i: int) -> int {
    if spec_is_imp_bias(spec_model_of(c.model@)) {
        (i - spec_num_steps(spec_max_bias(c), spec_step(c))) * spec_step(c)
    } else {
        0
    }
}

/// A well-formed configuration: at least one strictly ascending decision
/// limit, values within the fixed-point range, at most six decimal places,
/// and sweep controls within the axis range with at most twenty thousand
/// steps per axis.
pub open spec fn wf_config(c: SimulationConfig) -> bool {
    &&& 1 <= c.cdls@.len() <= CAT_MAX
    &&& strictly_increasing(c.cdls@)
    &&& forall|k: int| 0 <= k < c.cdls@.len() ==> -VAL_MAX <= #[trigger] c.cdls@[k] <= VAL_MAX
    &&& c.data@.len() <= LEN_MAX
    &&& forall|k: int| 0 <= k < c.data@.len() ==> -VAL_MAX <= #[trigger] c.data@[k] <= VAL_MAX
    &&& c.decimal_places <= 6
    &&& (c.cv_i matches Some(v) ==> v <= 1_000_000_000)
    &&& (c.max_imprecision matches Some(v) ==> v <= AXIS_MAX)
    &&& (c.max_bias matches Some(v) ==> v <= AXIS_MAX)
    &&& (c.max_mu matches Some(v) ==> v <= AXIS_MAX)
    &&& (c.step_size_mu matches Some(v) ==> 1 <= v <= AXIS_MAX)
    &&& (c.step_size_imp_bias matches Some(v) ==> 1 <= v <= AXIS_MAX)
    &&& spec_num_steps(spec_max_e(c), spec_step(c)) <= 20_000
    &&& spec_num_steps(spec_max_bias(c), spec_step(c)) <= 20_000
}

/// Noise tables fit the prepared population: one row per repetition, one
/// bounded draw per data point.
pub open spec fn wf_noise(noise: Seq<Seq<i64>>, prepared_len: int) -> bool {
    &&& noise.len() == REPS
    &&& forall|s: int| 0 <= s < REPS ==> (#[trigger] noise[s]).len() == prepared_len
    &&& forall|s: int, k: int| 0 <= s < REPS && 0 <= k < prepared_len ==>
        -NOISE_MAX <= #[trigger] noise[s][k] <= NOISE_MAX
}

/// The evaluation context a configuration and its noise tables determine.
pub open spec fn spec_ctx_of(c: SimulationConfig, noise: Seq<Seq<i64>>) -> CtxSpec {
    let data = spec_prepared_data(c.data@, c.sample_size);
    CtxSpec {
        data: data,
        tcats: Seq::new(data.len(), |k: int| spec_categorize(data[k], c.cdls@) as usize),
        cdls: c.cdls@,
        dec: c.decimal_places as int,
        noise: noise,
        resampling: spec_is_resampling(spec_model_of(c.model@)),
        cvi: match c.cv_i {
            Some(v) => v as int,
            None => 0,
        },
        thresholds: c.agreement_thresholds,
        ncats: c.cdls@.len() as int + 1,
    }
}

/// Relies on rayon's `par_iter().map(..).collect()`: the output vector has
/// one element per coordinate, in input order (an indexed parallel iterator
/// collects by position, not by completion), each the closure's result, and
/// the closure only calls the verified `eval_point`.
#[verifier::external_body]
fn par_eval_points(ctx: &EvalContext, coords: &Vec<(u64, i64)>) -> (r: Vec<SimulationPoint>)
    requires
        wf_ctx(ctx@),
        forall|i: int| 0 <= i < coords@.len() ==>
            (#[trigger] coords@[i]).0 <= 2_000_000_000
            && -2_000_000_000 <= coords@[i].1 <= 2_000_000_000,
    ensures
        r@.len() == coords@.len(),
        forall|i: int| 0 <= i < coords@.len() ==>
            (#[trigger] r@[i])@ == spec_eval_point(ctx@, coords@[i].0 as int, coords@[i].1 as int),
{
    coords.par_iter().map(|c| eval_point(ctx, c.0, c.1)).collect()
}

/// Runs the whole grid simulation: prepares the population, categorises it,
/// expands the sweep axes for the configured model, and evaluates every grid
/// point in parallel, collecting the points by position so the result order
/// is the nested axis order regardless of completion order.
///
/// The result is fully determined by the configuration and the noise tables:
/// every point equals `spec_eval_point` of the context they define, which is
/// what makes two runs with identical inputs identical.
pub fn run_simulation(config: SimulationConfig, noise: Vec<Vec<i64>>) -> (r: SimulationResult)
    requires
        wf_config(config),
        wf_noise(
            noise@.map_values(|v: Vec<i64>| v@),
            spec_prepared_len(config.data@.len() as int, config.sample_size)),
    ensures
        r.names@.len() == config.cdls@.len() + 1,
        forall|i: int| 0 <= i < r.names@.len() ==>
            (#[trigger] r.names@[i])@ == spec_name(config.cdls@, i),
        r.mu_data@.len() == spec_e_axis_len(config) * spec_f_axis_len(config),
        forall|idx: int| 0 <= idx < r.mu_data@.len() ==>
            (#[trigger] r.mu_data@[idx])@ == spec_eval_point(
                spec_ctx_of(config, noise@.map_values(|v: Vec<i64>| v@)),
                spec_e_val(config, idx / spec_f_axis_len(config)),
                spec_f_val(config, idx % spec_f_axis_len(config))),
{
    let ghost cfg = config;
    let ghost nz = noise@.map_values(|v: Vec<i64>| v@);

    let names = build_names(&config.cdls);
    let data = prepare_data(config.data, config.sample_size);
    let ghost dprep = spec_prepared_data(cfg.data@, cfg.sample_size);

    let mut tcats: Vec<usize> = Vec::new();
    let mut k: usize = 0;
    while k < data.len()
        invariant
            k <= data@.len(),
            tcats@.len() == k,
            forall|j: int| 0 <= j < k ==>
                #[trigger] tcats@[j] == spec_categorize(data@[j], config.cdls@) as usize,
        decreases data@.len() - k,
    {
        tcats.push(crate::categorize::categorize(data[k], &config.cdls));
        k = k + 1;
    }

    let model = SimulationModel::of_string(&config.model);
    let resampling = match model {
        SimulationModel::MuResampling | SimulationModel::ImpBiasResampling => true,
        _ => false,
    };
    let imp_bias = match model {
        SimulationModel::ImpBiasAnalytical | SimulationModel::ImpBiasResampling => true,
        _ => false,
    };
    proof {
        assert(resampling == spec_is_resampling(spec_model_of(cfg.model@)));
        assert(imp_bias == spec_is_imp_bias(spec_model_of(cfg.model@)));
    }

    let maxe: u64;
    let stepv: u64;
    if imp_bias {
        maxe = match config.max_imprecision {
            Some(v) => v,
            None => DEFAULT_MAX_IMPRECISION,
        };
        stepv = match config.step_size_imp_bias {
            Some(v) => v,
            None => DEFAULT_STEP_IMP_BIAS,
        };
    } else {
        maxe = match config.max_mu {
            Some(v) => v,
            None => DEFAULT_MAX_MU,
        };
        stepv = match config.step_size_mu {
            Some(v) => v,
            None => DEFAULT_STEP_MU,
        };
    }
    proof {
        assert(maxe as int == spec_max_e(cfg));
        assert(stepv as int == spec_step(cfg));
    }
    let e_axis = build_pos_axis(maxe, stepv);
    let f_axis: Vec<i64>;
    if imp_bias {
        let maxb = match config.max_bias {
            Some(v) => v,
            None => DEFAULT_MAX_BIAS,
        };
        proof {
            assert(maxb as int == spec_max_bias(cfg));
        }
        f_axis = build_bias_axis(maxb, stepv);
    } else {
        let mut single: Vec<i64> = Vec::new();
        single.push(0);
        f_axis = single;
    }
    proof {
        assert(e_axis@.len() == spec_e_axis_len(cfg));
        assert(f_axis@.len() == spec_f_axis_len(cfg));
        assert(forall|i: int| 0 <= i < e_axis@.len() ==>
            #[trigger] e_axis@[i] == spec_e_val(cfg, i));
        assert(forall|i: int| 0 <= i < f_axis@.len() ==>
            #[trigger] f_axis@[i] == spec_f_val(cfg, i));
    }

    let ncats = config.cdls.len() + 1;
    let cvi = match config.cv_i {
        Some(v) => v,
        None => 0,
    };
    let ctx = EvalContext {
        data: data,
        tcats: tcats,
        cdls: config.cdls,
        decimal_places: config.decimal_places,
        noise: noise,
        resampling: resampling,
        cvi: cvi,
        thresholds: config.agreement_thresholds,
        ncats: ncats,
    };
    proof {
        assert(ctx@.data == dprep);
        assert forall|j: int| 0 <= j < ctx@.tcats.len() implies
            #[trigger] ctx@.tcats[j] == spec_categorize(ctx@.data[j], ctx@.cdls) by {
            crate::categorize::lemma_categorize_total(ctx@.data[j], ctx@.cdls);
        }
        assert(ctx@.tcats =~= spec_ctx_of(cfg, nz).tcats);
        assert(ctx@ =~= spec_ctx_of(cfg, nz));
        assert forall|j: int| 0 <= j < ctx@.data.len() implies
            -VAL_MAX <= #[trigger] ctx@.data[j] <= VAL_MAX by {
            assert(cfg.data@.contains(ctx@.data[j]));
            let w = choose|w: int| 0 <= w < cfg.data@.len() && cfg.data@[w] == ctx@.data[j];
            assert(-VAL_MAX <= cfg.data@[w] <= VAL_MAX);
        }
        assert(wf_ctx(ctx@));
    }

    let elen = e_axis.len();
    let flen = f_axis.len();
    proof {
        assert((elen as int) * (flen as int) <= 830_000_000 && (elen as int) * (flen as int)
            >= flen as int) by (nonlinear_arith)
            requires 1 <= elen <= 20_001 && 1 <= flen <= 40_001;
    }
    let mut coords: Vec<(u64, i64)> = Vec::new();
    let mut a: usize = 0;
    while a < elen
        invariant
            wf_ctx(ctx@),
            a <= elen,
            elen == e_axis@.len() <= 20_001,
            flen == f_axis@.len() <= 40_001,
            flen >= 1,
            forall|i: int| 0 <= i < e_axis@.len() ==> #[trigger] e_axis@[i] <= 2_000_000_000,
            forall|i: int| 0 <= i < f_axis@.len() ==>
                -2_000_000_000 <= #[trigger] f_axis@[i] <= 2_000_000_000,
            coords@.len() == (a as int) * (flen as int),
            coords@.len() <= 830_000_000,
            forall|idx: int| 0 <= idx < coords@.len() ==>
                #[trigger] coords@[idx]
                    == (e_axis@[idx / (flen as int)], f_axis@[idx % (flen as int)]),
        decreases elen - a,
    {
        proof {
            assert((a as int) * (flen as int) + (flen as int) <= 830_000_000) by (nonlinear_arith)
                requires a < elen && elen <= 20_001 && 1 <= flen <= 40_001;
        }
        let mut b: usize = 0;
        while b < flen
            invariant
                wf_ctx(ctx@),
                a < elen,
                b <= flen,
                elen == e_axis@.len() <= 20_001,
                flen == f_axis@.len() <= 40_001,
                flen >= 1,
                forall|i: int| 0 <= i < e_axis@.len() ==> #[trigger] e_axis@[i] <= 2_000_000_000,
                forall|i: int| 0 <= i < f_axis@.len() ==>
                    -2_000_000_000 <= #[trigger] f_axis@[i] <= 2_000_000_000,
                coords@.len() == (a as int) * (flen as int) + b,
                (a as int) * (flen as int) + (flen as int) <= 830_000_000,
                forall|idx: int| 0 <= idx < coords@.len() ==>
                    #[trigger] coords@[idx]
                        == (e_axis@[idx / (flen as int)], f_axis@[idx % (flen as int)]),
            decreases flen - b,
        {
            proof {
                let idx = (a as int) * (flen as int) + b;
                vstd::arithmetic::div_mod::lemma_fundamental_div_mod_converse(
                    idx, flen as int, a as int, b as int);
            }
            coords.push((e_axis[a], f_axis[b]));
            b = b + 1;
        }
        proof {
            assert(((a as int) + 1) * (flen as int) == (a as int) * (flen as int) + (flen as int))
                by (nonlinear_arith);
            assert(((a as int) + 1) * (flen as int) + (flen as int) <= 830_000_000
                || (a as int) + 1 >= elen as int) by (nonlinear_arith)
                requires
                    1 <= flen <= 40_001,
                    a + 1 <= elen,
                    elen <= 20_001;
        }
        a = a + 1;
    }

    proof {
        assert forall|i: int| 0 <= i < coords@.len() implies
            (#[trigger] coords@[i]).0 <= 2_000_000_000
            && -2_000_000_000 <= coords@[i].1 <= 2_000_000_000 by {
            vstd::arithmetic::div_mod::lemma_div_pos_is_pos(i, flen as int);
            assert(i < (flen as int) * (elen as int)) by (nonlinear_arith)
                requires i < (elen as int) * (flen as int);
            vstd::arithmetic::div_mod::lemma_multiply_divide_lt(i, flen as int, elen as int);
            vstd::arithmetic::div_mod::lemma_mod_bound(i, flen as int);
        }
    }
    let points = par_eval_points(&ctx, &coords);
    proof {
        assert(coords@.len() == (elen as int) * (flen as int));
        assert(ctx@ == spec_ctx_of(cfg, nz));
        let fl = flen as int;
        assert(fl == spec_f_axis_len(cfg));
        assert forall|idx: int| 0 <= idx < points@.len() implies
            (#[trigger] points@[idx])@ == spec_eval_point(
                spec_ctx_of(cfg, nz),
                spec_e_val(cfg, idx / spec_f_axis_len(cfg)),
                spec_f_val(cfg, idx % spec_f_axis_len(cfg))) by {
            vstd::arithmetic::div_mod::lemma_div_pos_is_pos(idx, fl);
            assert(idx < fl * (elen as int)) by (nonlinear_arith)
                requires idx < (elen as int) * fl;
            vstd::arithmetic::div_mod::lemma_multiply_divide_lt(idx, fl, elen as int);
            vstd::arithmetic::div_mod::lemma_mod_bound(idx, fl);
            assert(coords@[idx] == (e_axis@[idx / fl], f_axis@[idx % fl]));
            assert(e_axis@[idx / fl] as int == spec_e_val(cfg, idx / fl));
            assert(f_axis@[idx % fl] as int == spec_f_val(cfg, idx % fl));
        }
    }
    SimulationResult { mu_data: points, names: names }
}

/// Law: determinism. Two results that both satisfy the run contract for one
/// configuration and one set of noise tables are identical, point for point
/// and name for name: the engine is a pure function of its inputs.
pub proof fn lemma_run_deterministic(
    c: SimulationConfig,
    nz: Seq<Seq<i64>>,
    r1: SimulationResult,
    r2: SimulationResult,
)
    requires
        r1.names@.len() == c.cdls@.len() + 1,
        r2.names@.len() == c.cdls@.len() + 1,
        forall|i: int| 0 <= i < r1.names@.len() ==>
            (#[trigger] r1.names@[i])@ == spec_name(c.cdls@, i),
        forall|i: int| 0 <= i < r2.names@.len() ==>
            (#[trigger] r2.names@[i])@ == spec_name(c.cdls@, i),
        r1.mu_data@.len() == spec_e_axis_len(c) * spec_f_axis_len(c),
        r2.mu_data@.len() == spec_e_axis_len(c) * spec_f_axis_len(c),
        forall|idx: int| 0 <= idx < r1.mu_data@.len() ==>
            (#[trigger] r1.mu_data@[idx])@ == spec_eval_point(
                spec_ctx_of(c, nz),
                spec_e_val(c, idx / spec_f_axis_len(c)),
                spec_f_val(c, idx % spec_f_axis_len(c))),
        forall|idx: int| 0 <= idx < r2.mu_data@.len() ==>
            (#[trigger] r2.mu_data@[idx])@ == spec_eval_point(
                spec_ctx_of(c, nz),
                spec_e_val(c, idx / spec_f_axis_len(c)),
                spec_f_val(c, idx % spec_f_axis_len(c))),
    ensures
        r1.mu_data@.len() == r2.mu_data@.len(),
        forall|idx: int| 0 <= idx < r1.mu_data@.len() ==>
            (#[trigger] r1.mu_data@[idx])@ == (#[trigger] r2.mu_data@[idx])@,
        forall|i: int| 0 <= i < r1.names@.len() ==>
            (#[trigger] r1.names@[i])@ == (#[trigger] r2.names@[i])@,
{
}

} // verus!
