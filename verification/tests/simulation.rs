use aps_simulation::{
    band_of, find_column, build_bias_axis, build_names, build_pos_axis, categorize, make_ratio, perturb,
    prepare_data, rep_seeds, round_to, run_simulation, should_notify, AgreementThresholds, Band,
    Ratio, SimulationConfig, SimulationModel,
};
use rand::{RngExt, SeedableRng};

const MU_ANALYTICAL: &str =
    "Setting APS for measurement uncertainty - Analytical rerun simulation";

fn fx(v: f64) -> i64 {
    (v * 1_000_000.0).round() as i64
}

fn noise_tables(len: usize) -> Vec<Vec<i64>> {
    let seeds = rep_seeds();
    let mut tables = Vec::new();
    for seed in seeds {
        let mut rng = rand::rngs::StdRng::seed_from_u64(seed);
        let mut row = Vec::new();
        for _ in 0..len {
            let draw: f64 = rng.sample(rand_distr::StandardNormal);
            let scaled = (draw * 1_000_000.0).round() as i64;
            row.push(scaled.clamp(-1_000_000_000, 1_000_000_000));
        }
        tables.push(row);
    }
    tables
}

fn base_config() -> SimulationConfig {
    SimulationConfig {
        model: MU_ANALYTICAL.to_string(),
        data: vec![fx(100.0), fx(102.0), fx(98.0), fx(101.0), fx(99.0)],
        cdls: vec![fx(100.0)],
        decimal_places: 0,
        agreement_thresholds: AgreementThresholds {
            min: fx(90.0) as u64,
            des: fx(95.0) as u64,
            opt: fx(99.0) as u64,
        },
        cv_i: None,
        sample_size: None,
        max_imprecision: None,
        max_bias: None,
        max_mu: None,
        step_size_mu: None,
        step_size_imp_bias: None,
    }
}

#[test]
fn test_simulation_run() {
    let config = base_config();
    let noise = noise_tables(config.data.len());
    let output = run_simulation(config, noise);
    assert!(!output.mu_data.is_empty());

    let zero_point = output
        .mu_data
        .iter()
        .find(|p| p.mu == 0 && p.bias == 0)
        .unwrap();
    assert_eq!(zero_point.agreement.num, zero_point.agreement.den);
    assert!(zero_point.agreement.den > 0);
}

#[test]
fn zero_point_scenario_all_metrics_perfect() {
    let config = base_config();
    let noise = noise_tables(config.data.len());
    let output = run_simulation(config, noise);

    // Default mu sweep: round(33.1 / 0.1) + 1 values, one bias value.
    assert_eq!(output.mu_data.len(), 332);
    assert_eq!(output.names.len(), 2);

    let zero = &output.mu_data[0];
    assert_eq!(zero.mu, 0);
    assert_eq!(zero.bias, 0);
    assert_eq!(zero.agreement.num, zero.agreement.den);
    assert_eq!(zero.sensitivity, zero.agreement);
    assert_eq!(zero.specificity.num, zero.specificity.den);
    assert!(zero.specificity.den > 0);
    assert_eq!(zero.sublevel_agreement.len(), 2);
    assert_eq!(zero.sublevel_sensitivity.len(), 2);
    assert_eq!(zero.sublevel_specificity.len(), 2);
    for i in 0..2 {
        assert_eq!(zero.sublevel_sensitivity[i].num, zero.sublevel_sensitivity[i].den);
        assert_eq!(zero.sublevel_specificity[i].num, zero.sublevel_specificity[i].den);
    }
    assert_eq!(zero.agreement_cat, Band::AtLeastOptimal);
}

#[test]
fn identical_runs_give_identical_results() {
    let noise = noise_tables(5);
    let r1 = run_simulation(base_config(), noise.clone());
    let r2 = run_simulation(base_config(), noise);
    assert_eq!(r1.names, r2.names);
    assert_eq!(r1.mu_data.len(), r2.mu_data.len());
    for (a, b) in r1.mu_data.iter().zip(r2.mu_data.iter()) {
        assert_eq!(a.mu, b.mu);
        assert_eq!(a.bias, b.bias);
        assert_eq!(a.agreement, b.agreement);
        assert_eq!(a.sensitivity, b.sensitivity);
        assert_eq!(a.specificity, b.specificity);
        assert_eq!(a.agreement_cat, b.agreement_cat);
        assert_eq!(a.sensitivity_cat, b.sensitivity_cat);
        assert_eq!(a.specificity_cat, b.specificity_cat);
        assert_eq!(a.sublevel_agreement, b.sublevel_agreement);
        assert_eq!(a.sublevel_sensitivity, b.sublevel_sensitivity);
        assert_eq!(a.sublevel_specificity, b.sublevel_specificity);
    }
}

#[test]
fn zero_instance_category_has_zero_sensitivity() {
    // Every value is above the single decision limit, so category 0 (below
    // the limit) has no true instances.
    let mut config = base_config();
    config.data = vec![fx(200.0), fx(300.0)];
    let noise = vec![vec![0; 2]; 10];
    let output = run_simulation(config, noise);
    let zero = &output.mu_data[0];
    assert_eq!(zero.sublevel_sensitivity[0], Ratio { num: 0, den: 1 });
    // Specificity of the empty category is built from true negatives and
    // false positives alone: denominator 10 * population.
    assert_eq!(zero.sublevel_specificity[0].den, 20);
    assert_eq!(zero.sublevel_specificity[0].num, 20);
}

#[test]
fn subsampling_is_deterministic() {
    let data: Vec<i64> = vec![fx(1.0), fx(2.0), fx(3.0), fx(4.0), fx(5.0)];
    let a = prepare_data(data.clone(), Some(3));
    let b = prepare_data(data.clone(), Some(3));
    assert_eq!(a, b);
    assert_eq!(a.len(), 3);
    for v in &a {
        assert!(data.contains(v));
    }
    let full = prepare_data(data.clone(), Some(9));
    assert_eq!(full, data);
    let untouched = prepare_data(data.clone(), None);
    assert_eq!(untouched, data);
}

#[test]
fn categorize_is_total_and_closed_on_the_left() {
    let cdls = vec![fx(100.0), fx(200.0)];
    assert_eq!(categorize(i64::MIN, &cdls), 0);
    assert_eq!(categorize(fx(99.999999), &cdls), 0);
    assert_eq!(categorize(fx(100.0), &cdls), 1);
    assert_eq!(categorize(fx(150.0), &cdls), 1);
    assert_eq!(categorize(fx(200.0), &cdls), 2);
    assert_eq!(categorize(i64::MAX, &cdls), 2);
    let empty: Vec<i64> = vec![];
    assert_eq!(categorize(fx(1.0), &empty), 0);
}

#[test]
fn rounding_is_idempotent_at_target_precision() {
    // 100.5 at one decimal place is already at precision.
    assert_eq!(round_to(fx(100.5), 1), fx(100.5));
    assert_eq!(round_to(fx(-3.25), 2), fx(-3.25));
    // Half away from zero.
    assert_eq!(round_to(fx(100.45), 1), fx(100.5));
    assert_eq!(round_to(fx(-100.45), 1), fx(-100.5));
    assert_eq!(round_to(fx(2.5), 0), fx(3.0));
    // Rounding twice equals rounding once.
    assert_eq!(round_to(round_to(fx(7.7777), 2), 2), round_to(fx(7.7777), 2));
}

#[test]
fn perturb_without_noise_scale_or_bias_rounds_only() {
    assert_eq!(perturb(fx(100.0), fx(1.5), 0, 0, 0), fx(100.0));
    assert_eq!(perturb(fx(99.6), fx(-2.0), 0, 0, 0), fx(100.0));
    // 10% bias on 100 gives 110.
    assert_eq!(perturb(fx(100.0), 0, 0, fx(10.0), 0), fx(110.0));
    // noise draw 1.0 at 10% scale on 100 gives 110.
    assert_eq!(perturb(fx(100.0), fx(1.0), fx(10.0) as u64, 0, 0), fx(110.0));
}

#[test]
fn bias_axis_is_symmetric_with_single_zero() {
    let axis = build_bias_axis(35_000_000, 1_000_000);
    assert_eq!(axis.len(), 71);
    assert_eq!(axis.len() % 2, 1);
    assert_eq!(axis[35], 0);
    assert_eq!(axis.iter().filter(|v| **v == 0).count(), 1);
    for i in 0..axis.len() {
        assert_eq!(axis[axis.len() - 1 - i], -axis[i]);
    }
    assert_eq!(axis[0], -35_000_000);
    assert_eq!(axis[70], 35_000_000);
}

#[test]
fn positive_axis_counts_steps_by_rounding() {
    let axis = build_pos_axis(33_100_000, 100_000);
    assert_eq!(axis.len(), 332);
    assert_eq!(axis[0], 0);
    assert_eq!(axis[1], 100_000);
    assert_eq!(axis[331], 33_100_000);
}

#[test]
fn model_strings_select_variants_with_fallback() {
    let m1 = String::from(MU_ANALYTICAL);
    let m2 = String::from("Setting APS for measurement uncertainty - Resampling simulation");
    let m3 = String::from("Setting APS for imprecision and bias - Analytical rerun simulation");
    let m4 = String::from("Setting APS for imprecision and bias - Resampling simulation");
    assert_eq!(SimulationModel::from_str(&m1), Some(SimulationModel::MuAnalytical));
    assert_eq!(SimulationModel::from_str(&m2), Some(SimulationModel::MuResampling));
    assert_eq!(SimulationModel::from_str(&m3), Some(SimulationModel::ImpBiasAnalytical));
    assert_eq!(SimulationModel::from_str(&m4), Some(SimulationModel::ImpBiasResampling));
    let unknown = String::from("anything else");
    assert_eq!(SimulationModel::from_str(&unknown), None);
    assert_eq!(SimulationModel::of_string(&unknown), SimulationModel::MuAnalytical);
}

#[test]
fn category_names_render_fixed_point_limits() {
    let names = build_names(&vec![fx(100.0)]);
    assert_eq!(names, vec!["<100".to_string(), "≥100".to_string()]);
    let names = build_names(&vec![fx(99.5), fx(200.0)]);
    assert_eq!(
        names,
        vec![
            "<99.5".to_string(),
            "≥99.5 and <200".to_string(),
            "≥200".to_string()
        ]
    );
    let names = build_names(&vec![fx(-1.25)]);
    assert_eq!(names, vec!["<-1.25".to_string(), "≥-1.25".to_string()]);
}

#[test]
fn banding_uses_ascending_thresholds() {
    let t = AgreementThresholds {
        min: fx(90.0) as u64,
        des: fx(95.0) as u64,
        opt: fx(99.0) as u64,
    };
    assert_eq!(band_of(&make_ratio(100, 100), &t), Band::AtLeastOptimal);
    assert_eq!(band_of(&make_ratio(99, 100), &t), Band::AtLeastOptimal);
    assert_eq!(band_of(&make_ratio(98, 100), &t), Band::AtLeastDesired);
    assert_eq!(band_of(&make_ratio(95, 100), &t), Band::AtLeastDesired);
    assert_eq!(band_of(&make_ratio(94, 100), &t), Band::AtLeastMin);
    assert_eq!(band_of(&make_ratio(90, 100), &t), Band::AtLeastMin);
    assert_eq!(band_of(&make_ratio(89, 100), &t), Band::BelowMin);
    // Zero denominator is the zero metric.
    assert_eq!(band_of(&make_ratio(7, 0), &t), Band::BelowMin);
}

#[test]
fn progress_notifications_are_throttled() {
    assert!(should_notify(50, 332));
    assert!(should_notify(100, 332));
    assert!(!should_notify(49, 332));
    assert!(!should_notify(331, 332));
    assert!(should_notify(332, 332));
}

#[test]
fn repetition_seeds_are_fixed() {
    let seeds = rep_seeds();
    assert_eq!(seeds.len(), 10);
    assert_eq!(seeds[0], 1235);
    assert_eq!(seeds[9], 1244);
}

#[test]
fn imp_bias_model_sweeps_symmetric_bias_axis() {
    let mut config = base_config();
    config.model =
        String::from("Setting APS for imprecision and bias - Analytical rerun simulation");
    config.data = vec![fx(100.0), fx(102.0)];
    config.max_imprecision = Some(2_000_000);
    config.max_bias = Some(2_000_000);
    config.step_size_imp_bias = Some(1_000_000);
    let noise = noise_tables(2);
    let output = run_simulation(config, noise);
    // 3 imprecision values, 5 bias values, bias-minor order.
    assert_eq!(output.mu_data.len(), 15);
    let biases: Vec<i64> = output.mu_data.iter().take(5).map(|p| p.bias).collect();
    assert_eq!(biases, vec![-2_000_000, -1_000_000, 0, 1_000_000, 2_000_000]);
    assert!(output.mu_data.iter().take(5).all(|p| p.mu == 0));
    assert_eq!(output.mu_data[5].mu, 1_000_000);
}

#[test]
fn find_column_returns_first_match_or_none() {
    let headers = vec![
        "id".to_string(),
        "value".to_string(),
        "value".to_string(),
    ];
    assert_eq!(find_column(&headers, "value"), Some(1));
    assert_eq!(find_column(&headers, "id"), Some(0));
    assert_eq!(find_column(&headers, "missing"), None);
    let empty: Vec<String> = vec![];
    assert_eq!(find_column(&empty, "id"), None);
}
