//! Fixed-point simulation engine for allowable-performance-specification
//! studies: given a measurement population and clinical decision limits, it
//! sweeps uncertainty/bias grid points, perturbs the population, and reports
//! how often the perturbed results keep their true category.
//!
//! All real quantities are carried as fixed-point integers with six decimal
//! places (`SCALE` units), so every step of the pipeline is exact integer
//! arithmetic with stated contracts.

pub mod categorize;
pub mod engine;
pub mod fixed;
pub mod grid;
pub mod laws;
pub mod metrics;
pub mod model;
pub mod sim;
pub mod table;
pub mod names;

pub use categorize::categorize;
pub use engine::{EvalContext, SimulationPoint, CAT_MAX, LEN_MAX, REPS};
pub use fixed::{perturb, round_to, SCALE};
pub use grid::{build_bias_axis, build_pos_axis};
pub use metrics::{band_of, make_ratio, AgreementThresholds, Band, Ratio};
pub use model::SimulationModel;
pub use sim::{prepare_data, run_simulation, progress_percent, rep_seeds, should_notify, SimulationConfig, SimulationResult, DEFAULT_MAX_BIAS, DEFAULT_MAX_IMPRECISION, DEFAULT_MAX_MU, DEFAULT_STEP_IMP_BIAS, DEFAULT_STEP_MU, SEED_BASE, SHUFFLE_SEED};
pub use names::build_names;
pub use table::find_column;
