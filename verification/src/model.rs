//! Model selection. The four simulation variants are chosen by exact string
//! match; an unrecognised string falls back to the first variant, preserving
//! the historical behaviour of the configuration surface (a fail-fast
//! rejection would be the hardened alternative).

use vstd::prelude::*;
use vstd::string::StringExecFns;

verus! {

#[derive(Clone, Copy, Debug, PartialEq, Eq, Structural)]
pub enum SimulationModel {
    MuAnalytical,
    MuResampling,
    ImpBiasAnalytical,
    ImpBiasResampling,
}

/// The variant selected by an exact match of the model string, if any.
pub open spec fn spec_model_from(s: Seq<char>) -> Option<SimulationModel> {
    if s == "Setting APS for measurement uncertainty - Analytical rerun simulation"@ {
        Some(SimulationModel::MuAnalytical)
    } else if s == "Setting APS for measurement uncertainty - Resampling simulation"@ {
        Some(SimulationModel::MuResampling)
    } else if s == "Setting APS for imprecision and bias - Analytical rerun simulation"@ {
        Some(SimulationModel::ImpBiasAnalytical)
    } else if s == "Setting APS for imprecision and bias - Resampling simulation"@ {
        Some(SimulationModel::ImpBiasResampling)
    } else {
        None
    }
}

/// The variant the engine runs for a model string: the exact match, or the
/// first variant as the fallback for an unrecognised string.
pub open spec fn spec_model_of(s: Seq<char>) -> SimulationModel {
    match spec_model_from(s) {
        Some(m) => m,
        None => SimulationModel::MuAnalytical,
    }
}

/// Whether the variant combines the sweep value with the inherent
/// coefficient of variation by root-sum-of-squares.
pub open spec fn spec_is_resampling(m: SimulationModel) -> bool {
    m is MuResampling || m is ImpBiasResampling
}

/// Whether the variant sweeps the bias axis as well as the imprecision axis.
pub open spec fn spec_is_imp_bias(m: SimulationModel) -> bool {
    m is ImpBiasAnalytical || m is ImpBiasResampling
}

impl SimulationModel {
    /// Parses a model string by exact match; `None` for anything else.
    pub fn from_str(s: &String) -> (r: Option<SimulationModel>)
        ensures
            r == spec_model_from(s@),
    {
        if *s == String::from_str(
            "Setting APS for measurement uncertainty - Analytical rerun simulation") {
            Some(SimulationModel::MuAnalytical)
        } else if *s == String::from_str(
            "Setting APS for measurement uncertainty - Resampling simulation") {
            Some(SimulationModel::MuResampling)
        } else if *s == String::from_str(
            "Setting APS for imprecision and bias - Analytical rerun simulation") {
            Some(SimulationModel::ImpBiasAnalytical)
        } else if *s == String::from_str(
            "Setting APS for imprecision and bias - Resampling simulation") {
            Some(SimulationModel::ImpBiasResampling)
        } else {
            None
        }
    }

    /// The variant for a model string, with the fallback to the first
    /// variant on an unrecognised string.
    pub fn of_string(s: &String) -> (r: SimulationModel)
        ensures
            r == spec_model_of(s@),
    {
        match SimulationModel::from_str(s) {
            Some(m) => m,
            None => SimulationModel::MuAnalytical,
        }
    }
}

} // verus!
