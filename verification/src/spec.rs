//! Experiment specification: datasets and per-algorithm sweep blocks whose
//! Cartesian product is the experiment matrix.
use vstd::prelude::*;

use crate::config::{
    algorithm_name, EstSweepAxes, HapSweepAxes, HorizonOverride, MultiCursorSweepAxes,
};

verus! {

/// One input dataset of a specification.
#[derive(Debug, Clone)]
pub struct DatasetEntry {
    /// Filesystem-safe slug, the first component of every cell id.
    pub id: String,
    /// Path to the scheduling-problem JSON.
    pub path: String,
    /// Optional human-readable label.
    pub label: Option<String>,
    /// Optional horizon override for this dataset.
    pub horizon_override: Option<HorizonOverride>,
}

/// Per-algorithm sweep block.
#[derive(Debug, Clone)]
pub enum AlgorithmSweep {
    Est { axes: EstSweepAxes },
    Hap { axes: HapSweepAxes },
    Lst { axes: EstSweepAxes },
    MultiCursor { axes: MultiCursorSweepAxes },
}

impl AlgorithmSweep {
    /// 0 for EST, 1 for HAP, 2 for LST, 3 for multi-cursor.
    pub open spec fn kind(self) -> nat {
        match self {
            AlgorithmSweep::Est { .. } => 0,
            AlgorithmSweep::Hap { .. } => 1,
            AlgorithmSweep::Lst { .. } => 2,
            AlgorithmSweep::MultiCursor { .. } => 3,
        }
    }

    /// `"est"`, `"hap"`, `"lst"` or `"multi_cursor"`.
    pub fn algorithm(&self) -> (s: &'static str)
        ensures
            s@ == algorithm_name(self.kind()),
    {
        match self {
            AlgorithmSweep::Est { .. } => "est",
            AlgorithmSweep::Hap { .. } => "hap",
            AlgorithmSweep::Lst { .. } => "lst",
            AlgorithmSweep::MultiCursor { .. } => "multi_cursor",
        }
    }
}

/// A specification: ordered datasets and ordered sweep blocks.
#[derive(Debug, Clone)]
pub struct ExperimentSpec {
    /// Human-readable experiment name.
    pub name: String,
    pub datasets: Vec<DatasetEntry>,
    pub algorithms: Vec<AlgorithmSweep>,
    /// Maximum number of cells run at once; absent means one per CPU.
    pub max_parallel: Option<usize>,
    /// Accepted for older specifications and otherwise unused.
    pub output_dir: Option<String>,
}

} // verus!
