//! Experiment matrices, run identities and registry queries for scheduler
//! sweeps.
use vstd::prelude::*;

pub mod artifact;
mod axis_sets;
pub mod blocks;
pub mod cell;
pub mod config;
pub mod export;
pub mod identity;
pub mod migrate;
pub mod observatory;
pub mod order;
pub mod output;
pub mod publish;
pub mod query;
pub mod ranking;
pub mod registry;
pub mod runner;
pub mod schedule_hash;
pub mod scoring;
pub mod spec;
pub mod state;
pub mod sweep;
pub mod table;
pub mod text;

verus! {

} // verus!
