//! Reconciliation core of a declarative environment-configuration engine:
//! desired-state items, the provider registry, prerequisite resolution, the
//! Plan/Check/Apply decision loop, and the probe dependency-graph evaluator.

pub mod item;
pub mod text;
pub mod requirement;
mod externs;
pub mod registry;
pub mod runner;
pub mod run_model;
pub mod probe;
pub mod probe_graph;
pub mod probe_eval;
pub mod util;
pub mod assertion;
pub mod service;
pub mod expand;
