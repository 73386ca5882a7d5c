//! Typed graph declarations and hierarchical statecharts, verified with Verus.

pub mod compile;
pub mod compiled;
pub mod config_fields;
pub mod diagnostics;
pub mod discrete;
pub mod expose;
pub mod formula;
pub mod frame;
pub mod graph;
pub mod ids;
pub mod instance;
pub mod indexmap_specs;
pub mod library;
pub mod node;
pub mod ordered;
pub mod pipeline;
pub mod plan;
pub mod registry;
pub mod run;
pub mod serialize;
pub mod signatures;
pub mod solve;
pub mod statechart;
pub mod text;
pub mod typing;
pub mod value;
