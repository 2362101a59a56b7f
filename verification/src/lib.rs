//! A verified task-orchestration engine for scaffolding projects.
//!
//! The core of the crate is a dependency-graph task executor: a workflow
//! (framework setup, module installations, a trailing cleanup) is wired into
//! a validated task graph and driven to completion round by round, with
//! cascading-failure propagation, checkpoint-based resumption and weighted
//! progress reporting. Everything that touches the outside world (running
//! commands, reading the module catalog, persisting checkpoint files,
//! broadcasting events) is kept behind plain values so that the scheduling,
//! validation and state logic is verified.

pub mod catalog;
pub mod command_runner;
pub mod counting;
pub mod executor;
pub mod generation;
pub mod graph;
pub mod laws;
pub mod node_commands;
pub mod project;
pub mod state;
pub mod store;
pub mod strutil;
pub mod tasks;
