//! Incremental module-graph builder core: a worklist-driven build
//! orchestrator over a deduplicated module graph, an ordered extension
//! dispatcher with first-match-wins overrides, and a file-system change
//! classifier that turns raw event kinds into typed change records.

pub mod builder;
pub mod config;
pub mod module_graph;
pub mod plugin;
pub mod watch;
