//! Maven-style dependency resolution for Java projects: artifact
//! coordinates, manifests with inherited properties and managed versions,
//! the dependency graph, and the resolver that fills it.

pub mod classpath;
pub mod client;
pub mod compiler;
pub mod config;
pub mod coordinate;
pub mod error;
pub mod graph;
pub mod ide;
pub mod incremental;
pub mod orchestrator;
pub mod platform;
pub mod pom;
pub mod pom_parser;
pub mod resolution;
pub mod resolve;
pub mod string_map;
pub mod test_runner;
pub mod text;
pub mod tree;
pub mod xml;
