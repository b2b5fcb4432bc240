//! Decision logic of `cargo bench-compare`, a tool that benchmarks two git
//! revisions of a Rust workspace against each other.
pub mod builder;
pub mod bytes;
pub mod candidates;
pub mod clean;
pub mod cli;
pub mod cpus;
pub mod criterion;
pub mod git;
pub mod governor;
pub mod isolation;
pub mod json;
pub mod numbers;
pub mod order;
pub mod paths;
pub mod patterns;
pub mod progress;
pub mod report;
pub mod runner;
pub mod session;
pub mod stats;
pub mod text;
pub mod workspace;
