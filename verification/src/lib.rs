//! One-way incremental mirroring of configured source directory trees into a
//! target namespace.
//!
//! This crate holds the decision core of the mirror: exclusion filtering,
//! source-to-target path remapping, the per-entry copy/skip decision, run
//! planning (directories before files), and the statistics kept over a run.
//! Paths travel through the core as byte vectors; all filesystem work is left
//! to the surrounding program, which hands observed metadata in and carries
//! the decided actions out.

pub mod bytes;
pub mod config;
pub mod engine;
pub mod exclude;
pub mod logname;
pub mod meta;
pub mod plan;
pub mod remap;
pub mod stats;
pub mod volume;
