//! Range-partitioned, resumable extraction of blockchain ledger data.
//!
//! The library plans an extraction run over an inclusive block interval:
//! it splits the interval into grid-aligned tiles, subtracts the ranges a
//! prior run already persisted, drives each remaining segment through a
//! retrying fetch state machine under a bounded-concurrency scheduler, and
//! aggregates the fetched records into tabular rows ready for export.

pub mod cli_parser;
pub mod datasets;
pub mod endpoint;
pub mod error;
pub mod export;
pub mod fetch;
pub mod files;
pub mod numbers;
pub mod orchestrator;
pub mod ranges;
pub mod schema;
pub mod text;
