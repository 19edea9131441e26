//! A small memory and timing benchmark: a fixed allocate-fill-reduce workload,
//! argument parsing, the dispatch state machine and the memory report.
pub mod args;
pub mod dispatch;
pub mod report;
pub mod workload;
