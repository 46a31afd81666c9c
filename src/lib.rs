//! Work partitioning and result aggregation for a concurrent TCP port scanner.
//!
//! The port space `1..=65535` is split among `n` workers by interleaving: worker
//! `i` probes `i + 1, i + 1 + n, i + 1 + 2n, ...`. The open ports that workers
//! report are collected and sorted into the final report. The command line
//! names the target address and the number of workers.

pub mod partition;
pub mod report;
pub mod args;
