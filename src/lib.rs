//! Metrics acquisition and aggregation engine for a terminal system monitor.
//!
//! The engine works on plain values that its caller reads from the host: the
//! text of sensor files, the output of the GPU query tool and of the log
//! query, and counters and usage figures. It keeps a bounded history per
//! metric and decides which readings count. Figures are integers in
//! thousandths of their unit (percent, degrees Celsius, kilobits per second).
//!
//! - `history`: fixed-capacity FIFO sample series.
//! - `sensors`: package and per-core CPU temperatures.
//! - `network`: byte counters turned into rates and session totals.
//! - `gpu`: GPU telemetry with a two-tier query fallback.
//! - `gpu_procs`: GPU processes merged by pid from three listings.
//! - `processes`: the filtered, sorted, bounded process table.
//! - `journal`: the cached system log and list cursors.
//! - `metrics`: the per-tick aggregator.
//! - `schedule`: when each refresh is due.
//! - `sorting`: stable ordering by insertion.
//! - `text`, `units`: parsing and formatting.
pub mod gpu;
pub mod gpu_procs;
pub mod history;
pub mod journal;
pub mod metrics;
pub mod network;
pub mod processes;
pub mod schedule;
pub mod sensors;
pub mod sorting;
pub mod text;
pub mod units;
