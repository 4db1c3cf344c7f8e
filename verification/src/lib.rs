//! Verified core of a sleep-latency micro-benchmark.
//!
//! The library holds the decision and reduction logic of the benchmark:
//! parsing the sysfs frequency list, deciding whether a requested frequency
//! is usable, reducing cycle-count samples to a mean and a tail percentile,
//! modelling the governor/frequency save-and-restore discipline, and the
//! run state machine that sequences the experiment.  Reading and writing
//! the sysfs files, thread pinning and the timed sleeps themselves live in
//! the surrounding binary, which hands this library plain values.

pub mod driver;
pub mod parse;
pub mod power;
pub mod probe;
pub mod stats;

pub use parse::parse_u32;
pub use probe::core_available;
