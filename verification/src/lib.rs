//! Verified core logic of a lifelong multi-agent pickup-and-delivery
//! simulator: grid cells, task legs, task schedulers, goal recycling,
//! throughput bookkeeping and differential run metrics.

pub mod grid;
pub mod rng;
pub mod task;
pub mod schedulers;
pub mod lifelong;
pub mod recycle;
pub mod metrics;
pub mod lacam3;
pub mod cli;
pub mod graphics;
pub mod watch;
