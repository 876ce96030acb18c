//! Benchmark-execution pipeline for coding-agent evaluations: example
//! selection, repository deduplication, phased scheduling, and
//! order-independent aggregation of scores and tool metrics.

pub mod metrics;
pub mod results;
pub mod judge;
pub mod pipeline;
pub mod registry;
pub mod repos;
pub mod model;
pub mod report;
pub mod render;
