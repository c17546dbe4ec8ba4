//! Latency statistics for the peers of a node: a bounded window of recent
//! samples per peer, and exact integer summaries of each window.

pub mod fit;
pub mod reduce;
pub mod report;
pub mod span;
pub mod stats;
pub mod store;
pub mod wide;
pub mod window;

pub use reduce::durations_error_with_ci;
pub use reduce::durations_mean;
pub use reduce::durations_std_dev;
pub use stats::Stats;
pub use store::SampleStore;
pub use window::PushLossy;
