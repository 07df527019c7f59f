//! Reward batches drawn at random from a fixed catalog of recipes, with a
//! load-once asset cache and a prefetch pipeline that warms the next batch
//! while the current one is shown.

pub mod sampler;
pub mod cache;
pub mod catalog;
pub mod pipeline;
pub mod session;
pub mod table;
