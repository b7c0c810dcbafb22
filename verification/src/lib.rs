//! The decision logic of the services of a search engine: scheduling, caching, sorting,
//! query cost classification, maintenance state, accounting of metrics, profiling, and clusters for
//! tests.

pub mod bucket_selector;
pub mod cache;
pub mod clock;
pub mod cluster_sandbox;
pub mod dns;
pub mod maintenance;
pub mod metrics;
pub mod metrics_wrappers;
pub mod runtimes;
pub mod search;
pub mod serve;
pub mod sort;
pub mod stable_deref_bytes;
pub mod text;
pub mod thread_pool;
