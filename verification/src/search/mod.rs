//! Search: classification of queries, sort values, and collection of the best hits.

pub mod metrics_trackers;
pub mod query_cost_classifier;
pub mod sort_repr;
pub mod top_k_collector;
