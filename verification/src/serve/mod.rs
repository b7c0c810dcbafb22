//! What the REST API answers.

pub mod indexing_api;
pub mod pprof;
