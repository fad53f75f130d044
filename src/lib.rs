//! A registry of background jobs, polled without blocking.
//!
//! Each job is known by an identifier, the decimal form of a counter that
//! only grows. A job's result is handed out once; after that its identifier
//! is unknown to the registry.

pub mod ids;
pub mod jobs;
