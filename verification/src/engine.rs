//! The engine: what to alert on, and when to fetch.

pub mod analyzer;
pub mod scheduler;
