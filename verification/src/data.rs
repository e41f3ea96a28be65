//! What comes in from outside: published archives and the weather outlook.

pub mod fetcher;
pub mod parser;
pub mod weather;
