//! Ingestion-and-alerting engine for wholesale electricity spot prices of the
//! five regions of the national electricity market.
//!
//! Prices are fixed-point integers, times are whole seconds, and every
//! decision of the engine is a function from plain values to plain values
//! whose contract is proved.

pub mod text;
pub mod numeral;
pub mod price;
pub mod clock;
pub mod config;
pub mod db;
pub mod data;
pub mod bot;
pub mod engine;
