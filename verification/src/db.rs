//! The store: users, price history, forecasts and the log of sent alerts.

pub mod laws;
pub mod model;
pub mod repository;
pub mod rows;

pub use repository::Db;
pub use rows::{DailyStats, User};
