//! Ten-year equity price forecasts from household stock allocation.
//!
//! Quarterly allocation observations are aligned with daily index prices by
//! date, and every aligned pair is projected ten calendar years ahead.

pub mod align;
pub mod date;
pub mod project;
pub mod record;
pub mod select;
pub mod symbol;
