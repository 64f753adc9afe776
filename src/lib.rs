//! Query resolution and time-series bucketing for a dashboard backend.
//!
//! A request names one metric and a time range; the library validates it,
//! normalizes the requested resolution, and turns the rows that storage hands
//! back into dense, gap-filled series or into a table.
pub mod time;
pub mod bucket;
pub mod query;
pub mod resolve;
