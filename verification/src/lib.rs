//! A verified engine for aggregating a personal activity log into
//! multi-resolution time series.
//!
//! Free-text records of time intervals are parsed into activities; activities
//! are summarised, bucketed into calendar segments at five scales (day, week,
//! month, year, whole range), and turned into per-segment minute totals.  All
//! calendar arithmetic is carried out on a plain proleptic-Gregorian date
//! model so that every step of the pipeline is verified.

pub mod date;
pub mod text;
pub mod activity;
pub mod aggregates;
pub mod filter;
pub mod parser;
pub mod graph;

pub use date::Date;
pub use date::DateTime;
