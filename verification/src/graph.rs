//! The charting pipeline: temporal scales, calendar segments per scale,
//! per-segment minute series, and the orchestrating graph state.

pub mod scale;
pub mod ui;
pub mod x_segments;
pub mod y_activities;
