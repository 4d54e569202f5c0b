//! A verified scoring and drift-detection engine for public-meeting records.
//!
//! The engine turns a motion's text, its linked evidence tags, and a recorded
//! vote choice into a bounded, reproducible numeric judgment, aggregates those
//! judgments per official, and flags statistically anomalous shifts ("drift")
//! against an official's own history.
//!
//! All scores are fixed-point numbers carried as `i64` milli-points
//! (`1000 == 1.0`), so every arithmetic step is exact and verified.

pub mod drift;
pub mod fixed;
pub mod laws;
pub mod report;
pub mod rubric;
pub mod schema;
pub mod scoring;
pub mod site;
pub mod tags;
pub mod text;
pub mod vault;
pub mod window;
