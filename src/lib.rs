//! Aggregation and scoring engine for fitness activities.
//!
//! Quantities are held in fixed point: distances and climbs in metres, paces in
//! hundredths of the `minutes.seconds` encoding (530 is 5:30 per km), speeds in
//! hundredths of km/h, calories in kcal.

pub mod activity;
pub mod advanced;
pub mod basic;
pub mod buckets;
pub mod calendar;
pub mod grouping;
pub mod ranking;
pub mod scoring;
pub mod stats;
pub mod streak;
pub mod variance;
