//! Ranking and selection pipeline for an interactive item picker.
//!
//! The library keeps, for every selectable item, a usage score that decays
//! over time and is boosted each time the item is chosen ("frecency"); it
//! matches a live query string fuzzily against each item's display text;
//! it merges the two scores into one deterministic ordering; it gates the
//! delivery of ranked views by a query revision counter so a stale result
//! can never overwrite a fresher one; and it drives the commit of a
//! selection as a small state machine so the external action runs at most
//! once per choice.
//!
//! All scores are integer fixed-point values: one use contributes a
//! configured bonus, and a score halves after each half-life.

pub mod catalog;
pub mod config;
pub mod control;
pub mod decay;
pub mod matcher;
pub mod rank;
pub mod recency;
pub mod session;
