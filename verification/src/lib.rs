//! Portfolio and currency valuation history over an ordered ledger of
//! discrete financial events.
//!
//! The crate has three cores: a fixed-point decimal number used for every
//! monetary quantity ([`decimal`]), a folder that turns an asset's
//! chronological operation log into point-in-time portfolio snapshots
//! ([`asset_stats`]), and a rate series that answers "rate as of" queries and
//! buckets irregular rate observations into a regular series for charting
//! ([`currency_stats`]).
//!
//! Around them stand the ledger's record types ([`model`]), the listing
//! records a presentation layer prints ([`view`]), and the shapes of the
//! command surface with their pure decisions ([`cli`]).
//!
//! Dates are plain `i64` timestamps (seconds); the surrounding program
//! converts its calendar types to and from them at the boundary.

pub mod asset_stats;
pub mod cli;
pub mod currency_stats;
pub mod decimal;
pub mod model;
pub mod view;
