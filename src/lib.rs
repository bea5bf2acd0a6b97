//! Asset-aware aggregation and formatting of supply and deposit statistics.
pub mod amount;
pub mod asset;
pub mod registry;
pub mod supply;
pub mod present;
