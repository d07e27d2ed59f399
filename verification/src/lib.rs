//! Core of a currency and cryptocurrency rate converter.
//!
//! The library turns two market-data feeds (a fiat exchange-rate table and a
//! cryptocurrency price list) into exact cross rates between any two currency
//! symbols, and decides when locally cached feed data is stale.  Rates are
//! kept as exact rationals built from decimal strings, so every conversion is
//! specified and proved without floating point; the thin I/O shell around the
//! library converts the final rational to a float for display.

use vstd::prelude::*;

pub mod decimal;
pub mod payload;
pub mod query;
pub mod resolver;
pub mod store;
pub mod tables;

verus! {

} // verus!
