//! A verified screener for the "Momentum, Volume, Price" (MVP) pattern.
//!
//! Raw per-symbol, per-date price/volume observations are aggregated into
//! fixed 15-slot series (newest first, zero-padded), each series is scored
//! against the three-factor rule with exact rational arithmetic, and the
//! matching symbols are assembled into a report message.

pub mod decimal;
pub mod series;
pub mod screen;
pub mod aggregate;
pub mod report;
