//! Core of an expense-splitting service: equal-split share calculation,
//! expense assembly and patching, and per-group balance aggregation.
//!
//! Money amounts are decimal strings with exactly two fractional digits;
//! internally every amount is an exact number of cents.

pub mod money;
pub mod service;
