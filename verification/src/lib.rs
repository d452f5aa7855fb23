//! Fragment-size analytics for paired-end alignment records.
//!
//! The library classifies records by the absolute value of their insert size:
//! a two-sided filter, streaming summary statistics, a per-value histogram,
//! a router over an ordered list of size ranges, and the reduction of a read
//! pair to a three-column genomic interval.

pub mod fragment;
pub mod text;
pub mod error;
pub mod summary;
pub mod hist;
pub mod range;
pub mod split;
pub mod filter;
pub mod convert;
pub mod input;
