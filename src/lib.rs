//! Cutting and padding text to a number of terminal columns, without ever
//! splitting a grapheme cluster.
//!
//! A text is taken as its sequence of grapheme clusters, each with the
//! display width that unicode-width gives it. Truncation keeps a contiguous
//! run of whole clusters whose width fits the budget, taken from the start,
//! from the end, or from the middle.
pub mod engine;
pub mod center;
pub mod units;
pub mod truncate;
pub mod laws;

pub use truncate::{Alignment, UnicodeTruncateStr};
