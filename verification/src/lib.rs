//! A small text-repetition library: repeat a string a signed number of
//! times, optionally joined by a separator, with backslash-escape
//! interpretation and character-level reversal for negative counts.

pub mod cli;
pub mod count;
pub mod opts;
pub mod text;
