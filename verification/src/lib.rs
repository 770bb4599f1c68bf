//! A text-statistics counter in the manner of the classic `wc` utility:
//! byte streams are consumed chunk by chunk, and per-source counts of line
//! terminators, whitespace-delimited words, bytes and decoded characters
//! are accumulated, with word boundaries and multibyte character encodings
//! tracked correctly across chunk edges.

pub mod args;
pub mod count;
pub mod format;
pub mod scan;
