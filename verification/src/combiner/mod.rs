//! Combining converted sources into one deliverable.

pub mod pdf;
pub mod rtf;
