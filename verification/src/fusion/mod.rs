//! The run as a whole: progress, stage ordering and incremental conversion.

pub mod controller;
pub mod source;
pub mod state;
