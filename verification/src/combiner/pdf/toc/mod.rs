//! The table of contents of a PDF deliverable.

pub mod render;
