//! Assembly of one PDF deliverable.

pub mod combiner;
pub mod location;
pub mod merger;
pub mod object;
pub mod toc;
