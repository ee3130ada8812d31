//! What a run is asked to do: the manifest and what is derived from it.

pub mod combine;
pub mod convert;
pub mod param;
pub mod repo;
pub mod utils;
