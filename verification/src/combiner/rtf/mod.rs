//! Concatenation of RTF sources.

pub mod combiner;
