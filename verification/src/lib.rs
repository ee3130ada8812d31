//! Document fusion: the rules that turn a manifest of RTF sources into
//! per-task deliverables, together with the proofs that those rules hold.
//!
//! A run converts the sources of its PDF deliverables, then combines: PDF
//! deliverables are assembled behind a cover and a table of contents, RTF
//! deliverables are concatenated. This crate decides; reading, writing,
//! threads and external programs are left to the caller, who hands in what
//! was found and carries out what is asked for.

pub mod combiner;
pub mod config;
pub mod converter;
pub mod fusion;
pub mod pool;
pub mod text;
pub mod top;
