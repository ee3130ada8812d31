//! The convert stage.

pub mod controller;
