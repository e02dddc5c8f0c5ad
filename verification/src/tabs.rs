//! Tock application bundles.

pub mod tab;
