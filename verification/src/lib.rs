//! Estimates the programming-language composition of a directory tree.
//!
//! The tree walk, configuration files and output files are the caller's
//! business: the library takes the walked entries as plain values, classifies
//! each file by its name and extension, sums byte sizes per language, turns
//! the sums into fixed-point percentages (hundredths of a percent, so that
//! the arithmetic stays exact), collapses small languages into an "Other"
//! bucket, and renders the result as SVG or HTML markup.

pub mod strutil;
pub mod config;
pub mod classify;
pub mod aggregate;
pub mod stats;
pub mod render;
pub mod cache;
pub mod analyze;
