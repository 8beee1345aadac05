//! Heuristic scanner for two-dimensional calibration lookup tables embedded
//! in raw binary images (e.g. firmware dumps).
//!
//! A table region is a short header declaring the two axis lengths, a
//! monotonic X-axis, and one row block per Y-axis entry, each block led by a
//! monotonic Y-axis marker byte. The library provides the geometry
//! calculator, the candidate view, the monotonicity validator, the sliding
//! window scanner with skip-ahead suppression, and the stable reporting sort.
//! Reading the image, logging and rendering are left to the caller.

pub mod geometry;
pub mod resultset;
pub mod scan;
pub mod table;
pub mod validate;
