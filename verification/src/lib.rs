//! Orchestration and image-formation pipeline for a Monte-Carlo
//! electron-beam scattering simulator.
//!
//! The crate validates simulation parameters, manages a FIFO job queue,
//! turns the engine's raw intensity grids into 8-bit grayscale rasters
//! (normalization, transfer curve, optional lookup table, bounded
//! downscaling), and encodes the result as a PNG with the parameters
//! embedded as text metadata.

pub mod engine;
pub mod export;
pub mod formation;
pub mod manager;
pub mod materials;
pub mod parameters;
pub mod results;
pub mod units;
