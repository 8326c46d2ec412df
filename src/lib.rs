//! Deterministic terrain synthesis and hydrological analysis.
//!
//! The library builds an elevation grid from a handful of parameters,
//! stores it in a compact binary layout, derives steepest-descent flow and
//! drainage basins from it, and stores those in a second binary layout.
pub mod analysis;
pub mod bmp;
pub mod bytes;
pub mod grid;
pub mod heightmap;
pub mod stage_logger;
pub mod terrain;
pub mod weather_map;
