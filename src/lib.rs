//! Procedural terrain maps: fractal noise fields, biome classification and
//! raster assembly, all over fixed-point numbers.
//!
//! The noise itself is sampled by the caller: the library says where to
//! sample (`map::MapGenerator::axis_coordinates`), takes the samples in units
//! of `1 / fixed::ONE`, and does the rest.
pub mod fixed;
pub mod biome;
pub mod field;
pub mod map;
