//! A space-filling circles simulation.
//!
//! Circles spawn at random unoccupied grid positions and expand until they
//! collide with another circle or a canvas edge, at which point they freeze.
//! All geometry is carried in milli-unit fixed-point integers so that the
//! placement, collision and growth rules can be stated and proved exactly;
//! a renderer converts to whatever scale it draws at.

pub mod circle;
pub mod config;
pub mod geometry;
pub mod laws;
pub mod pool;
pub mod sim;
