//! A grid raycaster in fixed-point arithmetic: a map of tiles, rays cast
//! through it from grid line to grid line, and what is needed to draw the
//! walls they find.

pub mod display;
pub mod entities;
pub mod fixed;
pub mod geometry;
pub mod input;
pub mod rays;
pub mod world;
