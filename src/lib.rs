//! A first-person camera driven by held keys, the event-driven frame loop
//! around it, and the fixed cube mesh that the loop draws.
//!
//! All quantities are integers: lengths are fixed-point values with
//! `geometry::SCALE` steps to one world unit.
pub mod geometry;
pub mod keys;
pub mod camera;
pub mod mesh;
pub mod frame;
pub mod shader;
