//! # Geometry Module
//!
//! This module handles the coordinates and the precise "shape" of things.
//! How they are connected or related is the responsibility of the
//! [topology module](crate::topology).

pub mod point;
pub mod vector;
pub mod surface;
