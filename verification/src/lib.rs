//! GWB: a boundary-representation solid modeler built on the half-edge data
//! structure, after Mäntylä's Geometric Workbench.
//!
//! The [`topology`] module holds how a solid is connected (vertices,
//! half-edges, edges, loops and faces, and the Euler operators that edit
//! them); the [`geometry`] module holds where things are.

pub mod scalar;
pub mod geometry;
pub mod topology;
