//! This module is responsible for Euler operations

pub mod low_level;

pub use low_level::{SkeletalPrimtive, SplitFaceRes};
pub use low_level::split_vertex::{DissolveVtxErr, ExtendVertexRes, SplitVtxErr, SubdivideVtxRes};

