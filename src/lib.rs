//! Mirrors a tree of images into an output tree, downsampling those whose
//! short edge exceeds a maximum and copying the rest unchanged.

pub mod policy;
pub mod probe;
pub mod paths;
pub mod triage;
