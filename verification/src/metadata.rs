//! The two side-metadata trees that accompany a model document: the
//! flat dialect's per-object volume ranges and the hierarchical
//! dialect's per-part properties and repair statistics.

pub mod orca_metadata;
pub mod ps_metadata;
