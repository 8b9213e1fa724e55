//! Conversion between the two 3MF dialects used by the major slicer
//! families: a flat dialect where each printable object is one
//! self-contained mesh, and a hierarchical dialect where an object is a
//! list of components referencing externally stored sub-documents.
//!
//! The library covers the component-graph resolution, mesh merging,
//! the per-triangle paint bitstream codec with color remapping, and the
//! two paint-transfer operations (identical and divergent topology).
//! Archive I/O, XML (de)serialization and floating-point placement
//! arithmetic are left to the surrounding application; vertex
//! coordinates travel through the library as opaque 64-bit scalar
//! codes that the library never interprets arithmetically.

use vstd::prelude::*;

pub mod instancing;
pub mod mesh;
pub mod metadata;
pub mod model;
pub mod model_orca;
pub mod paint_convert;
pub mod resolve;
pub mod splitting;
pub mod utils;

verus! {

/// The failure taxonomy of the conversion core. Every error is
/// recoverable at the batch level: one object's failure leaves the
/// remaining work untouched.
#[derive(Debug, Clone, Copy, PartialEq, Eq, Structural)]
pub enum Error {
    /// A component path or an object id could not be found.
    DanglingReference,
    /// A root object is a plain mesh where a component list is required.
    UnsupportedShape,
    /// A component resolved to a nested component list instead of a mesh.
    UnsupportedNesting,
    /// A required transform matrix is absent from the side metadata.
    MissingTransform,
    /// Paint transfer between meshes of different vertex or triangle counts.
    TopologyMismatch,
    /// Object-level paint transfer between objects of different component counts.
    ComponentCountMismatch,
    /// The paint codec met a subdivided (split) triangle node.
    UnsupportedPaintStructure,
    /// A paint string held a non-hexadecimal character or a truncated escape.
    MalformedPaintString,
}

impl Error {
    /// A short description, for callers that report failures.
    pub fn describe(&self) -> (r: &'static str)
        ensures
            r@.len() > 0,
    {
        proof {
            reveal_strlit("component path or object id not found");
            reveal_strlit("expected a component list, found a mesh");
            reveal_strlit("nested component lists are not supported");
            reveal_strlit("required transform matrix is missing");
            reveal_strlit("vertex or triangle counts differ");
            reveal_strlit("component counts differ");
            reveal_strlit("split paint triangles are not supported");
            reveal_strlit("malformed paint string");
        }
        match self {
            Error::DanglingReference => "component path or object id not found",
            Error::UnsupportedShape => "expected a component list, found a mesh",
            Error::UnsupportedNesting => "nested component lists are not supported",
            Error::MissingTransform => "required transform matrix is missing",
            Error::TopologyMismatch => "vertex or triangle counts differ",
            Error::ComponentCountMismatch => "component counts differ",
            Error::UnsupportedPaintStructure => "split paint triangles are not supported",
            Error::MalformedPaintString => "malformed paint string",
        }
    }
}

/// What a batch driver reports while it works through its files;
/// elapsed times are carried in microseconds.
#[derive(Debug)]
pub enum ProcessingEvent {
    StartedFile(usize),
    LoadedFile(usize, u64),
    FinishedFile(usize, u64),
    Done,
    Failed,
    Warning(String),
}

/// Drives one instancing pass over a loaded hierarchical-dialect
/// package: the paint of the first root object's components is
/// copied onto the index-matched components of the third.
pub fn test_main(model: &mut model_orca::OrcaModel) -> (r: Result<(), Error>)
    requires
        old(model).wf(),
        2 < old(model).model.resources.object@.len(),
        (old(model).model.resources.object@[0].object matches
            model::ObjectData::Components { component } ==> instancing::from_paint_ok(
            old(model).sub_models,
            component@,
        )),
    ensures
        instancing::copy_paint_post(*old(model), *final(model), 0, 2, r),
{
    model.copy_paint(0, 2)
}

} // verus!
