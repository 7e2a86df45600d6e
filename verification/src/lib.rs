//! A halfedge mesh library for polygonal surfaces.
//!
//! The mesh keeps three mutually consistent stores: a vertex store (positions
//! and scalar attributes keyed by integer handles), a face store (ordered
//! vertex-handle cycles), and a halfedge adjacency table (directed vertex
//! pairs mapped to the face, if any, that owns that direction). Topological
//! queries — neighbors, boundary membership, edge counts, the Euler
//! characteristic — read those stores directly.
//!
//! The mesh is generic over the scalar type of coordinates and attributes;
//! the topology never inspects scalar values, so all of its behaviour is
//! stated and verified over the integer handles alone.

#![verifier::loop_isolation(false)]

use vstd::prelude::*;

pub mod laws;
pub mod mesh;
pub mod model;
pub mod store;

pub use mesh::Mesh;
pub use model::{Point, VertexData};

verus! {

/// A mesh paired with a list of per-instance transform payloads, as used by
/// consumers that draw one mesh many times. The transform payload is opaque
/// to this crate.
pub struct MeshInstances<T> {
    pub mesh_index: usize,
    pub transforms: Vec<T>,
}

} // verus!
