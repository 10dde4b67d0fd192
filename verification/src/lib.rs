//! A mesh geometry engine: indexed triangle meshes with verified normal
//! recomputation, flat/smooth shading conversion, mesh combination, and a
//! Wavefront OBJ importer.
//!
//! Coordinates are carried as the raw bit patterns of IEEE-754
//! single-precision numbers; the numeric operations themselves are
//! delegated to an outside vector library behind the trusted wrappers in
//! `vec3`, and everything the algorithms do around them is verified.

pub mod vec3;
pub mod vertex;
pub mod mesh;
pub mod obj;
pub mod coloured_mesh;

pub use coloured_mesh::ColouredMesh;
pub use mesh::{combine_meshes, flat_shade_components, Mesh, MeshError, MeshModel};
pub use obj::{has_obj_extension, parse_obj, ObjError};
pub use vec3::Vector3;
pub use vertex::{Colour, ColouredVertex, Normal, Position, PositionVertex};

use vstd::prelude::*;

verus! {

/// What a GPU-side buffer created from mesh data is meant to hold; the
/// rendering layer around this crate maps each role to its usage flags.
pub enum BufferType {
    Vertex,
    Normal,
    Index,
    Storage,
}

} // verus!
