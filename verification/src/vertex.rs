//! Vertex types for meshes.
//!
//! A mesh is generic over its vertex type: any type that exposes a position
//! can be meshed, and may carry further attributes (such as a colour) that
//! the mesh algorithms duplicate or drop along with the vertex itself.

use crate::vec3::Vector3;
use vstd::prelude::*;

verus! {

/// A capability: the type exposes a position in 3-space.
pub trait Position: Sized {
    /// The position, as seen by specifications.
    spec fn pos_spec(&self) -> Vector3;

    /// The position of this vertex.
    fn pos(&self) -> (r: Vector3)
        ensures
            r == self.pos_spec(),
    ;
}

/// A vertex that carries a position and nothing else.
#[derive(Clone, Copy, PartialEq, Eq, Structural, Debug)]
pub struct PositionVertex {
    pub position: Vector3,
}

impl Position for PositionVertex {
    open spec fn pos_spec(&self) -> Vector3 {
        self.position
    }

    fn pos(&self) -> (r: Vector3) {
        self.position
    }
}

/// An RGBA colour; each field holds the bit pattern of an IEEE-754
/// single-precision channel value.
#[derive(Clone, Copy, PartialEq, Eq, Structural, Debug)]
pub struct Colour {
    pub r: u32,
    pub g: u32,
    pub b: u32,
    pub a: u32,
}

/// A vertex that carries a position and a colour.
#[derive(Clone, Copy, PartialEq, Eq, Structural, Debug)]
pub struct ColouredVertex {
    pub position: Vector3,
    pub colour: Colour,
}

impl Position for ColouredVertex {
    open spec fn pos_spec(&self) -> Vector3 {
        self.position
    }

    fn pos(&self) -> (r: Vector3) {
        self.position
    }
}

/// A per-vertex normal direction.
#[derive(Clone, Copy, PartialEq, Eq, Structural, Debug)]
pub struct Normal {
    pub normal: Vector3,
}

} // verus!
