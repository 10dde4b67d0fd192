//! A mesh that carries one colour for all of its vertices.

use crate::mesh::{
    flat_shade_components, flat_shaded_model, recalculated, Mesh, MeshModel,
};
use crate::vertex::{Colour, Normal, PositionVertex};
use vstd::prelude::*;

verus! {

/// Data for an indexed triangle mesh whose surface has a single colour.
#[derive(Clone, Debug)]
pub struct ColouredMesh {
    pub mesh: Mesh<PositionVertex>,
    pub colour: Colour,
}

impl ColouredMesh {
    /// The underlying mesh's mathematical content.
    pub open spec fn model(self) -> MeshModel<PositionVertex> {
        self.mesh.model()
    }

    /// Structural well-formedness of the underlying mesh.
    pub open spec fn wf(self) -> bool {
        self.mesh.wf()
    }

    /// A coloured mesh from explicit vertex and index data, with no
    /// normals yet.
    pub fn new(vertices: Vec<PositionVertex>, indices: Vec<u32>, colour: Colour) -> (r:
        ColouredMesh)
        requires
            indices@.len() % 3 == 0,
            forall|i: int| 0 <= i < indices@.len() ==> (indices@[i] as int) < vertices@.len(),
        ensures
            r.mesh.vertices@ == vertices@,
            r.mesh.normals@.len() == 0,
            r.mesh.indices@ == indices@,
            r.colour == colour,
            r.wf(),
    {
        ColouredMesh { mesh: Mesh::new(vertices, indices), colour }
    }

    /// Replaces the mesh's normals, leaving everything else alone.
    pub fn set_normals(&mut self, normals: Vec<Normal>)
        ensures
            final(self).mesh.vertices@ == old(self).mesh.vertices@,
            final(self).mesh.indices@ == old(self).mesh.indices@,
            final(self).mesh.normals@ == normals@,
            final(self).colour == old(self).colour,
    {
        self.mesh.set_normals(normals);
    }

    /// Recomputes the mesh's normals from its faces, smooth shaded.
    pub fn recalculate_normals(&mut self)
        requires
            old(self).wf(),
        ensures
            final(self).model() == recalculated(old(self).model()),
            final(self).colour == old(self).colour,
            final(self).wf(),
    {
        self.mesh.recalculate_normals();
    }

    /// A flat shaded version of the mesh, with the same colour. The mesh
    /// itself is left alone.
    pub fn flat_shaded(&self) -> (r: ColouredMesh)
        requires
            self.wf(),
            self.mesh.indices@.len() <= u32::MAX,
        ensures
            r.model() == flat_shaded_model(self.model()),
            r.colour == self.colour,
            r.wf(),
    {
        ColouredMesh { mesh: self.mesh.flat_shaded(), colour: self.colour }
    }

    /// Flat shades the mesh in place. The sharing of vertices between
    /// triangles is lost and cannot be recovered.
    pub fn flat_shade(&mut self)
        requires
            old(self).wf(),
            old(self).mesh.indices@.len() <= u32::MAX,
        ensures
            final(self).model() == flat_shaded_model(old(self).model()),
            final(self).colour == old(self).colour,
            final(self).wf(),
    {
        self.mesh.flat_shade();
    }

    /// Flat shades vertex and index data without ever building a mesh; the
    /// same as `crate::mesh::flat_shade_components`.
    pub fn flat_shade_components(in_verts: Vec<PositionVertex>, in_inds: Vec<u32>) -> (r: (
        Vec<PositionVertex>,
        Vec<Normal>,
        Vec<u32>,
    ))
        requires
            in_inds@.len() % 3 == 0,
            forall|i: int| 0 <= i < in_inds@.len() ==> (in_inds@[i] as int) < in_verts@.len(),
            in_inds@.len() <= u32::MAX,
        ensures
            r.0@ == crate::mesh::flat_vertices(in_verts@, in_inds@),
            r.1@ == crate::mesh::flat_normals(crate::mesh::positions_of(in_verts@), in_inds@),
            r.2@ == crate::mesh::identity_indices(in_inds@.len() as int),
    {
        flat_shade_components(in_verts, in_inds)
    }

    /// The mesh's three parallel sequences, as fresh vectors.
    pub fn components(&self) -> (r: (Vec<PositionVertex>, Vec<Normal>, Vec<u32>))
        ensures
            r.0@ == self.mesh.vertices@,
            r.1@ == self.mesh.normals@,
            r.2@ == self.mesh.indices@,
    {
        self.mesh.components()
    }
}

} // verus!
