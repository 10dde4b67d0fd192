//! Indexed triangle meshes and the algorithms on them: smooth normal
//! recomputation, flat/smooth shading conversion, and mesh combination.
//!
//! A mesh holds three parallel sequences: vertices, per-vertex normals and
//! triangle indices. Its invariant (`wf`) is that the index count is a
//! multiple of three and every index is in range of the vertex sequence;
//! whenever normals are present in a well-formed state produced by the
//! algorithms here, there is one normal per vertex.
//!
//! Winding convention: triangles are taken counter-clockwise, and the face
//! normal of a triangle `(p0, p1, p2)` is `(p0 - p2) x (p1 - p2)`, so a
//! counter-clockwise triangle seen from the front has its normal pointing
//! toward the viewer (right-hand rule).

use crate::vec3::Vector3;
use crate::vertex::{Normal, Position, PositionVertex};
use vstd::prelude::*;

verus! {

/// Why a mesh operation failed.
#[derive(Clone, Copy, PartialEq, Eq, Structural, Debug)]
pub enum MeshError {
    /// There was no mesh to combine.
    EmptyInput,
}

/// The mathematical content of a mesh: its three sequences.
#[verifier::ext_equal]
pub ghost struct MeshModel<T> {
    pub vertices: Seq<T>,
    pub normals: Seq<Normal>,
    pub indices: Seq<u32>,
}

impl<T> MeshModel<T> {
    /// Structural well-formedness: whole triangles only, and every index in
    /// range of the vertex sequence.
    pub open spec fn wf(self) -> bool {
        &&& self.indices.len() % 3 == 0
        &&& forall|i: int|
            0 <= i < self.indices.len() ==> (self.indices[i] as int) < self.vertices.len()
    }
}

/// The position of every vertex, in order.
pub open spec fn positions_of<T: Position>(vs: Seq<T>) -> Seq<Vector3> {
    vs.map(|i: int, v: T| v.pos_spec())
}

/// The (unnormalised) face normal of triangle `k`: with `p0, p1, p2` the
/// positions named by the triangle's three indices, `(p0 - p2) x (p1 - p2)`.
pub open spec fn face_normal(ps: Seq<Vector3>, idx: Seq<u32>, k: int) -> Vector3 {
    let p0 = ps[idx[3 * k] as int];
    let p1 = ps[idx[3 * k + 1] as int];
    let p2 = ps[idx[3 * k + 2] as int];
    p0.spec_sub(p2).spec_cross(p1.spec_sub(p2))
}

/// The accumulator sequence with the vector at slot `i` increased by `n`.
pub open spec fn add_at(acc: Seq<Vector3>, i: int, n: Vector3) -> Seq<Vector3> {
    acc.update(i, acc[i].spec_add(n))
}

/// One zero accumulator per position, with the face normal of each of the
/// first `k` triangles added, in triangle order, into the accumulators of the
/// triangle's three indices (first, second, third — in that order, so a
/// repeated index receives every contribution).
pub open spec fn accumulate_normals(ps: Seq<Vector3>, idx: Seq<u32>, k: int) -> Seq<Vector3>
    decreases k,
{
    if k <= 0 {
        Seq::new(ps.len(), |i: int| Vector3::spec_zero())
    } else {
        let prev = accumulate_normals(ps, idx, k - 1);
        let n = face_normal(ps, idx, k - 1);
        add_at(
            add_at(add_at(prev, idx[3 * (k - 1)] as int, n), idx[3 * (k - 1) + 1] as int, n),
            idx[3 * (k - 1) + 2] as int,
            n,
        )
    }
}

/// The smooth per-vertex normals for the given positions and triangles: all
/// face normals accumulated, then every accumulator normalised (a zero
/// accumulator normalises to the zero vector).
pub open spec fn smooth_normals(ps: Seq<Vector3>, idx: Seq<u32>) -> Seq<Normal> {
    accumulate_normals(ps, idx, idx.len() as int / 3).map(
        |i: int, v: Vector3| (Normal { normal: v.spec_normalised() }),
    )
}

/// A mesh after recomputing its normals from its faces.
pub open spec fn recalculated<T: Position>(m: MeshModel<T>) -> MeshModel<T> {
    MeshModel {
        vertices: m.vertices,
        normals: smooth_normals(positions_of(m.vertices), m.indices),
        indices: m.indices,
    }
}

/// Accumulating face normals never changes how many accumulators there are:
/// one per position throughout.
pub proof fn lemma_accumulate_normals_len(ps: Seq<Vector3>, idx: Seq<u32>, k: int)
    requires
        3 * k <= idx.len(),
        forall|i: int| 0 <= i < idx.len() ==> (idx[i] as int) < ps.len(),
    ensures
        accumulate_normals(ps, idx, k).len() == ps.len(),
    decreases k,
{
    if k > 0 {
        lemma_accumulate_normals_len(ps, idx, k - 1);
    }
}

/// Recomputed normals cover the vertices exactly: one normal per vertex.
pub proof fn lemma_smooth_normals_len(ps: Seq<Vector3>, idx: Seq<u32>)
    requires
        forall|i: int| 0 <= i < idx.len() ==> (idx[i] as int) < ps.len(),
    ensures
        smooth_normals(ps, idx).len() == ps.len(),
{
    lemma_accumulate_normals_len(ps, idx, idx.len() as int / 3);
}

/// Law: recomputing normals yields one normal per vertex and touches
/// nothing else, and the mesh stays well-formed.
pub proof fn lemma_recalculated_covers<T: Position>(m: MeshModel<T>)
    requires
        m.wf(),
    ensures
        recalculated(m).wf(),
        recalculated(m).normals.len() == m.vertices.len(),
        recalculated(m).vertices == m.vertices,
        recalculated(m).indices == m.indices,
{
    lemma_smooth_normals_len(positions_of(m.vertices), m.indices);
}

/// Every index of every triangle, replaced by the vertex it names: three
/// fresh unshared vertices per triangle, in triangle order.
pub open spec fn flat_vertices<T>(vs: Seq<T>, idx: Seq<u32>) -> Seq<T> {
    Seq::new(idx.len(), |j: int| vs[idx[j] as int])
}

/// The index sequence `0, 1, .., n-1`.
pub open spec fn identity_indices(n: int) -> Seq<u32> {
    Seq::new(n as nat, |i: int| i as u32)
}

/// One normal per duplicated vertex: the normalised face normal of the
/// triangle the vertex was duplicated for, identical for all three corners.
pub open spec fn flat_normals(ps: Seq<Vector3>, idx: Seq<u32>) -> Seq<Normal> {
    Seq::new(idx.len(), |j: int| (Normal { normal: face_normal(ps, idx, j / 3).spec_normalised() }))
}

/// A mesh after flat shading: every triangle gets three fresh unshared
/// vertices, a per-face normalised normal on each, and sequential indices.
pub open spec fn flat_shaded_model<T: Position>(m: MeshModel<T>) -> MeshModel<T> {
    MeshModel {
        vertices: flat_vertices(m.vertices, m.indices),
        normals: flat_normals(positions_of(m.vertices), m.indices),
        indices: identity_indices(m.indices.len() as int),
    }
}

/// The index of the first occurrence of position `p` in `ps` (the length of
/// `ps` when `p` does not occur).
pub open spec fn first_occurrence(ps: Seq<Vector3>, p: Vector3) -> int
    decreases ps.len(),
{
    if ps.len() == 0 {
        0
    } else if ps[0] == p {
        0
    } else {
        1 + first_occurrence(ps.subrange(1, ps.len() as int), p)
    }
}

/// When `p` occurs at position `w`, its first occurrence is a position no
/// later than `w` that holds `p`, with no earlier position holding `p`.
pub proof fn lemma_first_occurrence(ps: Seq<Vector3>, p: Vector3, w: int)
    requires
        0 <= w < ps.len(),
        ps[w] == p,
    ensures
        0 <= first_occurrence(ps, p) <= w,
        ps[first_occurrence(ps, p)] == p,
        forall|k: int| 0 <= k < first_occurrence(ps, p) ==> ps[k] != p,
    decreases ps.len(),
{
    if ps[0] != p {
        let tail = ps.subrange(1, ps.len() as int);
        lemma_first_occurrence(tail, p, w - 1);
        assert forall|k: int| 0 <= k < first_occurrence(ps, p) implies ps[k] != p by {
            if k >= 1 {
                assert(ps[k] == tail[k - 1]);
            }
        }
    }
}

/// Every index replaced by the first index whose vertex has the same
/// position: duplicate positions are merged onto their first occurrence.
pub open spec fn smooth_indices(ps: Seq<Vector3>, idx: Seq<u32>) -> Seq<u32> {
    Seq::new(idx.len(), |i: int| first_occurrence(ps, ps[idx[i] as int]) as u32)
}

/// A mesh after smooth shading: vertices kept as they are (unreferenced
/// slots may remain), indices rewritten onto first occurrences of each
/// position, and normals recomputed over the rewritten triangles.
pub open spec fn smooth_shaded_model<T: Position>(m: MeshModel<T>) -> MeshModel<T> {
    let new_idx = smooth_indices(positions_of(m.vertices), m.indices);
    MeshModel {
        vertices: m.vertices,
        normals: smooth_normals(positions_of(m.vertices), new_idx),
        indices: new_idx,
    }
}

/// Every index shifted up by `off`.
pub open spec fn offset_indices(idx: Seq<u32>, off: int) -> Seq<u32> {
    idx.map(|i: int, x: u32| ((x + off) as u32))
}

/// The destination mesh after a source mesh has been merged into it: the
/// source's vertices and normals are appended, and its indices, shifted up
/// by the destination's prior vertex count, follow the destination's. When
/// the combined normals do not cover the combined vertices one-to-one, the
/// normals of the whole combined mesh are recomputed instead (discarding
/// whatever normals either side carried).
pub open spec fn added_model<T: Position>(a: MeshModel<T>, b: MeshModel<T>) -> MeshModel<T> {
    let vertices = a.vertices + b.vertices;
    let indices = a.indices + offset_indices(b.indices, a.vertices.len() as int);
    if a.vertices.len() + b.vertices.len() == a.normals.len() + b.normals.len() {
        MeshModel { vertices, normals: a.normals + b.normals, indices }
    } else {
        MeshModel { vertices, normals: smooth_normals(positions_of(vertices), indices), indices }
    }
}

/// Law: combining two meshes shifts every index of the source up by the
/// destination's prior vertex count, behind the destination's own indices —
/// so a source with indices `0, 1, 2` contributes `n, n+1, n+2` to a
/// destination of `n` vertices.
pub proof fn lemma_add_offsets_indices<T: Position>(a: MeshModel<T>, b: MeshModel<T>, j: int)
    requires
        0 <= j < b.indices.len(),
    ensures
        added_model(a, b).indices.len() == a.indices.len() + b.indices.len(),
        added_model(a, b).indices[a.indices.len() + j] == ((b.indices[j]
            + a.vertices.len()) as u32),
{
    assert(offset_indices(b.indices, a.vertices.len() as int)[j] == ((b.indices[j]
        + a.vertices.len()) as u32));
}

/// A non-empty sequence of meshes folded left-to-right by `added_model`.
pub open spec fn combined_model<T: Position>(ms: Seq<MeshModel<T>>) -> MeshModel<T>
    decreases ms.len(),
{
    if ms.len() <= 1 {
        ms[0]
    } else {
        added_model(combined_model(ms.drop_last()), ms.last())
    }
}

/// How many vertices the meshes hold in all.
pub open spec fn total_vertex_count<T>(ms: Seq<MeshModel<T>>) -> int
    decreases ms.len(),
{
    if ms.len() == 0 {
        0
    } else {
        total_vertex_count(ms.drop_last()) + ms.last().vertices.len()
    }
}

/// The model of every mesh, in order.
pub open spec fn models_of<T: Position + Copy>(ms: Seq<Mesh<T>>) -> Seq<MeshModel<T>> {
    ms.map(|i: int, m: Mesh<T>| m.model())
}

/// A combined mesh holds exactly the vertices of its parts.
pub proof fn lemma_combined_vertices_len<T: Position>(ms: Seq<MeshModel<T>>)
    requires
        ms.len() >= 1,
    ensures
        combined_model(ms).vertices.len() == total_vertex_count(ms),
    decreases ms.len(),
{
    if ms.len() == 1 {
        assert(total_vertex_count(ms.drop_last()) == 0);
        assert(ms.last() == ms[0]);
    } else {
        lemma_combined_vertices_len(ms.drop_last());
        assert(combined_model(ms).vertices == combined_model(ms.drop_last()).vertices
            + ms.last().vertices);
    }
}

/// Extending a prefix by one mesh adds that mesh's vertex count.
proof fn lemma_total_prefix_step<T>(ms: Seq<MeshModel<T>>, i: int)
    requires
        0 <= i < ms.len(),
    ensures
        total_vertex_count(ms.subrange(0, i + 1)) == total_vertex_count(ms.subrange(0, i))
            + ms[i].vertices.len(),
{
    assert(ms.subrange(0, i + 1).drop_last() =~= ms.subrange(0, i));
    assert(ms.subrange(0, i + 1).last() == ms[i]);
}

/// A prefix never holds more vertices than the whole.
proof fn lemma_total_prefix_le<T>(ms: Seq<MeshModel<T>>, i: int)
    requires
        0 <= i <= ms.len(),
    ensures
        total_vertex_count(ms.subrange(0, i)) <= total_vertex_count(ms),
    decreases ms.len() - i,
{
    if i == ms.len() {
        assert(ms.subrange(0, i) =~= ms);
    } else {
        lemma_total_prefix_step(ms, i);
        lemma_total_prefix_le(ms, i + 1);
    }
}

/// Data for an indexed triangle mesh in 3D space, generic over any vertex
/// type that exposes a position.
#[derive(Clone, Debug)]
pub struct Mesh<T: Position + Copy> {
    pub vertices: Vec<T>,
    pub normals: Vec<Normal>,
    pub indices: Vec<u32>,
}

impl<T: Position + Copy> Mesh<T> {
    /// The mesh's mathematical content.
    pub open spec fn model(self) -> MeshModel<T> {
        MeshModel { vertices: self.vertices@, normals: self.normals@, indices: self.indices@ }
    }

    /// The position of every vertex, in order.
    pub open spec fn positions(self) -> Seq<Vector3> {
        positions_of(self.vertices@)
    }

    /// Structural well-formedness of the index data.
    pub open spec fn wf(self) -> bool {
        self.model().wf()
    }

    /// A mesh from explicit vertex and index data, with no normals yet.
    pub fn new(vertices: Vec<T>, indices: Vec<u32>) -> (r: Mesh<T>)
        requires
            indices@.len() % 3 == 0,
            forall|i: int| 0 <= i < indices@.len() ==> (indices@[i] as int) < vertices@.len(),
        ensures
            r.vertices@ == vertices@,
            r.normals@.len() == 0,
            r.indices@ == indices@,
            r.wf(),
    {
        Mesh { vertices, normals: Vec::new(), indices }
    }

    /// Replaces the mesh's normals, leaving vertices and indices alone.
    pub fn set_normals(&mut self, normals: Vec<Normal>)
        ensures
            final(self).vertices@ == old(self).vertices@,
            final(self).indices@ == old(self).indices@,
            final(self).normals@ == normals@,
    {
        self.normals = normals;
    }

    /// Recomputes the mesh's normals from its faces, smooth shaded: every
    /// face normal is accumulated, unnormalised, into the accumulators of
    /// the face's three vertices (so larger faces weigh more), and every
    /// accumulator is then normalised. Replaces any prior normals.
    pub fn recalculate_normals(&mut self)
        requires
            old(self).wf(),
        ensures
            final(self).model() == recalculated(old(self).model()),
            final(self).vertices@ == old(self).vertices@,
            final(self).indices@ == old(self).indices@,
            final(self).normals@.len() == old(self).vertices@.len(),
            final(self).wf(),
    {
        let ghost ps = self.positions();
        let ghost idx0 = self.indices@;
        let n = self.vertices.len();
        proof {
            assert(ps.len() == n);
        }

        let mut acc: Vec<Vector3> = Vec::new();
        while acc.len() < n
            invariant
                acc@.len() <= n,
                forall|i: int| 0 <= i < acc@.len() ==> acc@[i] == Vector3::spec_zero(),
            decreases n - acc.len(),
        {
            acc.push(Vector3::zero());
        }
        proof {
            assert(acc@ =~= accumulate_normals(ps, idx0, 0));
        }

        let num_tris = self.indices.len() / 3;
        proof {
            assert(3 * num_tris == self.indices@.len());
        }
        let mut k: usize = 0;
        while k < num_tris
            invariant
                self.wf(),
                ps == self.positions(),
                idx0 == self.indices@,
                n == self.vertices@.len(),
                ps.len() == n,
                3 * num_tris == self.indices@.len(),
                self.indices@.len() <= usize::MAX,
                k <= num_tris,
                acc@.len() == n,
                acc@ == accumulate_normals(ps, idx0, k as int),
            decreases num_tris - k,
        {
            let base = 3 * k;
            let i0 = self.indices[base] as usize;
            let i1 = self.indices[base + 1] as usize;
            let i2 = self.indices[base + 2] as usize;
            let v0 = self.vertices[i0].pos();
            let v1 = self.vertices[i1].pos();
            let v2 = self.vertices[i2].pos();
            let d1 = v0.sub(&v2);
            let d2 = v1.sub(&v2);
            let fnorm = d1.cross(&d2);
            proof {
                assert(v0 == ps[i0 as int]);
                assert(v1 == ps[i1 as int]);
                assert(v2 == ps[i2 as int]);
                assert(fnorm == face_normal(ps, idx0, k as int));
            }
            let ghost prev = acc@;
            let a0 = acc[i0];
            acc[i0] = a0.add(&fnorm);
            proof {
                assert(acc@ == add_at(prev, i0 as int, fnorm));
            }
            let a1 = acc[i1];
            acc[i1] = a1.add(&fnorm);
            let a2 = acc[i2];
            acc[i2] = a2.add(&fnorm);
            proof {
                assert(acc@ == add_at(
                    add_at(add_at(prev, i0 as int, fnorm), i1 as int, fnorm),
                    i2 as int,
                    fnorm,
                ));
                assert(acc@ == accumulate_normals(ps, idx0, k + 1));
            }
            k = k + 1;
        }

        let mut final_norms: Vec<Normal> = Vec::new();
        let mut j: usize = 0;
        while j < n
            invariant
                j <= n,
                acc@.len() == n,
                acc@ == accumulate_normals(ps, idx0, idx0.len() as int / 3),
                final_norms@.len() == j,
                forall|i: int|
                    0 <= i < j ==> final_norms@[i] == (Normal {
                        normal: acc@[i].spec_normalised(),
                    }),
            decreases n - j,
        {
            let nv = acc[j].normalised();
            final_norms.push(Normal { normal: nv });
            j = j + 1;
        }
        proof {
            assert(final_norms@ =~= smooth_normals(ps, idx0));
        }
        self.normals = final_norms;
        proof {
            assert(self.model() =~= recalculated(old(self).model()));
        }
    }

    /// Negates every normal: each component's sign bit is flipped (the
    /// IEEE-754 negation of the stored values).
    pub fn invert_normals(&mut self)
        ensures
            final(self).vertices@ == old(self).vertices@,
            final(self).indices@ == old(self).indices@,
            final(self).normals@ == old(self).normals@.map(
                |i: int, nm: Normal| (Normal { normal: nm.normal.spec_neg() }),
            ),
    {
        let ghost orig = self.normals@;
        let mut i: usize = 0;
        let len = self.normals.len();
        while i < len
            invariant
                i <= len,
                self.normals@.len() == len,
                self.vertices@ == old(self).vertices@,
                self.indices@ == old(self).indices@,
                orig == old(self).normals@,
                orig.len() == len,
                forall|j: int|
                    0 <= j < i ==> self.normals@[j] == (Normal {
                        normal: orig[j].normal.spec_neg(),
                    }),
                forall|j: int| i <= j < len ==> self.normals@[j] == orig[j],
            decreases len - i,
        {
            let cur = self.normals[i];
            self.normals[i] = Normal { normal: cur.normal.neg() };
            i = i + 1;
        }
        proof {
            assert(self.normals@ =~= orig.map(
                |i: int, nm: Normal| (Normal { normal: nm.normal.spec_neg() }),
            ));
        }
    }

    /// A flat shaded version of the mesh: each triangle gets three fresh
    /// unshared vertices (copies of the triangle's three vertices), all three
    /// carrying the triangle's normalised face normal, and the index
    /// sequence becomes `0, 1, .., n-1`. The mesh itself is left alone.
    pub fn flat_shaded(&self) -> (r: Mesh<T>)
        requires
            self.wf(),
            self.indices@.len() <= u32::MAX,
        ensures
            r.model() == flat_shaded_model(self.model()),
            r.vertices@.len() == self.indices@.len(),
            r.normals@.len() == self.indices@.len(),
            r.indices@.len() == self.indices@.len(),
            r.wf(),
    {
        let ghost ps = self.positions();
        let ghost idx0 = self.indices@;
        let len = self.indices.len();
        let num_tris = len / 3;
        proof {
            assert(3 * num_tris == len);
        }
        let mut new_verts: Vec<T> = Vec::new();
        let mut new_normals: Vec<Normal> = Vec::new();

        let mut k: usize = 0;
        while k < num_tris
            invariant
                self.wf(),
                ps == self.positions(),
                idx0 == self.indices@,
                len == idx0.len(),
                len <= usize::MAX,
                3 * num_tris == len,
                k <= num_tris,
                new_verts@.len() == 3 * k,
                new_normals@.len() == 3 * k,
                forall|j: int| 0 <= j < 3 * k ==> new_verts@[j] == self.vertices@[idx0[j] as int],
                forall|j: int|
                    0 <= j < 3 * k ==> new_normals@[j] == (Normal {
                        normal: face_normal(ps, idx0, j / 3).spec_normalised(),
                    }),
            decreases num_tris - k,
        {
            let base = 3 * k;
            let i0 = self.indices[base] as usize;
            let i1 = self.indices[base + 1] as usize;
            let i2 = self.indices[base + 2] as usize;
            let v0 = self.vertices[i0].pos();
            let v1 = self.vertices[i1].pos();
            let v2 = self.vertices[i2].pos();
            let d1 = v0.sub(&v2);
            let d2 = v1.sub(&v2);
            let fnorm = d1.cross(&d2);
            let nn = fnorm.normalised();
            proof {
                assert(v0 == ps[i0 as int]);
                assert(v1 == ps[i1 as int]);
                assert(v2 == ps[i2 as int]);
                assert(nn == face_normal(ps, idx0, k as int).spec_normalised());
            }
            new_verts.push(self.vertices[i0]);
            new_verts.push(self.vertices[i1]);
            new_verts.push(self.vertices[i2]);
            new_normals.push(Normal { normal: nn });
            new_normals.push(Normal { normal: nn });
            new_normals.push(Normal { normal: nn });
            proof {
                assert forall|j: int| 0 <= j < 3 * (k + 1) implies new_normals@[j] == (Normal {
                    normal: face_normal(ps, idx0, j / 3).spec_normalised(),
                }) by {
                    if j >= 3 * k {
                        assert(j / 3 == k as int);
                    }
                }
            }
            k = k + 1;
        }

        let total = new_verts.len();
        let mut inds: Vec<u32> = Vec::new();
        let mut i: usize = 0;
        while i < total
            invariant
                i <= total,
                total <= u32::MAX,
                inds@.len() == i,
                forall|j: int| 0 <= j < i ==> inds@[j] == j as u32,
            decreases total - i,
        {
            inds.push(i as u32);
            i = i + 1;
        }

        let r = Mesh { vertices: new_verts, normals: new_normals, indices: inds };
        proof {
            assert(r.vertices@ =~= flat_vertices(self.vertices@, idx0));
            assert(r.normals@ =~= flat_normals(ps, idx0));
            assert(r.indices@ =~= identity_indices(len as int));
            assert(r.model() =~= flat_shaded_model(self.model()));
        }
        r
    }

    /// Flat shades the mesh in place. The sharing of vertices between
    /// triangles is lost and cannot be recovered.
    pub fn flat_shade(&mut self)
        requires
            old(self).wf(),
            old(self).indices@.len() <= u32::MAX,
        ensures
            final(self).model() == flat_shaded_model(old(self).model()),
            final(self).wf(),
    {
        let new = self.flat_shaded();
        let Mesh { vertices, normals, indices } = new;
        self.vertices = vertices;
        self.normals = normals;
        self.indices = indices;
    }

    /// A smooth shaded version of the mesh: every index is rewritten to the
    /// first index whose vertex has the same position (merging duplicate
    /// positions; two vertices with equal position but different other
    /// attributes are still merged, and the attribute difference is lost),
    /// and normals are recomputed over the rewritten triangles. The vertex
    /// sequence is kept as it is, so unreferenced slots may remain. The mesh
    /// itself is left alone.
    pub fn smooth_shaded(&self) -> (r: Mesh<T>)
        requires
            self.wf(),
        ensures
            r.model() == smooth_shaded_model(self.model()),
            r.vertices@ == self.vertices@,
            r.wf(),
    {
        let ghost ps = self.positions();
        let ghost idx0 = self.indices@;
        let ilen = self.indices.len();
        let mut new_indices: Vec<u32> = Vec::new();
        let mut i: usize = 0;
        while i < ilen
            invariant
                self.wf(),
                ps == self.positions(),
                idx0 == self.indices@,
                ilen == idx0.len(),
                i <= ilen,
                new_indices@.len() == i,
                forall|j: int| 0 <= j < i ==> new_indices@[j] == smooth_indices(ps, idx0)[j],
                forall|j: int|
                    0 <= j < i ==> (new_indices@[j] as int) < self.vertices@.len(),
            decreases ilen - i,
        {
            let vi = self.indices[i] as usize;
            let p = self.vertices[vi].pos();
            proof {
                assert(ps[vi as int] == p);
            }
            let k = first_position_index(&self.vertices, p, vi);
            new_indices.push(k as u32);
            i = i + 1;
        }
        let verts = copied_vec(&self.vertices);
        let mut out = Mesh { vertices: verts, normals: Vec::new(), indices: new_indices };
        proof {
            assert(out.indices@ =~= smooth_indices(ps, idx0));
            assert(out.wf());
        }
        out.recalculate_normals();
        proof {
            assert(out.model() =~= smooth_shaded_model(self.model()));
        }
        out
    }

    /// Smooth shades the mesh in place.
    pub fn smooth_shade(&mut self)
        requires
            old(self).wf(),
        ensures
            final(self).model() == smooth_shaded_model(old(self).model()),
            final(self).wf(),
    {
        let new = self.smooth_shaded();
        let Mesh { vertices, normals, indices } = new;
        self.vertices = vertices;
        self.normals = normals;
        self.indices = indices;
    }

    /// Merges another mesh into this one, consuming it: the other mesh's
    /// vertices and normals are appended, and its indices, shifted up by
    /// this mesh's prior vertex count, follow this mesh's indices. When the
    /// combined normals do not cover the combined vertices one-to-one, the
    /// normals of the whole combined mesh are recomputed (discarding
    /// whatever normals either side carried).
    pub fn add(&mut self, other: Mesh<T>)
        requires
            old(self).wf(),
            other.wf(),
            old(self).vertices@.len() + other.vertices@.len() <= u32::MAX,
        ensures
            final(self).model() == added_model(old(self).model(), other.model()),
            final(self).wf(),
    {
        let ghost a = old(self).model();
        let ghost b = other.model();
        let mut other = other;
        let vert_offset = self.vertices.len();

        let olen = other.indices.len();
        let mut i: usize = 0;
        while i < olen
            invariant
                i <= olen,
                other.indices@.len() == olen,
                b.indices.len() == olen,
                other.vertices@ == b.vertices,
                other.normals@ == b.normals,
                vert_offset == a.vertices.len(),
                a.vertices.len() + b.vertices.len() <= u32::MAX,
                forall|j: int| 0 <= j < olen ==> (b.indices[j] as int) < b.vertices.len(),
                forall|j: int|
                    0 <= j < i ==> other.indices@[j] == offset_indices(
                        b.indices,
                        a.vertices.len() as int,
                    )[j],
                forall|j: int| i <= j < olen ==> other.indices@[j] == b.indices[j],
            decreases olen - i,
        {
            let idxv = other.indices[i];
            proof {
                assert(other.indices@[i as int] == b.indices[i as int]);
                assert((b.indices[i as int] as int) < b.vertices.len());
            }
            other.indices[i] = idxv + (vert_offset as u32);
            i = i + 1;
        }
        proof {
            assert(other.indices@ =~= offset_indices(b.indices, a.vertices.len() as int));
        }

        self.vertices.append(&mut other.vertices);
        self.normals.append(&mut other.normals);
        self.indices.append(&mut other.indices);
        proof {
            assert(self.vertices@ == a.vertices + b.vertices);
            assert(self.normals@ == a.normals + b.normals);
            assert(self.indices@ == a.indices + offset_indices(b.indices, a.vertices.len() as int));
            assert(self.wf());
        }

        if self.vertices.len() != self.normals.len() {
            self.recalculate_normals();
        }
        proof {
            assert(self.model() =~= added_model(a, b));
        }
    }

    /// A deep copy of the mesh.
    pub fn duplicate(&self) -> (r: Mesh<T>)
        ensures
            r.model() == self.model(),
    {
        Mesh {
            vertices: copied_vec(&self.vertices),
            normals: copied_vec(&self.normals),
            indices: copied_vec(&self.indices),
        }
    }

    /// The mesh's three parallel sequences — positions carried by the
    /// vertices, normals, indices — as fresh vectors, ready to hand to a
    /// buffer-creation routine.
    pub fn components(&self) -> (r: (Vec<T>, Vec<Normal>, Vec<u32>))
        ensures
            r.0@ == self.vertices@,
            r.1@ == self.normals@,
            r.2@ == self.indices@,
    {
        (copied_vec(&self.vertices), copied_vec(&self.normals), copied_vec(&self.indices))
    }
}

/// Folds a sequence of meshes into one, left to right, by `Mesh::add`; fails
/// on an empty sequence instead of panicking.
pub fn combine_meshes<T: Position + Copy>(meshes: &Vec<Mesh<T>>) -> (r: Result<Mesh<T>, MeshError>)
    requires
        forall|i: int| 0 <= i < meshes@.len() ==> (#[trigger] meshes@[i]).wf(),
        total_vertex_count(models_of(meshes@)) <= u32::MAX,
    ensures
        meshes@.len() == 0 ==> r == Result::<Mesh<T>, MeshError>::Err(MeshError::EmptyInput),
        meshes@.len() > 0 ==> (r matches Ok(m) && m.model() == combined_model(models_of(meshes@))
            && m.wf()),
{
    let ghost models = models_of(meshes@);
    if meshes.len() == 0 {
        return Err(MeshError::EmptyInput);
    }
    let mut total = meshes[0].duplicate();
    proof {
        assert(models.subrange(0, 1) =~= seq![models[0]]);
        assert(total.model() == combined_model(models.subrange(0, 1)));
        lemma_combined_vertices_len(models.subrange(0, 1));
    }
    let mut i: usize = 1;
    while i < meshes.len()
        invariant
            1 <= i <= meshes@.len(),
            models == models_of(meshes@),
            forall|j: int| 0 <= j < meshes@.len() ==> (#[trigger] meshes@[j]).wf(),
            total_vertex_count(models) <= u32::MAX,
            total.model() == combined_model(models.subrange(0, i as int)),
            total.wf(),
            total.vertices@.len() == total_vertex_count(models.subrange(0, i as int)),
        decreases meshes@.len() - i,
    {
        let m = meshes[i].duplicate();
        proof {
            lemma_total_prefix_step(models, i as int);
            lemma_total_prefix_le(models, i as int + 1);
            assert(total.vertices@.len() + m.vertices@.len() <= u32::MAX);
        }
        total.add(m);
        proof {
            assert(models.subrange(0, i + 1).drop_last() =~= models.subrange(0, i as int));
            assert(models.subrange(0, i + 1).last() == models[i as int]);
            assert(total.model() == combined_model(models.subrange(0, i + 1)));
            lemma_combined_vertices_len(models.subrange(0, i + 1));
        }
        i = i + 1;
    }
    proof {
        assert(models.subrange(0, meshes@.len() as int) =~= models);
    }
    Ok(total)
}

/// Flat shades the components of a mesh without ever building one: returns
/// the vertex, normal and index sequences that `Mesh::new` followed by
/// `flat_shaded` would produce.
pub fn flat_shade_components(in_verts: Vec<PositionVertex>, in_inds: Vec<u32>) -> (r: (
    Vec<PositionVertex>,
    Vec<Normal>,
    Vec<u32>,
))
    requires
        in_inds@.len() % 3 == 0,
        forall|i: int| 0 <= i < in_inds@.len() ==> (in_inds@[i] as int) < in_verts@.len(),
        in_inds@.len() <= u32::MAX,
    ensures
        r.0@ == flat_vertices(in_verts@, in_inds@),
        r.1@ == flat_normals(positions_of(in_verts@), in_inds@),
        r.2@ == identity_indices(in_inds@.len() as int),
{
    let mesh = Mesh::new(in_verts, in_inds);
    let flat = mesh.flat_shaded();
    let Mesh { vertices, normals, indices } = flat;
    (vertices, normals, indices)
}

/// Law: flat shading is idempotent — flat shading a mesh that is already
/// flat shaded changes nothing, so in particular the vertex count is kept.
pub proof fn lemma_flat_shade_idempotent<T: Position>(m: MeshModel<T>)
    requires
        m.wf(),
        m.indices.len() <= u32::MAX,
    ensures
        flat_shaded_model(flat_shaded_model(m)) == flat_shaded_model(m),
{
    let f = flat_shaded_model(m);
    let ps = positions_of(m.vertices);
    let psf = positions_of(f.vertices);
    assert forall|c: int| 0 <= c < f.vertices.len() implies psf[c] == ps[m.indices[c] as int] by {
        assert(f.vertices[c] == m.vertices[m.indices[c] as int]);
    }
    assert(flat_vertices(f.vertices, f.indices) =~= f.vertices) by {
        assert forall|j: int| 0 <= j < f.indices.len() implies f.vertices[f.indices[j] as int]
            == f.vertices[j] by {
            assert(f.indices[j] == j as u32);
        }
    }
    assert forall|k: int| 0 <= k < f.indices.len() / 3 implies #[trigger] face_normal(
        psf,
        f.indices,
        k,
    ) == face_normal(ps, m.indices, k) by {
        assert(3 * k + 2 < f.indices.len());
        assert(f.indices[3 * k] == (3 * k) as u32);
        assert(f.indices[3 * k + 1] == (3 * k + 1) as u32);
        assert(f.indices[3 * k + 2] == (3 * k + 2) as u32);
        assert(psf[3 * k] == ps[m.indices[3 * k] as int]);
        assert(psf[3 * k + 1] == ps[m.indices[3 * k + 1] as int]);
        assert(psf[3 * k + 2] == ps[m.indices[3 * k + 2] as int]);
    }
    assert(flat_normals(psf, f.indices) =~= f.normals) by {
        assert forall|j: int| 0 <= j < f.indices.len() implies #[trigger] flat_normals(
            psf,
            f.indices,
        )[j] == f.normals[j] by {
            assert(0 <= j / 3 < f.indices.len() / 3);
            assert(face_normal(psf, f.indices, j / 3) == face_normal(ps, m.indices, j / 3));
        }
    }
    assert(flat_shaded_model(f) =~= f);
}

/// Law: smooth shading is idempotent — smooth shading a mesh that is
/// already smooth shaded changes nothing, so in particular the vertex count
/// is kept (the vertex sequence is never changed at all).
pub proof fn lemma_smooth_shade_idempotent<T: Position>(m: MeshModel<T>)
    requires
        m.wf(),
    ensures
        smooth_shaded_model(smooth_shaded_model(m)) == smooth_shaded_model(m),
{
    let ps = positions_of(m.vertices);
    let si = smooth_indices(ps, m.indices);
    assert(smooth_indices(ps, si) =~= si) by {
        assert forall|i: int| 0 <= i < si.len() implies smooth_indices(ps, si)[i] == si[i] by {
            let v = m.indices[i] as int;
            lemma_first_occurrence(ps, ps[v], v);
            let fo = first_occurrence(ps, ps[v]);
            assert(si[i] == fo as u32);
            assert(ps[si[i] as int] == ps[v]);
        }
    }
    assert(smooth_shaded_model(smooth_shaded_model(m)) =~= smooth_shaded_model(m));
}

/// The first index whose vertex has position `p`, given a witness index `w`
/// that holds `p`.
fn first_position_index<T: Position + Copy>(vertices: &Vec<T>, p: Vector3, w: usize) -> (r: usize)
    requires
        (w as int) < vertices@.len(),
        positions_of(vertices@)[w as int] == p,
    ensures
        r as int == first_occurrence(positions_of(vertices@), p),
        r <= w,
{
    let ghost ps = positions_of(vertices@);
    let mut k: usize = 0;
    while vertices[k].pos() != p
        invariant
            (w as int) < vertices@.len(),
            ps == positions_of(vertices@),
            ps[w as int] == p,
            k <= w,
            forall|j: int| 0 <= j < k ==> ps[j] != p,
        decreases w - k,
    {
        proof {
            assert(ps[k as int] != p);
            assert(k < w);
        }
        k = k + 1;
    }
    proof {
        assert(ps[k as int] == p);
        lemma_first_occurrence(ps, p, w as int);
        let fo = first_occurrence(ps, p);
        if (k as int) < fo {
            assert(ps[k as int] != p);
        }
        if fo < k as int {
            assert(ps[fo] != p);
        }
    }
    k
}

/// A fresh vector with the same contents.
fn copied_vec<U: Copy>(v: &Vec<U>) -> (r: Vec<U>)
    ensures
        r@ == v@,
{
    let mut r: Vec<U> = Vec::new();
    let mut i: usize = 0;
    let len = v.len();
    while i < len
        invariant
            i <= len,
            v@.len() == len,
            r@ == v@.subrange(0, i as int),
        decreases len - i,
    {
        r.push(v[i]);
        proof {
            assert(r@ =~= v@.subrange(0, i + 1));
        }
        i = i + 1;
    }
    proof {
        assert(r@ =~= v@);
    }
    r
}

} // verus!
