//! The three meshing strategies behind one operation.
use vstd::prelude::*;
use crate::chunk::{Chunk, ChunkModel};
use crate::greedy::{greedy_faces, mesh_greedy};
use crate::mesh::{pos2, pos3, vec3, GreedyQuad, MeshBuffer};
use crate::unit_faces::{culled_faces, mesh_culled, mesh_naive, naive_faces};

verus! {

/// How a chunk is turned into a mesh.
#[derive(Clone, Copy, Debug, PartialEq, Eq, Structural)]
pub enum Strategy {
    /// A full cube for every present voxel.
    Naive,
    /// Only the faces of present voxels whose neighbour is empty.
    Culled,
    /// Exposed faces merged into maximal rectangles.
    Greedy,
}

/// The quads a strategy emits for a chunk, in order.
pub open spec fn strategy_quads(c: ChunkModel, s: Strategy) -> Seq<GreedyQuad> {
    match s {
        Strategy::Naive => naive_faces(c),
        Strategy::Culled => culled_faces(c),
        Strategy::Greedy => greedy_faces(c),
    }
}

/// Whether a strategy scales texture coordinates by quad extent.
pub open spec fn scales_tex(s: Strategy) -> bool {
    s == Strategy::Greedy
}

/// Meshes `chunk` by the strategy `s`.
pub fn mesh_chunk(chunk: &Chunk, s: Strategy) -> (r: MeshBuffer)
    requires
        chunk@.wf(),
    ensures
        r.holds(strategy_quads(chunk@, s), scales_tex(s)),
        r.wf(),
        chunk@.is_empty() ==> r.is_empty(),
{
    match s {
        Strategy::Naive => mesh_naive(chunk),
        Strategy::Culled => mesh_culled(chunk),
        Strategy::Greedy => mesh_greedy(chunk),
    }
}

/// Meshing is deterministic: two buffers that each hold what a strategy
/// gives for the same chunk agree in every vertex, normal, texture
/// coordinate and index.
pub proof fn lemma_mesh_deterministic(c: ChunkModel, s: Strategy, m1: MeshBuffer, m2: MeshBuffer)
    requires
        c.wf(),
        m1.holds(strategy_quads(c, s), scales_tex(s)),
        m2.holds(strategy_quads(c, s), scales_tex(s)),
    ensures
        m1.positions@ == m2.positions@,
        m1.normals@ == m2.normals@,
        m1.tex_coords@ == m2.tex_coords@,
        m1.indices@ == m2.indices@,
{
    let qs = strategy_quads(c, s);
    assert forall|i: int| 0 <= i < m1.positions@.len() implies m1.positions@[i]
        == m2.positions@[i] by {
        assert(pos3(m1.positions@[i]) == pos3(m2.positions@[i]));
    }
    assert forall|i: int| 0 <= i < m1.normals@.len() implies m1.normals@[i] == m2.normals@[i] by {
        assert(vec3(m1.normals@[i]) == vec3(m2.normals@[i]));
    }
    assert forall|i: int| 0 <= i < m1.tex_coords@.len() implies m1.tex_coords@[i]
        == m2.tex_coords@[i] by {
        assert(pos2(m1.tex_coords@[i]) == pos2(m2.tex_coords@[i]));
    }
    assert forall|i: int| 0 <= i < m1.indices@.len() implies m1.indices@[i] == m2.indices@[i] by {
        assert(m1.indices@[i] == 4 * (i / 6) + crate::face::tri_corner(i % 6));
    }
    assert(m1.positions@ =~= m2.positions@);
    assert(m1.normals@ =~= m2.normals@);
    assert(m1.tex_coords@ =~= m2.tex_coords@);
    assert(m1.indices@ =~= m2.indices@);
}

/// An empty chunk gives an empty mesh under every strategy.
pub proof fn lemma_empty_chunk_empty_mesh(c: ChunkModel, s: Strategy, m: MeshBuffer)
    requires
        c.wf(),
        c.is_empty(),
        m.holds(strategy_quads(c, s), scales_tex(s)),
    ensures
        m.is_empty(),
{
    crate::unit_faces::lemma_empty_no_faces(c);
    crate::greedy::lemma_greedy_empty(c);
}

} // verus!
