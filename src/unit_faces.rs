//! The naive and culled strategies: one unit quad per emitted voxel face.
use vstd::prelude::*;
use crate::chunk::{delinear, lemma_delinear_then_linear, Chunk, ChunkModel, MAX_DIM};
use crate::face::{component, dir_at, face_dir, FaceDir};
use crate::mesh::{mesh_from_quads, GreedyQuad, MeshBuffer};

verus! {

/// The unit quad of face `d` of the voxel `(x, y, z)`.
pub open spec fn unit_quad(d: FaceDir, x: int, y: int, z: int) -> GreedyQuad {
    GreedyQuad {
        face: d,
        layer: component((x, y, z), d.normal_axis()) as u32,
        u: component((x, y, z), d.u_axis()) as u32,
        v: component((x, y, z), d.v_axis()) as u32,
        width: 1,
        height: 1,
        value: true,
    }
}

/// Face `d` of the voxel `(x, y, z)` is present and its neighbour across
/// that face is empty (or outside the chunk).
pub open spec fn exposed(c: ChunkModel, d: FaceDir, x: int, y: int, z: int) -> bool {
    c.occupied(x, y, z) && !c.occupied(x + d.unit().0, y + d.unit().1, z + d.unit().2)
}

/// The faces that the voxel at index `i` emits among the first `k`
/// directions: all of them, or when `cull` only the exposed ones.
pub open spec fn voxel_faces(c: ChunkModel, i: int, k: int, cull: bool) -> Seq<GreedyQuad>
    decreases k,
{
    if k <= 0 {
        Seq::empty()
    } else {
        let prev = voxel_faces(c, i, k - 1, cull);
        let (x, y, z) = delinear(c.dim as int, i);
        let d = dir_at(k - 1);
        if !cull || exposed(c, d, x, y, z) {
            prev.push(unit_quad(d, x, y, z))
        } else {
            prev
        }
    }
}

/// The faces emitted by the first `n` voxels, in index order.
pub open spec fn faces_upto(c: ChunkModel, n: int, cull: bool) -> Seq<GreedyQuad>
    decreases n,
{
    if n <= 0 {
        Seq::empty()
    } else {
        faces_upto(c, n - 1, cull) + if c.cells[n - 1] {
            voxel_faces(c, n - 1, 6, cull)
        } else {
            Seq::empty()
        }
    }
}

/// Every face of every present voxel.
pub open spec fn naive_faces(c: ChunkModel) -> Seq<GreedyQuad> {
    faces_upto(c, c.cells.len() as int, false)
}

/// Every exposed face of every present voxel.
pub open spec fn culled_faces(c: ChunkModel) -> Seq<GreedyQuad> {
    faces_upto(c, c.cells.len() as int, true)
}

/// Number of present voxels among the first `n`.
pub open spec fn occupied_upto(c: ChunkModel, n: int) -> int
    decreases n,
{
    if n <= 0 {
        0
    } else {
        occupied_upto(c, n - 1) + if c.cells[n - 1] { 1int } else { 0 }
    }
}

/// Number of present voxels in the chunk.
pub open spec fn occupied_count(c: ChunkModel) -> int {
    occupied_upto(c, c.cells.len() as int)
}

proof fn lemma_voxel_faces_len(c: ChunkModel, i: int, k: int, cull: bool)
    requires
        0 <= k <= 6,
    ensures
        voxel_faces(c, i, k, cull).len() <= k,
        !cull ==> voxel_faces(c, i, k, cull).len() == k,
    decreases k,
{
    if k > 0 {
        lemma_voxel_faces_len(c, i, k - 1, cull);
    }
}

proof fn lemma_faces_upto_len(c: ChunkModel, n: int, cull: bool)
    requires
        0 <= n <= c.cells.len(),
    ensures
        faces_upto(c, n, cull).len() <= 6 * n,
        !cull ==> faces_upto(c, n, cull).len() == 6 * occupied_upto(c, n),
        (forall|i: int| 0 <= i < n ==> !#[trigger] c.cells[i]) ==> faces_upto(c, n, cull).len()
            == 0,
    decreases n,
{
    if n > 0 {
        lemma_faces_upto_len(c, n - 1, cull);
        lemma_voxel_faces_len(c, n - 1, 6, cull);
    }
}

/// The naive faces number six per present voxel.
pub proof fn lemma_naive_count(c: ChunkModel)
    requires
        c.wf(),
    ensures
        naive_faces(c).len() == 6 * occupied_count(c),
{
    lemma_faces_upto_len(c, c.cells.len() as int, false);
}

/// A chunk with no voxel emits no face, by either strategy.
pub proof fn lemma_empty_no_faces(c: ChunkModel)
    requires
        c.wf(),
        c.is_empty(),
    ensures
        naive_faces(c).len() == 0,
        culled_faces(c).len() == 0,
{
    lemma_faces_upto_len(c, c.cells.len() as int, false);
    lemma_faces_upto_len(c, c.cells.len() as int, true);
}

proof fn lemma_unit_quad_fits(c: ChunkModel, d: FaceDir, x: int, y: int, z: int)
    requires
        c.wf(),
        0 <= x < c.dim,
        0 <= y < c.dim,
        0 <= z < c.dim,
    ensures
        unit_quad(d, x, y, z).fits(MAX_DIM as int),
        unit_quad(d, x, y, z).layer == component((x, y, z), d.normal_axis()),
        unit_quad(d, x, y, z).u == component((x, y, z), d.u_axis()),
        unit_quad(d, x, y, z).v == component((x, y, z), d.v_axis()),
{
}

/// The unit quad of face `d` of the voxel `(x, y, z)`.
fn make_unit_quad(d: FaceDir, x: usize, y: usize, z: usize) -> (r: GreedyQuad)
    requires
        x < MAX_DIM,
        y < MAX_DIM,
        z < MAX_DIM,
    ensures
        r == unit_quad(d, x as int, y as int, z as int),
{
    let (layer, u, v) = match d {
        FaceDir::Up | FaceDir::Down => (y, x, z),
        FaceDir::North | FaceDir::South => (z, x, y),
        FaceDir::East | FaceDir::West => (x, y, z),
    };
    GreedyQuad { face: d, layer: layer as u32, u: u as u32, v: v as u32, width: 1, height: 1, value: true }
}

/// Whether face `d` of the present voxel `(x, y, z)` is exposed.
pub(crate) fn face_exposed(chunk: &Chunk, d: FaceDir, x: usize, y: usize, z: usize) -> (r: bool)
    requires
        chunk@.wf(),
        x < chunk@.dim,
        y < chunk@.dim,
        z < chunk@.dim,
    ensures
        r == !chunk@.occupied(
            x + d.unit().0,
            y + d.unit().1,
            z + d.unit().2,
        ),
{
    let n = d.normal();
    !chunk.occupied(x as i64 + n.0 as i64, y as i64 + n.1 as i64, z as i64 + n.2 as i64)
}

/// The unit faces of the chunk, voxel by voxel in index order and, within a
/// voxel, direction by direction: all faces of present voxels, or when
/// `cull` only the exposed ones.
fn unit_face_quads(chunk: &Chunk, cull: bool) -> (r: Vec<GreedyQuad>)
    requires
        chunk@.wf(),
    ensures
        r@ == faces_upto(chunk@, chunk@.cells.len() as int, cull),
{
    let voxels = chunk.voxels();
    let n = voxels.len();
    let mut out: Vec<GreedyQuad> = Vec::new();
    let mut i: usize = 0;
    proof {
        assert(voxels@.len() == chunk@.cells.len());
    }
    while i < n
        invariant
            chunk@.wf(),
            n == chunk@.cells.len(),
            voxels@.map_values(|v: crate::chunk::BoolVoxel| v.0) == chunk@.cells,
            i <= n,
            out@ == faces_upto(chunk@, i as int, cull),
        decreases n - i,
    {
        proof {
            assert(voxels@.map_values(|v: crate::chunk::BoolVoxel| v.0)[i as int] == voxels@[i as int].0);
        }
        if voxels[i].0 {
            let (x, y, z) = chunk.delinearize(i);
            let ghost start = out@;
            let mut k: usize = 0;
            while k < 6
                invariant
                    chunk@.wf(),
                    k <= 6,
                    i < n,
                    n == chunk@.cells.len(),
                    chunk@.cells[i as int],
                    (x as int, y as int, z as int) == delinear(chunk@.dim as int, i as int),
                    x < chunk@.dim,
                    y < chunk@.dim,
                    z < chunk@.dim,
                    out@ == start + voxel_faces(chunk@, i as int, k as int, cull),
                decreases 6 - k,
            {
                let d = face_dir(k);
                if !cull || face_exposed(chunk, d, x, y, z) {
                    proof {
                        lemma_delinear_then_linear(chunk@.dim as int, i as int);
                        assert(chunk@.occupied(x as int, y as int, z as int));
                    }
                    out.push(make_unit_quad(d, x, y, z));
                    proof {
                        assert(out@ =~= start + voxel_faces(chunk@, i as int, k + 1, cull));
                    }
                } else {
                    proof {
                        lemma_delinear_then_linear(chunk@.dim as int, i as int);
                        assert(chunk@.occupied(x as int, y as int, z as int));
                    }
                }
                k = k + 1;
            }
        } else {
            proof {
                assert(faces_upto(chunk@, i + 1, cull) =~= faces_upto(chunk@, i as int, cull));
            }
        }
        i = i + 1;
    }
    out
}

/// Every face of every present voxel, as unit quads.
pub fn naive_quads(chunk: &Chunk) -> (r: Vec<GreedyQuad>)
    requires
        chunk@.wf(),
    ensures
        r@ == naive_faces(chunk@),
{
    unit_face_quads(chunk, false)
}

/// Every exposed face of every present voxel, as unit quads.
pub fn culled_quads(chunk: &Chunk) -> (r: Vec<GreedyQuad>)
    requires
        chunk@.wf(),
    ensures
        r@ == culled_faces(chunk@),
{
    unit_face_quads(chunk, true)
}

proof fn lemma_faces_fit(c: ChunkModel, cull: bool)
    requires
        c.wf(),
    ensures
        forall|i: int|
            0 <= i < faces_upto(c, c.cells.len() as int, cull).len() ==> (#[trigger] faces_upto(
                c,
                c.cells.len() as int,
                cull,
            )[i]).fits(MAX_DIM as int),
        4 * faces_upto(c, c.cells.len() as int, cull).len() <= u32::MAX,
{
    lemma_faces_upto_fit(c, c.cells.len() as int, cull);
    lemma_faces_upto_len(c, c.cells.len() as int, cull);
    assert(6 * c.cells.len() <= 6 * (MAX_DIM * MAX_DIM * MAX_DIM)) by (nonlinear_arith)
        requires c.cells.len() == c.dim * c.dim * c.dim, c.dim <= MAX_DIM;
}

proof fn lemma_voxel_faces_fit(c: ChunkModel, i: int, k: int, cull: bool)
    requires
        c.wf(),
        0 <= i < c.cells.len(),
        0 <= k <= 6,
    ensures
        forall|j: int|
            0 <= j < voxel_faces(c, i, k, cull).len() ==> (#[trigger] voxel_faces(
                c,
                i,
                k,
                cull,
            )[j]).fits(MAX_DIM as int),
    decreases k,
{
    if k > 0 {
        lemma_voxel_faces_fit(c, i, k - 1, cull);
        lemma_delinear_then_linear(c.dim as int, i);
        let (x, y, z) = delinear(c.dim as int, i);
        lemma_unit_quad_fits(c, dir_at(k - 1), x, y, z);
        let prev = voxel_faces(c, i, k - 1, cull);
        let q = unit_quad(dir_at(k - 1), x, y, z);
        assert forall|j: int| 0 <= j < prev.push(q).len() implies (#[trigger] prev.push(q)[j]).fits(
            MAX_DIM as int,
        ) by {
            if j < prev.len() {
                assert(prev.push(q)[j] == prev[j]);
            }
        }
    }
}

proof fn lemma_faces_upto_fit(c: ChunkModel, n: int, cull: bool)
    requires
        c.wf(),
        0 <= n <= c.cells.len(),
    ensures
        forall|j: int|
            0 <= j < faces_upto(c, n, cull).len() ==> (#[trigger] faces_upto(c, n, cull)[j]).fits(
                MAX_DIM as int,
            ),
    decreases n,
{
    if n > 0 {
        lemma_faces_upto_fit(c, n - 1, cull);
        lemma_voxel_faces_fit(c, n - 1, 6, cull);
        let a = faces_upto(c, n - 1, cull);
        let b = if c.cells[n - 1] {
            voxel_faces(c, n - 1, 6, cull)
        } else {
            Seq::<GreedyQuad>::empty()
        };
        assert forall|j: int| 0 <= j < (a + b).len() implies (#[trigger] (a + b)[j]).fits(
            MAX_DIM as int,
        ) by {
            if j >= a.len() {
                assert((a + b)[j] == b[j - a.len()]);
            }
        }
    }
}

/// Naive meshing: a full cube for every present voxel.
pub fn mesh_naive(chunk: &Chunk) -> (r: MeshBuffer)
    requires
        chunk@.wf(),
    ensures
        r.holds(naive_faces(chunk@), false),
        r.wf(),
        r.positions@.len() == 24 * occupied_count(chunk@),
        r.indices@.len() == 36 * occupied_count(chunk@),
        chunk@.is_empty() ==> r.is_empty(),
{
    let quads = naive_quads(chunk);
    proof {
        lemma_faces_fit(chunk@, false);
        lemma_naive_count(chunk@);
        if chunk@.is_empty() {
            lemma_empty_no_faces(chunk@);
        }
    }
    mesh_from_quads(&quads, false)
}

/// Culled meshing: only the faces of present voxels whose neighbour across
/// the face is empty or outside the chunk.
pub fn mesh_culled(chunk: &Chunk) -> (r: MeshBuffer)
    requires
        chunk@.wf(),
    ensures
        r.holds(culled_faces(chunk@), false),
        r.wf(),
        chunk@.is_empty() ==> r.is_empty(),
{
    let quads = culled_quads(chunk);
    proof {
        lemma_faces_fit(chunk@, true);
        if chunk@.is_empty() {
            lemma_empty_no_faces(chunk@);
        }
    }
    mesh_from_quads(&quads, false)
}

} // verus!
