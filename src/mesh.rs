//! Quads and the mesh buffer they are written into.
use vstd::prelude::*;
use crate::chunk::MAX_DIM;
use crate::face::{component, tri_corner, quad_index, Face, FaceDir};

verus! {

/// A rectangle of faces in one layer of the chunk, all facing `face`.
///
/// `layer` is the coordinate along the face's normal axis; `(u, v)` is the
/// minimum corner in the layer's plane, and the rectangle spans `width` cells
/// along the face's u axis and `height` cells along its v axis.
#[derive(Clone, Copy, Debug, PartialEq, Eq, Structural)]
pub struct GreedyQuad {
    pub face: FaceDir,
    pub layer: u32,
    pub u: u32,
    pub v: u32,
    pub width: u32,
    pub height: u32,
    /// The merge value shared by every cell the quad covers.
    pub value: bool,
}

pub open spec fn pos3(p: (u32, u32, u32)) -> (int, int, int) {
    (p.0 as int, p.1 as int, p.2 as int)
}

pub open spec fn vec3(p: (i32, i32, i32)) -> (int, int, int) {
    (p.0 as int, p.1 as int, p.2 as int)
}

pub open spec fn pos2(p: (u32, u32)) -> (int, int) {
    (p.0 as int, p.1 as int)
}

impl GreedyQuad {
    /// The voxel at the quad's minimum corner.
    pub open spec fn origin(self) -> (int, int, int) {
        let (l, u, v) = (self.layer as int, self.u as int, self.v as int);
        if self.face.normal_axis() == 1 {
            (u, l, v)
        } else if self.face.normal_axis() == 2 {
            (u, v, l)
        } else {
            (l, u, v)
        }
    }

    /// How far the quad stretches the unit face along each axis.
    pub open spec fn scale(self) -> (int, int, int) {
        let (w, h) = (self.width as int, self.height as int);
        if self.face.normal_axis() == 1 {
            (w, 1, h)
        } else if self.face.normal_axis() == 2 {
            (w, h, 1)
        } else {
            (1, w, h)
        }
    }

    /// Corner `j` of the quad: the unit face's corner, scaled by the quad's
    /// extent and moved to its origin.
    pub open spec fn corner(self, j: int) -> (int, int, int) {
        let (o, s, f) = (self.origin(), self.scale(), self.face.offset(j));
        (o.0 + f.0 * s.0, o.1 + f.1 * s.1, o.2 + f.2 * s.2)
    }

    /// Texture coordinate of corner `j`: scaled by the quad's extent when
    /// `scaled`, else the placeholder `(0, 0)`.
    pub open spec fn tex(self, j: int, scaled: bool) -> (int, int) {
        if scaled {
            let f = self.face.offset(j);
            (
                component(f, self.face.u_axis()) * self.width,
                component(f, self.face.v_axis()) * self.height,
            )
        } else {
            (0, 0)
        }
    }

    /// The quad is non-empty and lies inside a chunk of edge `d`.
    pub open spec fn fits(self, d: int) -> bool {
        &&& self.width >= 1
        &&& self.height >= 1
        &&& self.layer < d
        &&& self.u + self.width <= d
        &&& self.v + self.height <= d
    }

    /// Number of unit faces the quad covers.
    pub open spec fn area(self) -> int {
        self.width * self.height
    }

    /// Corner `j` of the quad, in chunk coordinates.
    pub fn corner_position(&self, j: usize) -> (r: (u32, u32, u32))
        requires
            self.fits(MAX_DIM as int),
            j < 4,
        ensures
            pos3(r) == self.corner(j as int),
    {
        let f = Face::of(self.face);
        let c = f.vertices[j];
        let (l, u, v, w, h) = (self.layer, self.u, self.v, self.width, self.height);
        proof {
            self.face.lemma_offset_unit(j as int);
            assert(pos3(c) == self.face.offset(j as int));
            assert(c.0 * w <= w && c.1 * w <= w && c.2 * w <= w) by (nonlinear_arith)
                requires c.0 <= 1, c.1 <= 1, c.2 <= 1;
            assert(c.0 * h <= h && c.1 * h <= h && c.2 * h <= h) by (nonlinear_arith)
                requires c.0 <= 1, c.1 <= 1, c.2 <= 1;
            let f1 = self.face.offset(j as int).1;
            assert(f1 * 1 == f1);
        }
        match self.face {
            FaceDir::Up | FaceDir::Down => (u + c.0 * w, l + c.1, v + c.2 * h),
            FaceDir::North | FaceDir::South => (u + c.0 * w, v + c.1 * h, l + c.2),
            FaceDir::East | FaceDir::West => (l + c.0, u + c.1 * w, v + c.2 * h),
        }
    }

    /// Texture coordinate of corner `j`.
    pub fn tex_coord(&self, j: usize, scaled: bool) -> (r: (u32, u32))
        requires
            self.fits(MAX_DIM as int),
            j < 4,
        ensures
            pos2(r) == self.tex(j as int, scaled),
    {
        if !scaled {
            return (0, 0);
        }
        let f = Face::of(self.face);
        let c = f.vertices[j];
        let (w, h) = (self.width, self.height);
        proof {
            self.face.lemma_offset_unit(j as int);
            assert(c.0 * w <= w && c.1 * w <= w && c.2 * w <= w) by (nonlinear_arith)
                requires c.0 <= 1, c.1 <= 1, c.2 <= 1;
            assert(c.0 * h <= h && c.1 * h <= h && c.2 * h <= h) by (nonlinear_arith)
                requires c.0 <= 1, c.1 <= 1, c.2 <= 1;
        }
        match self.face {
            FaceDir::Up | FaceDir::Down => (c.0 * w, c.2 * h),
            FaceDir::North | FaceDir::South => (c.0 * w, c.1 * h),
            FaceDir::East | FaceDir::West => (c.1 * w, c.2 * h),
        }
    }
}

/// Vertex positions, normals and texture coordinates (index-aligned), and
/// triangle indices into them.
pub struct MeshBuffer {
    pub positions: Vec<(u32, u32, u32)>,
    pub normals: Vec<(i32, i32, i32)>,
    pub tex_coords: Vec<(u32, u32)>,
    pub indices: Vec<u32>,
}

impl MeshBuffer {
    /// The three vertex sequences are aligned, and every index names a vertex.
    pub open spec fn wf(self) -> bool {
        &&& self.normals@.len() == self.positions@.len()
        &&& self.tex_coords@.len() == self.positions@.len()
        &&& forall|i: int|
            0 <= i < self.indices@.len() ==> #[trigger] self.indices@[i] < self.positions@.len()
    }

    /// The buffer is exactly the geometry of `qs`, in order: four vertices
    /// and six indices per quad, the indices offset by the vertices before.
    pub open spec fn holds(self, qs: Seq<GreedyQuad>, scaled: bool) -> bool {
        &&& self.positions@.len() == 4 * qs.len()
        &&& self.normals@.len() == 4 * qs.len()
        &&& self.tex_coords@.len() == 4 * qs.len()
        &&& self.indices@.len() == 6 * qs.len()
        &&& forall|i: int|
            0 <= i < 4 * qs.len() ==> pos3(#[trigger] self.positions@[i]) == qs[i / 4].corner(
                i % 4,
            )
        &&& forall|i: int|
            0 <= i < 4 * qs.len() ==> vec3(#[trigger] self.normals@[i]) == qs[i / 4].face.unit()
        &&& forall|i: int|
            0 <= i < 4 * qs.len() ==> pos2(#[trigger] self.tex_coords@[i]) == qs[i / 4].tex(
                i % 4,
                scaled,
            )
        &&& forall|i: int|
            0 <= i < 6 * qs.len() ==> #[trigger] self.indices@[i] == 4 * (i / 6) + tri_corner(
                i % 6,
            )
    }

    /// Whether the buffer has neither vertices nor indices.
    pub open spec fn is_empty(self) -> bool {
        &&& self.positions@.len() == 0
        &&& self.normals@.len() == 0
        &&& self.tex_coords@.len() == 0
        &&& self.indices@.len() == 0
    }

    /// `new` is `old` with the geometry of `q` appended.
    pub open spec fn appended(old: MeshBuffer, new: MeshBuffer, q: GreedyQuad, scaled: bool) -> bool {
        let n = old.positions@.len();
        let m = old.indices@.len();
        &&& new.positions@.len() == n + 4
        &&& new.normals@.len() == old.normals@.len() + 4
        &&& new.tex_coords@.len() == old.tex_coords@.len() + 4
        &&& new.indices@.len() == m + 6
        &&& new.positions@.subrange(0, n as int) == old.positions@
        &&& new.normals@.subrange(0, old.normals@.len() as int) == old.normals@
        &&& new.tex_coords@.subrange(0, old.tex_coords@.len() as int) == old.tex_coords@
        &&& new.indices@.subrange(0, m as int) == old.indices@
        &&& forall|j: int| 0 <= j < 4 ==> pos3(#[trigger] new.positions@[n + j]) == q.corner(j)
        &&& forall|j: int|
            0 <= j < 4 ==> vec3(#[trigger] new.normals@[old.normals@.len() + j]) == q.face.unit()
        &&& forall|j: int|
            0 <= j < 4 ==> pos2(#[trigger] new.tex_coords@[old.tex_coords@.len() + j]) == q.tex(
                j,
                scaled,
            )
        &&& forall|t: int| 0 <= t < 6 ==> #[trigger] new.indices@[m + t] == n + tri_corner(t)
    }

    pub fn new() -> (r: MeshBuffer)
        ensures
            r.is_empty(),
            r.holds(Seq::empty(), false),
            r.holds(Seq::empty(), true),
    {
        MeshBuffer {
            positions: Vec::new(),
            normals: Vec::new(),
            tex_coords: Vec::new(),
            indices: Vec::new(),
        }
    }

    /// Appends the geometry of `q`: its four vertices first, then its six
    /// indices offset by the vertex count before the append.
    pub fn push_quad(&mut self, q: &GreedyQuad, scaled: bool)
        requires
            q.fits(MAX_DIM as int),
            old(self).positions@.len() + 4 <= u32::MAX,
        ensures
            MeshBuffer::appended(*old(self), *final(self), *q, scaled),
    {
        let base = self.positions.len() as u32;
        let normal = q.face.normal();
        let mut j: usize = 0;
        while j < 4
            invariant
                j <= 4,
                q.fits(MAX_DIM as int),
                base == old(self).positions@.len(),
                self.positions@.len() == base + j,
                self.normals@.len() == old(self).normals@.len() + j,
                self.tex_coords@.len() == old(self).tex_coords@.len() + j,
                self.indices@ == old(self).indices@,
                vec3(normal) == q.face.unit(),
                self.positions@.subrange(0, base as int) == old(self).positions@,
                self.normals@.subrange(0, old(self).normals@.len() as int) == old(self).normals@,
                self.tex_coords@.subrange(0, old(self).tex_coords@.len() as int)
                    == old(self).tex_coords@,
                forall|k: int| 0 <= k < j ==> pos3(#[trigger] self.positions@[base + k]) == q.corner(k),
                forall|k: int|
                    0 <= k < j ==> vec3(#[trigger] self.normals@[old(self).normals@.len() + k])
                        == q.face.unit(),
                forall|k: int|
                    0 <= k < j ==> pos2(
                        #[trigger] self.tex_coords@[old(self).tex_coords@.len() + k],
                    ) == q.tex(k, scaled),
            decreases 4 - j,
        {
            let p = q.corner_position(j);
            let t = q.tex_coord(j, scaled);
            self.positions.push(p);
            self.normals.push(normal);
            self.tex_coords.push(t);
            proof {
                assert(self.positions@.subrange(0, base as int) =~= old(self).positions@);
                assert(self.normals@.subrange(0, old(self).normals@.len() as int)
                    =~= old(self).normals@);
                assert(self.tex_coords@.subrange(0, old(self).tex_coords@.len() as int)
                    =~= old(self).tex_coords@);
            }
            j = j + 1;
        }
        let ghost mid = *self;
        let mut t: usize = 0;
        while t < 6
            invariant
                t <= 6,
                self.positions@ == mid.positions@,
                self.normals@ == mid.normals@,
                self.tex_coords@ == mid.tex_coords@,
                base + 4 <= u32::MAX,
                base == old(self).positions@.len(),
                self.indices@.len() == old(self).indices@.len() + t,
                self.indices@.subrange(0, old(self).indices@.len() as int) == old(self).indices@,
                forall|k: int|
                    0 <= k < t ==> #[trigger] self.indices@[old(self).indices@.len() + k] == base
                        + tri_corner(k),
            decreases 6 - t,
        {
            let k = quad_index(t);
            self.indices.push(base + k);
            proof {
                assert(self.indices@.subrange(0, old(self).indices@.len() as int)
                    =~= old(self).indices@);
            }
            t = t + 1;
        }
    }
}

/// Appending the geometry of one more quad to a buffer that holds `qs`
/// gives a buffer that holds `qs` followed by that quad.
pub proof fn lemma_appended_holds(
    old: MeshBuffer,
    new: MeshBuffer,
    qs: Seq<GreedyQuad>,
    q: GreedyQuad,
    scaled: bool,
)
    requires
        old.holds(qs, scaled),
        MeshBuffer::appended(old, new, q, scaled),
    ensures
        new.holds(qs.push(q), scaled),
{
    let n = qs.len() as int;
    let qs2 = qs.push(q);
    assert forall|i: int| 0 <= i < 4 * (n + 1) implies pos3(#[trigger] new.positions@[i])
        == qs2[i / 4].corner(i % 4) by {
        if i < 4 * n {
            assert(new.positions@[i] == new.positions@.subrange(0, 4 * n)[i]);
        } else {
            assert(new.positions@[4 * n + (i - 4 * n)] == new.positions@[i]);
        }
    }
    assert forall|i: int| 0 <= i < 4 * (n + 1) implies vec3(#[trigger] new.normals@[i])
        == qs2[i / 4].face.unit() by {
        if i < 4 * n {
            assert(new.normals@[i] == new.normals@.subrange(0, 4 * n)[i]);
        } else {
            assert(new.normals@[4 * n + (i - 4 * n)] == new.normals@[i]);
        }
    }
    assert forall|i: int| 0 <= i < 4 * (n + 1) implies pos2(#[trigger] new.tex_coords@[i])
        == qs2[i / 4].tex(i % 4, scaled) by {
        if i < 4 * n {
            assert(new.tex_coords@[i] == new.tex_coords@.subrange(0, 4 * n)[i]);
        } else {
            assert(new.tex_coords@[4 * n + (i - 4 * n)] == new.tex_coords@[i]);
        }
    }
    assert forall|i: int| 0 <= i < 6 * (n + 1) implies #[trigger] new.indices@[i] == 4 * (i / 6)
        + tri_corner(i % 6) by {
        if i < 6 * n {
            assert(new.indices@[i] == new.indices@.subrange(0, 6 * n)[i]);
        } else {
            assert(new.indices@[6 * n + (i - 6 * n)] == new.indices@[i]);
        }
    }
}

/// A buffer that holds the geometry of some quads is well formed.
pub proof fn lemma_holds_wf(m: MeshBuffer, qs: Seq<GreedyQuad>, scaled: bool)
    requires
        m.holds(qs, scaled),
    ensures
        m.wf(),
{
    assert forall|i: int| 0 <= i < m.indices@.len() implies #[trigger] m.indices@[i]
        < m.positions@.len() by {
        assert(i / 6 < qs.len());
        assert(4 * (i / 6) + 3 < 4 * qs.len());
    }
}

/// The mesh of a sequence of quads, in order.
pub fn mesh_from_quads(quads: &Vec<GreedyQuad>, scaled: bool) -> (r: MeshBuffer)
    requires
        forall|i: int| 0 <= i < quads@.len() ==> (#[trigger] quads@[i]).fits(MAX_DIM as int),
        4 * quads@.len() <= u32::MAX,
    ensures
        r.holds(quads@, scaled),
        r.wf(),
{
    let mut m = MeshBuffer::new();
    let mut i: usize = 0;
    while i < quads.len()
        invariant
            i <= quads@.len(),
            forall|k: int| 0 <= k < quads@.len() ==> (#[trigger] quads@[k]).fits(MAX_DIM as int),
            4 * quads@.len() <= u32::MAX,
            m.holds(quads@.subrange(0, i as int), scaled),
        decreases quads@.len() - i,
    {
        let ghost before = m;
        m.push_quad(&quads[i], scaled);
        proof {
            lemma_appended_holds(before, m, quads@.subrange(0, i as int), quads@[i as int], scaled);
            assert(quads@.subrange(0, i as int).push(quads@[i as int]) =~= quads@.subrange(
                0,
                i + 1,
            ));
        }
        i = i + 1;
    }
    proof {
        assert(quads@.subrange(0, quads@.len() as int) =~= quads@);
        lemma_holds_wf(m, quads@, scaled);
    }
    m
}

} // verus!
