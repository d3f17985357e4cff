//! The voxel grid of one chunk: a flat array of `D³` voxels addressed by
//! coordinates through `linearize` / `delinearize`.
use vstd::prelude::*;
use vstd::arithmetic::div_mod::lemma_fundamental_div_mod;
use vstd::arithmetic::div_mod::lemma_fundamental_div_mod_converse;

verus! {

/// The largest edge length a chunk may have: it keeps every vertex index of
/// the densest mesh (24 vertices per voxel) within `u32`.
pub const MAX_DIM: usize = 512;

/// Index of the voxel `(x, y, z)` in a chunk of edge `d`.
pub open spec fn linear(d: int, x: int, y: int, z: int) -> int {
    z * d * d + y * d + x
}

/// Coordinates of the voxel at index `i` in a chunk of edge `d`.
pub open spec fn delinear(d: int, i: int) -> (int, int, int) {
    (i % d, (i / d) % d, (i / d) / d)
}

/// `linearize` after `delinearize` gives back every index of the chunk, and
/// `delinearize` lands inside the chunk.
pub proof fn lemma_delinear_then_linear(d: int, i: int)
    requires
        d >= 1,
        0 <= i < d * d * d,
    ensures
        linear(d, delinear(d, i).0, delinear(d, i).1, delinear(d, i).2) == i,
        0 <= delinear(d, i).0 < d,
        0 <= delinear(d, i).1 < d,
        0 <= delinear(d, i).2 < d,
{
    let x = i % d;
    let t = i / d;
    let y = t % d;
    let z = t / d;
    lemma_fundamental_div_mod(i, d);
    lemma_fundamental_div_mod(t, d);
    assert(0 <= t) by (nonlinear_arith)
        requires i == d * t + x, 0 <= x < d, 0 <= i, d >= 1;
    assert(0 <= z) by (nonlinear_arith)
        requires t == d * z + y, 0 <= y < d, 0 <= t, d >= 1;
    assert(z * d * d + y * d + x == i) by (nonlinear_arith)
        requires i == d * t + x, t == d * z + y;
    assert(z < d) by (nonlinear_arith)
        requires z * d * d + y * d + x == i, i < d * d * d, 0 <= x, 0 <= y, d >= 1;
}

/// `delinearize` after `linearize` gives back every coordinate triple of the
/// chunk, and `linearize` lands inside the chunk.
pub proof fn lemma_linear_then_delinear(d: int, x: int, y: int, z: int)
    requires
        d >= 1,
        0 <= x < d,
        0 <= y < d,
        0 <= z < d,
    ensures
        delinear(d, linear(d, x, y, z)) == (x, y, z),
        0 <= linear(d, x, y, z) < d * d * d,
{
    let i = linear(d, x, y, z);
    let t = z * d + y;
    assert(i == t * d + x) by (nonlinear_arith)
        requires i == z * d * d + y * d + x, t == z * d + y;
    lemma_fundamental_div_mod_converse(i, d, t, x);
    lemma_fundamental_div_mod_converse(t, d, z, y);
    assert(0 <= i < d * d * d) by (nonlinear_arith)
        requires i == t * d + x, t == z * d + y, 0 <= x < d, 0 <= y < d, 0 <= z < d;
}

/// One voxel: present or absent. Its merge value is the flag itself.
#[derive(Clone, Copy, Debug, Default, PartialEq, Eq, Structural)]
pub struct BoolVoxel(pub bool);

/// Whether a voxel hides what lies behind it.
#[derive(Clone, Copy, Debug, PartialEq, Eq, Structural)]
pub enum VoxelVisibility {
    Empty,
    Opaque,
}

impl BoolVoxel {
    pub fn get_visibility(&self) -> (r: VoxelVisibility)
        ensures
            r == (if self.0 { VoxelVisibility::Opaque } else { VoxelVisibility::Empty }),
    {
        if self.0 {
            VoxelVisibility::Opaque
        } else {
            VoxelVisibility::Empty
        }
    }

    /// The value that two faces must share to be merged into one quad.
    pub fn merge_value(&self) -> (r: bool)
        ensures
            r == self.0,
    {
        self.0
    }
}

/// The mathematical content of a chunk: its edge length and the occupancy of
/// each voxel, by linear index.
pub struct ChunkModel {
    pub dim: nat,
    pub cells: Seq<bool>,
}

impl ChunkModel {
    pub open spec fn wf(self) -> bool {
        &&& 1 <= self.dim <= MAX_DIM
        &&& self.cells.len() == self.dim * self.dim * self.dim
    }

    /// Occupancy at a coordinate; anything outside the chunk is empty.
    pub open spec fn occupied(self, x: int, y: int, z: int) -> bool {
        &&& 0 <= x < self.dim
        &&& 0 <= y < self.dim
        &&& 0 <= z < self.dim
        &&& self.cells[linear(self.dim as int, x, y, z)]
    }

    /// Whether no voxel of the chunk is present.
    pub open spec fn is_empty(self) -> bool {
        forall|i: int| 0 <= i < self.cells.len() ==> !#[trigger] self.cells[i]
    }
}

/// The reason a chunk cannot be built.
#[derive(Clone, Copy, Debug, PartialEq, Eq, Structural)]
pub enum ChunkError {
    /// The voxel data does not hold exactly `D³` entries.
    DimensionMismatch,
}

/// A cubic chunk of voxels of edge `D`, stored flat.
pub struct Chunk {
    dim: usize,
    voxels: Vec<BoolVoxel>,
}

impl View for Chunk {
    type V = ChunkModel;

    closed spec fn view(&self) -> ChunkModel {
        ChunkModel { dim: self.dim as nat, cells: self.voxels@.map_values(|v: BoolVoxel| v.0) }
    }
}

impl Chunk {
    /// Builds a chunk of edge `dim` from its voxels in linear order.
    pub fn new(dim: usize, voxels: Vec<BoolVoxel>) -> (r: Result<Chunk, ChunkError>)
        requires
            1 <= dim <= MAX_DIM,
        ensures
            voxels.len() == dim * dim * dim <==> r.is_ok(),
            r matches Ok(c) ==> c@ == (ChunkModel {
                dim: dim as nat,
                cells: voxels@.map_values(|v: BoolVoxel| v.0),
            }),
            r matches Err(e) ==> e == ChunkError::DimensionMismatch,
    {
        assert(dim * dim <= MAX_DIM * MAX_DIM) by (nonlinear_arith)
            requires 1 <= dim <= MAX_DIM;
        assert(dim * dim * dim <= MAX_DIM * MAX_DIM * MAX_DIM) by (nonlinear_arith)
            requires 1 <= dim <= MAX_DIM;
        let n = dim * dim * dim;
        if voxels.len() == n {
            Ok(Chunk { dim, voxels })
        } else {
            Err(ChunkError::DimensionMismatch)
        }
    }

    /// A chunk of edge `dim` with no voxel present.
    pub fn empty(dim: usize) -> (r: Chunk)
        requires
            1 <= dim <= MAX_DIM,
        ensures
            r@.wf(),
            r@.dim == dim,
            r@.is_empty(),
    {
        assert(dim * dim <= MAX_DIM * MAX_DIM) by (nonlinear_arith)
            requires 1 <= dim <= MAX_DIM;
        assert(dim * dim * dim <= MAX_DIM * MAX_DIM * MAX_DIM) by (nonlinear_arith)
            requires 1 <= dim <= MAX_DIM;
        let n = dim * dim * dim;
        let mut voxels: Vec<BoolVoxel> = Vec::new();
        while voxels.len() < n
            invariant
                voxels.len() <= n,
                forall|i: int| 0 <= i < voxels.len() ==> !(#[trigger] voxels@[i]).0,
            decreases n - voxels.len(),
        {
            voxels.push(BoolVoxel(false));
        }
        Chunk { dim, voxels }
    }

    pub fn dim(&self) -> (r: usize)
        ensures
            r == self@.dim,
    {
        self.dim
    }

    /// The voxels in linear order.
    pub fn voxels(&self) -> (r: &Vec<BoolVoxel>)
        ensures
            r@.map_values(|v: BoolVoxel| v.0) == self@.cells,
    {
        &self.voxels
    }

    /// Index of the voxel `(x, y, z)`: `z·D·D + y·D + x`.
    pub fn linearize(&self, x: usize, y: usize, z: usize) -> (r: usize)
        requires
            self@.wf(),
            x < self@.dim,
            y < self@.dim,
            z < self@.dim,
        ensures
            r == linear(self@.dim as int, x as int, y as int, z as int),
            r < self@.cells.len(),
    {
        let d = self.dim;
        proof {
            lemma_linear_then_delinear(d as int, x as int, y as int, z as int);
            assert(z * d <= d * d) by (nonlinear_arith)
                requires z < d;
            assert(d * d <= MAX_DIM * MAX_DIM) by (nonlinear_arith)
                requires 1 <= d <= MAX_DIM;
            assert(z * d * d <= d * d * d) by (nonlinear_arith)
                requires z < d;
            assert(d * d * d <= MAX_DIM * MAX_DIM * MAX_DIM) by (nonlinear_arith)
                requires 1 <= d <= MAX_DIM;
            assert(y * d <= d * d) by (nonlinear_arith)
                requires y < d;
            assert(z * d * d <= linear(d as int, x as int, y as int, z as int)) by (nonlinear_arith)
                requires 0 <= x, 0 <= y, d >= 1;
            assert(y * d <= linear(d as int, x as int, y as int, z as int)) by (nonlinear_arith)
                requires 0 <= x, 0 <= z, d >= 1;
        }
        z * d * d + y * d + x
    }

    /// Coordinates of the voxel at index `i`, by successive modulo and
    /// division by `D`.
    pub fn delinearize(&self, i: usize) -> (r: (usize, usize, usize))
        requires
            self@.wf(),
            i < self@.cells.len(),
        ensures
            (r.0 as int, r.1 as int, r.2 as int) == delinear(self@.dim as int, i as int),
            r.0 < self@.dim,
            r.1 < self@.dim,
            r.2 < self@.dim,
    {
        let d = self.dim;
        proof {
            lemma_delinear_then_linear(d as int, i as int);
        }
        let t = i / d;
        (i % d, t % d, t / d)
    }

    /// Occupancy at a coordinate; a coordinate outside `[0, D)` on any axis
    /// reads as empty.
    pub fn occupied(&self, x: i64, y: i64, z: i64) -> (r: bool)
        requires
            self@.wf(),
        ensures
            r == self@.occupied(x as int, y as int, z as int),
    {
        let d = self.dim as i64;
        if x < 0 || y < 0 || z < 0 || x >= d || y >= d || z >= d {
            false
        } else {
            let i = self.linearize(x as usize, y as usize, z as usize);
            self.voxels[i].0
        }
    }
}

} // verus!
