//! Random population of a chunk: every voxel off the chunk's border is
//! present with even odds; the border stays empty.
use vstd::prelude::*;
use crate::chunk::{delinear, lemma_delinear_then_linear, BoolVoxel, Chunk, MAX_DIM};

verus! {

/// Relies on rand::random: a value drawn from the thread-local generator.
/// Nothing is known of the value drawn.
pub assume_specification<T>[ rand::random::<T> ]() -> (r: T)
    where
        rand::distributions::Standard: rand::distributions::Distribution<T>,
;

/// Whether the voxel `(x, y, z)` lies off the border of a chunk of edge `d`.
pub open spec fn interior(d: int, p: (int, int, int)) -> bool {
    &&& 1 <= p.0 < d - 1
    &&& 1 <= p.1 < d - 1
    &&& 1 <= p.2 < d - 1
}

/// The chunk of edge `dim` whose voxel `i` is present exactly when it lies
/// off the border and `draws[i]` holds.
pub fn chunk_from_draws(dim: usize, draws: &Vec<bool>) -> (r: Chunk)
    requires
        1 <= dim <= MAX_DIM,
        draws@.len() == dim * dim * dim,
    ensures
        r@.wf(),
        r@.dim == dim,
        forall|i: int|
            0 <= i < r@.cells.len() ==> #[trigger] r@.cells[i] == (draws@[i] && interior(
                dim as int,
                delinear(dim as int, i),
            )),
{
    let mut voxels: Vec<BoolVoxel> = Vec::new();
    let n = draws.len();
    let mut i: usize = 0;
    while i < n
        invariant
            1 <= dim <= MAX_DIM,
            n == draws@.len(),
            n == dim * dim * dim,
            i <= n,
            voxels@.len() == i,
            forall|k: int|
                0 <= k < i ==> (#[trigger] voxels@[k]).0 == (draws@[k] && interior(
                    dim as int,
                    delinear(dim as int, k),
                )),
        decreases n - i,
    {
        let t = i / dim;
        let (x, y, z) = (i % dim, t % dim, t / dim);
        proof {
            lemma_delinear_then_linear(dim as int, i as int);
        }
        let inside = 1 <= x && x + 1 < dim && 1 <= y && y + 1 < dim && 1 <= z && z + 1 < dim;
        voxels.push(BoolVoxel(draws[i] && inside));
        i = i + 1;
    }
    let r = Chunk::new(dim, voxels);
    match r {
        Ok(c) => c,
        Err(_) => {
            proof {
                assert(false);
            }
            Chunk::empty(dim)
        }
    }
}

/// A randomly populated chunk of edge `dim`: each voxel off the border is
/// present with even odds, and no border voxel is present.
pub fn generate_chunk(dim: usize) -> (r: Chunk)
    requires
        1 <= dim <= MAX_DIM,
    ensures
        r@.wf(),
        r@.dim == dim,
        forall|i: int|
            0 <= i < r@.cells.len() ==> #[trigger] r@.cells[i] ==> interior(
                dim as int,
                delinear(dim as int, i),
            ),
{
    proof {
        assert(dim * dim <= MAX_DIM * MAX_DIM) by (nonlinear_arith)
            requires 1 <= dim <= MAX_DIM;
        assert(dim * dim * dim <= MAX_DIM * MAX_DIM * MAX_DIM) by (nonlinear_arith)
            requires 1 <= dim <= MAX_DIM;
    }
    let n = dim * dim * dim;
    let mut draws: Vec<bool> = Vec::new();
    while draws.len() < n
        invariant
            draws@.len() <= n,
        decreases n - draws@.len(),
    {
        let b: bool = rand::random::<bool>();
        draws.push(b);
    }
    chunk_from_draws(dim, &draws)
}

} // verus!
