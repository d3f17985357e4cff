//! The greedy strategy: per direction and per layer, the exposed faces are
//! merged into maximal rectangles, scanning the layer in row-major order and
//! growing each rectangle first in width, then in height.
use vstd::prelude::*;
use crate::chunk::{lemma_linear_then_delinear, Chunk, ChunkModel, MAX_DIM};
use crate::face::{dir_at, face_dir, FaceDir};
use crate::mesh::{mesh_from_quads, GreedyQuad, MeshBuffer};
use crate::unit_faces::{exposed, face_exposed};

verus! {

/// The voxel at cell `(u, v)` of layer `l` of direction `d`.
pub open spec fn cell_voxel(d: FaceDir, l: int, u: int, v: int) -> (int, int, int) {
    if d.normal_axis() == 1 {
        (u, l, v)
    } else if d.normal_axis() == 2 {
        (u, v, l)
    } else {
        (l, u, v)
    }
}

/// The mask of layer `l` of direction `d`, row-major (`v·D + u`): a cell is
/// active when its voxel's face `d` is exposed.
pub open spec fn layer_mask(c: ChunkModel, d: FaceDir, l: int) -> Seq<bool> {
    let n = c.dim as int;
    Seq::new(
        (n * n) as nat,
        |p: int|
            {
                let (x, y, z) = cell_voxel(d, l, p % n, p / n);
                exposed(c, d, x, y, z)
            },
    )
}

/// Cell `(u, v)` is active and not yet consumed.
pub open spec fn free(mask: Seq<bool>, cons: Seq<bool>, n: int, u: int, v: int) -> bool {
    mask[v * n + u] && !cons[v * n + u]
}

/// The `w` cells of row `r` from column `u` on are all free.
pub open spec fn row_free(mask: Seq<bool>, cons: Seq<bool>, n: int, u: int, r: int, w: int) -> bool {
    forall|i: int| 0 <= i < w ==> #[trigger] free(mask, cons, n, u + i, r)
}

/// The width reached from `w` by extending along row `v` while the next cell
/// is free.
pub open spec fn run_width(mask: Seq<bool>, cons: Seq<bool>, n: int, u: int, v: int, w: int) -> int
    decreases n - u - w,
{
    if u + w < n && free(mask, cons, n, u + w, v) {
        run_width(mask, cons, n, u, v, w + 1)
    } else {
        w
    }
}

/// The height reached from `h` by extending downwards while the whole span
/// of the next row is free.
pub open spec fn run_height(
    mask: Seq<bool>,
    cons: Seq<bool>,
    n: int,
    u: int,
    v: int,
    w: int,
    h: int,
) -> int
    decreases n - v - h,
{
    if v + h < n && row_free(mask, cons, n, u, v + h, w) {
        run_height(mask, cons, n, u, v, w, h + 1)
    } else {
        h
    }
}

/// `cons` with the first `k` cells of row `r` from column `u` on consumed.
pub open spec fn mark_row(cons: Seq<bool>, n: int, u: int, r: int, k: int) -> Seq<bool>
    decreases k,
{
    if k <= 0 {
        cons
    } else {
        mark_row(cons, n, u, r, k - 1).update(r * n + u + k - 1, true)
    }
}

/// `cons` with the first `k` rows of the `w`-wide rectangle at `(u, v)`
/// consumed.
pub open spec fn mark_rect(cons: Seq<bool>, n: int, u: int, v: int, w: int, k: int) -> Seq<bool>
    decreases k,
{
    if k <= 0 {
        cons
    } else {
        mark_row(mark_rect(cons, n, u, v, w, k - 1), n, u, v + k - 1, w)
    }
}

pub open spec fn quad_at(d: FaceDir, l: int, u: int, v: int, w: int, h: int) -> GreedyQuad {
    GreedyQuad {
        face: d,
        layer: l as u32,
        u: u as u32,
        v: v as u32,
        width: w as u32,
        height: h as u32,
        value: true,
    }
}

/// The quads found by scanning the layer from cell `(u, v)` on, in
/// row-major order, with the cells of `cons` already consumed.
pub open spec fn scan(
    mask: Seq<bool>,
    n: int,
    d: FaceDir,
    l: int,
    cons: Seq<bool>,
    u: int,
    v: int,
) -> Seq<GreedyQuad>
    decreases n - v, n - u,
{
    if v >= n {
        Seq::empty()
    } else if u >= n {
        scan(mask, n, d, l, cons, 0, v + 1)
    } else if free(mask, cons, n, u, v) {
        let w = run_width(mask, cons, n, u, v, 1);
        let h = run_height(mask, cons, n, u, v, w, 1);
        seq![quad_at(d, l, u, v, w, h)] + scan(
            mask,
            n,
            d,
            l,
            mark_rect(cons, n, u, v, w, h),
            u + 1,
            v,
        )
    } else {
        scan(mask, n, d, l, cons, u + 1, v)
    }
}

/// The quads of layer `l` of direction `d`.
pub open spec fn layer_quads(c: ChunkModel, d: FaceDir, l: int) -> Seq<GreedyQuad> {
    let n = c.dim as int;
    scan(layer_mask(c, d, l), n, d, l, Seq::new((n * n) as nat, |p: int| false), 0, 0)
}

/// The quads of the first `k` layers of direction `d`.
pub open spec fn dir_quads(c: ChunkModel, d: FaceDir, k: int) -> Seq<GreedyQuad>
    decreases k,
{
    if k <= 0 {
        Seq::empty()
    } else {
        dir_quads(c, d, k - 1) + layer_quads(c, d, k - 1)
    }
}

/// The quads of the first `k` directions.
pub open spec fn greedy_upto(c: ChunkModel, k: int) -> Seq<GreedyQuad>
    decreases k,
{
    if k <= 0 {
        Seq::empty()
    } else {
        greedy_upto(c, k - 1) + dir_quads(c, dir_at(k - 1), c.dim as int)
    }
}

/// The quads of the greedy strategy, direction by direction, layer by layer.
pub open spec fn greedy_faces(c: ChunkModel) -> Seq<GreedyQuad> {
    greedy_upto(c, 6)
}


proof fn lemma_cell_index(n: int, u: int, v: int)
    requires
        0 <= u < n <= MAX_DIM,
        0 <= v < n,
    ensures
        0 <= v * n <= v * n + u < n * n <= MAX_DIM * MAX_DIM,
{
    assert(0 <= v * n + u < n * n) by (nonlinear_arith)
        requires 0 <= u < n, 0 <= v < n;
    assert(0 <= v * n) by (nonlinear_arith)
        requires 0 <= v, 0 <= n;
    assert(n * n <= MAX_DIM * MAX_DIM) by (nonlinear_arith)
        requires 0 <= n <= MAX_DIM;
}

/// The voxel at cell `(u, v)` of layer `l` of direction `d`.
fn cell_voxel_exec(d: FaceDir, l: usize, u: usize, v: usize) -> (r: (usize, usize, usize))
    ensures
        (r.0 as int, r.1 as int, r.2 as int) == cell_voxel(d, l as int, u as int, v as int),
{
    match d {
        FaceDir::Up | FaceDir::Down => (u, l, v),
        FaceDir::North | FaceDir::South => (u, v, l),
        FaceDir::East | FaceDir::West => (l, u, v),
    }
}

/// Builds the mask of layer `l` of direction `d`.
fn build_mask(chunk: &Chunk, d: FaceDir, l: usize) -> (r: Vec<bool>)
    requires
        chunk@.wf(),
        l < chunk@.dim,
    ensures
        r@ == layer_mask(chunk@, d, l as int),
{
    let n = chunk.dim();
    proof {
        assert(n * n <= MAX_DIM * MAX_DIM) by (nonlinear_arith)
            requires n <= MAX_DIM;
    }
    let total = n * n;
    let mut mask: Vec<bool> = Vec::new();
    let mut p: usize = 0;
    while p < total
        invariant
            chunk@.wf(),
            n == chunk@.dim,
            l < n,
            total == n * n,
            p <= total,
            mask@.len() == p,
            forall|q: int| 0 <= q < p ==> mask@[q] == #[trigger] layer_mask(chunk@, d, l as int)[q],
        decreases total - p,
    {
        let u = p % n;
        let v = p / n;
        proof {
            assert(v < n) by (nonlinear_arith)
                requires v == p / n, p < n * n, n >= 1;
        }
        let (x, y, z) = cell_voxel_exec(d, l, u, v);
        let a = chunk.occupied(x as i64, y as i64, z as i64) && face_exposed(chunk, d, x, y, z);
        mask.push(a);
        p = p + 1;
    }
    proof {
        assert(mask@ =~= layer_mask(chunk@, d, l as int));
    }
    mask
}

/// Whether the `w` cells of row `r` from column `u` on are all free.
fn row_is_free(mask: &Vec<bool>, cons: &Vec<bool>, n: usize, u: usize, r: usize, w: usize) -> (res: bool)
    requires
        n <= MAX_DIM,
        mask@.len() == n * n,
        cons@.len() == n * n,
        u + w <= n,
        r < n,
    ensures
        res == row_free(mask@, cons@, n as int, u as int, r as int, w as int),
{
    let mut i: usize = 0;
    while i < w
        invariant
            n <= MAX_DIM,
            mask@.len() == n * n,
            cons@.len() == n * n,
            u + w <= n,
            r < n,
            i <= w,
            row_free(mask@, cons@, n as int, u as int, r as int, i as int),
        decreases w - i,
    {
        proof {
            lemma_cell_index(n as int, u + i, r as int);
        }
        let k = r * n + u + i;
        if !mask[k] || cons[k] {
            assert(!free(mask@, cons@, n as int, u + i, r as int));
            return false;
        }
        proof {
            assert forall|j: int| 0 <= j < i + 1 implies #[trigger] free(mask@, cons@, n as int, u + j, r as int) by {
                if j < i {
                    assert(free(mask@, cons@, n as int, u + j, r as int));
                }
            }
        }
        i = i + 1;
    }
    true
}

/// Consumes the `w × h` rectangle at `(u, v)`.
fn mark_consumed(cons: &mut Vec<bool>, n: usize, u: usize, v: usize, w: usize, h: usize)
    requires
        n <= MAX_DIM,
        old(cons)@.len() == n * n,
        u + w <= n,
        v + h <= n,
    ensures
        final(cons)@ == mark_rect(old(cons)@, n as int, u as int, v as int, w as int, h as int),
        final(cons)@.len() == n * n,
{
    let mut t: usize = 0;
    while t < h
        invariant
            n <= MAX_DIM,
            cons@.len() == n * n,
            u + w <= n,
            v + h <= n,
            t <= h,
            cons@ == mark_rect(old(cons)@, n as int, u as int, v as int, w as int, t as int),
        decreases h - t,
    {
        let ghost before = cons@;
        let mut i: usize = 0;
        while i < w
            invariant
                n <= MAX_DIM,
                cons@.len() == n * n,
                u + w <= n,
                v + h <= n,
                t < h,
                i <= w,
                cons@ == mark_row(before, n as int, u as int, v + t, i as int),
            decreases w - i,
        {
            proof {
                lemma_cell_index(n as int, u + i, v + t);
            }
            cons.set((v + t) * n + u + i, true);
            proof {
                assert((v + t) * n + u + (i + 1) - 1 == (v + t) * n + u + i);
            }
            i = i + 1;
        }
        t = t + 1;
    }
}


/// Whether cell `(u, v)` is active and not yet consumed.
fn cell_free(mask: &Vec<bool>, cons: &Vec<bool>, n: usize, u: usize, v: usize) -> (r: bool)
    requires
        n <= MAX_DIM,
        mask@.len() == n * n,
        cons@.len() == n * n,
        u < n,
        v < n,
    ensures
        r == free(mask@, cons@, n as int, u as int, v as int),
{
    proof {
        lemma_cell_index(n as int, u as int, v as int);
    }
    mask[v * n + u] && !cons[v * n + u]
}

pub(crate) proof fn lemma_run_width(mask: Seq<bool>, cons: Seq<bool>, n: int, u: int, v: int, w: int)
    requires
        0 <= u,
        1 <= w,
        u + w <= n,
    ensures
        w <= run_width(mask, cons, n, u, v, w),
        u + run_width(mask, cons, n, u, v, w) <= n,
    decreases n - u - w,
{
    if u + w < n && free(mask, cons, n, u + w, v) {
        lemma_run_width(mask, cons, n, u, v, w + 1);
    }
}

pub(crate) proof fn lemma_run_height(
    mask: Seq<bool>,
    cons: Seq<bool>,
    n: int,
    u: int,
    v: int,
    w: int,
    h: int,
)
    requires
        0 <= v,
        1 <= h,
        v + h <= n,
    ensures
        h <= run_height(mask, cons, n, u, v, w, h),
        v + run_height(mask, cons, n, u, v, w, h) <= n,
    decreases n - v - h,
{
    if v + h < n && row_free(mask, cons, n, u, v + h, w) {
        lemma_run_height(mask, cons, n, u, v, w, h + 1);
    }
}

/// Every quad of a scan lies in the chunk, and a scan from `(u, v)` yields
/// at most one quad per remaining cell.
proof fn lemma_scan_bounds(
    mask: Seq<bool>,
    n: int,
    d: FaceDir,
    l: int,
    cons: Seq<bool>,
    u: int,
    v: int,
)
    requires
        1 <= n <= MAX_DIM,
        0 <= l < n,
        0 <= u <= n,
        0 <= v <= n,
    ensures
        scan(mask, n, d, l, cons, u, v).len() <= (n - v) * n + (n - u),
        forall|i: int|
            0 <= i < scan(mask, n, d, l, cons, u, v).len() ==> (#[trigger] scan(
                mask,
                n,
                d,
                l,
                cons,
                u,
                v,
            )[i]).fits(MAX_DIM as int),
    decreases n - v, n - u,
{
    if v >= n {
    } else if u >= n {
        lemma_scan_bounds(mask, n, d, l, cons, 0, v + 1);
        assert((n - (v + 1)) * n + n == (n - v) * n) by (nonlinear_arith);
    } else if free(mask, cons, n, u, v) {
        let w = run_width(mask, cons, n, u, v, 1);
        lemma_run_width(mask, cons, n, u, v, 1);
        let h = run_height(mask, cons, n, u, v, w, 1);
        lemma_run_height(mask, cons, n, u, v, w, 1);
        let rest = scan(mask, n, d, l, mark_rect(cons, n, u, v, w, h), u + 1, v);
        lemma_scan_bounds(mask, n, d, l, mark_rect(cons, n, u, v, w, h), u + 1, v);
        let q = quad_at(d, l, u, v, w, h);
        assert forall|i: int| 0 <= i < (seq![q] + rest).len() implies (#[trigger] (seq![q]
            + rest)[i]).fits(MAX_DIM as int) by {
            if i > 0 {
                assert((seq![q] + rest)[i] == rest[i - 1]);
            }
        }
    } else {
        lemma_scan_bounds(mask, n, d, l, cons, u + 1, v);
    }
}

/// A mask with no active cell yields no quad.
proof fn lemma_scan_inactive(
    mask: Seq<bool>,
    n: int,
    d: FaceDir,
    l: int,
    cons: Seq<bool>,
    u: int,
    v: int,
)
    requires
        forall|p: int| 0 <= p < n * n ==> !#[trigger] mask[p],
        0 <= u,
        0 <= v,
    ensures
        scan(mask, n, d, l, cons, u, v).len() == 0,
    decreases n - v, n - u,
{
    if v >= n {
    } else if u >= n {
        lemma_scan_inactive(mask, n, d, l, cons, 0, v + 1);
    } else {
        lemma_cell_index_any(n, u, v);
        lemma_scan_inactive(mask, n, d, l, cons, u + 1, v);
    }
}

proof fn lemma_cell_index_any(n: int, u: int, v: int)
    requires
        0 <= u < n,
        0 <= v < n,
    ensures
        0 <= v * n + u < n * n,
{
    assert(0 <= v * n + u < n * n) by (nonlinear_arith)
        requires 0 <= u < n, 0 <= v < n;
}

/// Appends the quads of layer `l` of direction `d`.
fn greedy_layer(chunk: &Chunk, d: FaceDir, l: usize, out: &mut Vec<GreedyQuad>)
    requires
        chunk@.wf(),
        l < chunk@.dim,
    ensures
        final(out)@ == old(out)@ + layer_quads(chunk@, d, l as int),
{
    let n = chunk.dim();
    let mask = build_mask(chunk, d, l);
    proof {
        assert(n * n <= MAX_DIM * MAX_DIM) by (nonlinear_arith)
            requires n <= MAX_DIM;
    }
    let total = n * n;
    let mut cons: Vec<bool> = Vec::new();
    while cons.len() < total
        invariant
            cons@.len() <= total,
            forall|p: int| 0 <= p < cons@.len() ==> !#[trigger] cons@[p],
        decreases total - cons@.len(),
    {
        cons.push(false);
    }
    proof {
        assert(cons@ =~= Seq::new((n * n) as nat, |p: int| false));
    }
    let ghost whole = layer_quads(chunk@, d, l as int);
    let ghost start = out@;
    let mut v: usize = 0;
    while v < n
        invariant
            chunk@.wf(),
            n == chunk@.dim,
            l < n,
            v <= n,
            mask@ == layer_mask(chunk@, d, l as int),
            mask@.len() == n * n,
            cons@.len() == n * n,
            out@ + scan(mask@, n as int, d, l as int, cons@, 0, v as int) == start + whole,
        decreases n - v,
    {
        let mut u: usize = 0;
        while u < n
            invariant
                chunk@.wf(),
                n == chunk@.dim,
                l < n,
                v < n,
                u <= n,
                mask@ == layer_mask(chunk@, d, l as int),
                mask@.len() == n * n,
                cons@.len() == n * n,
                out@ + scan(mask@, n as int, d, l as int, cons@, u as int, v as int) == start
                    + whole,
            decreases n - u,
        {
            if cell_free(&mask, &cons, n, u, v) {
                let mut w: usize = 1;
                while u + w < n && cell_free(&mask, &cons, n, u + w, v)
                    invariant
                        n <= MAX_DIM,
                        mask@.len() == n * n,
                        cons@.len() == n * n,
                        u < n,
                        v < n,
                        1 <= w,
                        u + w <= n,
                        run_width(mask@, cons@, n as int, u as int, v as int, 1) == run_width(
                            mask@,
                            cons@,
                            n as int,
                            u as int,
                            v as int,
                            w as int,
                        ),
                    decreases n - u - w,
                {
                    w = w + 1;
                }
                let mut h: usize = 1;
                while v + h < n && row_is_free(&mask, &cons, n, u, v + h, w)
                    invariant
                        n <= MAX_DIM,
                        mask@.len() == n * n,
                        cons@.len() == n * n,
                        u + w <= n,
                        v < n,
                        1 <= h,
                        v + h <= n,
                        run_height(mask@, cons@, n as int, u as int, v as int, w as int, 1)
                            == run_height(
                            mask@,
                            cons@,
                            n as int,
                            u as int,
                            v as int,
                            w as int,
                            h as int,
                        ),
                    decreases n - v - h,
                {
                    h = h + 1;
                }
                let ghost before = cons@;
                mark_consumed(&mut cons, n, u, v, w, h);
                let q = GreedyQuad {
                    face: d,
                    layer: l as u32,
                    u: u as u32,
                    v: v as u32,
                    width: w as u32,
                    height: h as u32,
                    value: true,
                };
                let ghost out_before = out@;
                out.push(q);
                proof {
                    assert(q == quad_at(d, l as int, u as int, v as int, w as int, h as int));
                    let rest = scan(mask@, n as int, d, l as int, cons@, u + 1, v as int);
                    assert(scan(mask@, n as int, d, l as int, before, u as int, v as int) == seq![q]
                        + rest);
                    assert(out_before + (seq![q] + rest) =~= out@ + rest);
                }
            }
            u = u + 1;
        }
        v = v + 1;
    }
    proof {
        assert(out@ + scan(mask@, n as int, d, l as int, cons@, 0, n as int) =~= out@);
    }
}

/// The greedy quads of the chunk: for each direction in turn, for each layer
/// along its axis, the rectangles of that layer's mask.
pub fn greedy_quads(chunk: &Chunk) -> (r: Vec<GreedyQuad>)
    requires
        chunk@.wf(),
    ensures
        r@ == greedy_faces(chunk@),
{
    let n = chunk.dim();
    let mut out: Vec<GreedyQuad> = Vec::new();
    let mut k: usize = 0;
    while k < 6
        invariant
            chunk@.wf(),
            n == chunk@.dim,
            k <= 6,
            out@ == greedy_upto(chunk@, k as int),
        decreases 6 - k,
    {
        let d = face_dir(k);
        let ghost before = out@;
        let mut l: usize = 0;
        while l < n
            invariant
                chunk@.wf(),
                n == chunk@.dim,
                k < 6,
                l <= n,
                d == dir_at(k as int),
                before == greedy_upto(chunk@, k as int),
                out@ == before + dir_quads(chunk@, d, l as int),
            decreases n - l,
        {
            greedy_layer(chunk, d, l, &mut out);
            proof {
                assert(out@ =~= before + dir_quads(chunk@, d, l + 1));
            }
            l = l + 1;
        }
        k = k + 1;
    }
    out
}


proof fn lemma_dir_bounds(c: ChunkModel, d: FaceDir, k: int)
    requires
        c.wf(),
        0 <= k <= c.dim,
    ensures
        dir_quads(c, d, k).len() <= k * (c.dim * c.dim + c.dim),
        forall|i: int|
            0 <= i < dir_quads(c, d, k).len() ==> (#[trigger] dir_quads(c, d, k)[i]).fits(
                MAX_DIM as int,
            ),
    decreases k,
{
    if k > 0 {
        let n = c.dim as int;
        lemma_dir_bounds(c, d, k - 1);
        lemma_scan_bounds(
            layer_mask(c, d, k - 1),
            n,
            d,
            k - 1,
            Seq::new((n * n) as nat, |p: int| false),
            0,
            0,
        );
        let a = dir_quads(c, d, k - 1);
        let b = layer_quads(c, d, k - 1);
        assert forall|i: int| 0 <= i < (a + b).len() implies (#[trigger] (a + b)[i]).fits(
            MAX_DIM as int,
        ) by {
            if i >= a.len() {
                assert((a + b)[i] == b[i - a.len()]);
            }
        }
        assert((k - 1) * (n * n + n) + (n * n + n) == k * (n * n + n)) by (nonlinear_arith);
    }
}

proof fn lemma_greedy_upto_bounds(c: ChunkModel, k: int)
    requires
        c.wf(),
        0 <= k <= 6,
    ensures
        greedy_upto(c, k).len() <= k * (c.dim * (c.dim * c.dim + c.dim)),
        forall|i: int|
            0 <= i < greedy_upto(c, k).len() ==> (#[trigger] greedy_upto(c, k)[i]).fits(
                MAX_DIM as int,
            ),
    decreases k,
{
    if k > 0 {
        let n = c.dim as int;
        lemma_greedy_upto_bounds(c, k - 1);
        lemma_dir_bounds(c, dir_at(k - 1), n);
        let a = greedy_upto(c, k - 1);
        let b = dir_quads(c, dir_at(k - 1), n);
        assert forall|i: int| 0 <= i < (a + b).len() implies (#[trigger] (a + b)[i]).fits(
            MAX_DIM as int,
        ) by {
            if i >= a.len() {
                assert((a + b)[i] == b[i - a.len()]);
            }
        }
        assert((k - 1) * (n * (n * n + n)) + n * (n * n + n) == k * (n * (n * n + n)))
            by (nonlinear_arith);
    }
}

/// Every greedy quad lies in the chunk, and the mesh of all of them fits
/// `u32` indices.
pub(crate) proof fn lemma_greedy_bounds(c: ChunkModel)
    requires
        c.wf(),
    ensures
        forall|i: int|
            0 <= i < greedy_faces(c).len() ==> (#[trigger] greedy_faces(c)[i]).fits(
                MAX_DIM as int,
            ),
        4 * greedy_faces(c).len() <= u32::MAX,
{
    lemma_greedy_upto_bounds(c, 6);
    let n = c.dim as int;
    assert(4 * (6 * (n * (n * n + n))) <= u32::MAX) by (nonlinear_arith)
        requires 1 <= n <= MAX_DIM;
}

/// A chunk with no voxel yields no greedy quad.
pub proof fn lemma_greedy_empty(c: ChunkModel)
    requires
        c.wf(),
        c.is_empty(),
    ensures
        greedy_faces(c).len() == 0,
{
    let n = c.dim as int;
    assert forall|d: FaceDir, l: int| 0 <= l < n implies #[trigger] layer_quads(c, d, l).len()
        == 0 by {
        let mask = layer_mask(c, d, l);
        assert forall|p: int| 0 <= p < n * n implies !#[trigger] mask[p] by {
            let (x, y, z) = cell_voxel(d, l, p % n, p / n);
            if c.occupied(x, y, z) {
                lemma_linear_then_delinear(n, x, y, z);
            }
        }
        lemma_scan_inactive(mask, n, d, l, Seq::new((n * n) as nat, |p: int| false), 0, 0);
    }
    lemma_greedy_upto_empty(c, 6);
}

proof fn lemma_greedy_upto_empty(c: ChunkModel, k: int)
    requires
        forall|d: FaceDir, l: int| 0 <= l < c.dim ==> #[trigger] layer_quads(c, d, l).len() == 0,
    ensures
        greedy_upto(c, k).len() == 0,
    decreases k,
{
    if k > 0 {
        lemma_greedy_upto_empty(c, k - 1);
        lemma_dir_empty(c, dir_at(k - 1), c.dim as int);
    }
}

proof fn lemma_dir_empty(c: ChunkModel, d: FaceDir, k: int)
    requires
        0 <= k <= c.dim,
        forall|l: int| 0 <= l < c.dim ==> #[trigger] layer_quads(c, d, l).len() == 0,
    ensures
        dir_quads(c, d, k).len() == 0,
    decreases k,
{
    if k > 0 {
        lemma_dir_empty(c, d, k - 1);
    }
}

/// Greedy meshing: the exposed faces merged into maximal rectangles, with
/// texture coordinates scaled by each rectangle's extent.
pub fn mesh_greedy(chunk: &Chunk) -> (r: MeshBuffer)
    requires
        chunk@.wf(),
    ensures
        r.holds(greedy_faces(chunk@), true),
        r.wf(),
        chunk@.is_empty() ==> r.is_empty(),
{
    let quads = greedy_quads(chunk);
    proof {
        lemma_greedy_bounds(chunk@);
        if chunk@.is_empty() {
            lemma_greedy_empty(chunk@);
        }
    }
    mesh_from_quads(&quads, true)
}

} // verus!
