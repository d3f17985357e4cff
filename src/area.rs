//! Area conservation: the greedy rectangles cover each exposed face exactly
//! once, so their areas add up to the number of faces the culled strategy
//! emits.
use vstd::prelude::*;
use vstd::set_lib::{lemma_set_disjoint_lens, lemma_set_union_finite_iff};
use vstd::arithmetic::div_mod::{lemma_fundamental_div_mod, lemma_fundamental_div_mod_converse};
use crate::chunk::{
    delinear, lemma_delinear_then_linear, lemma_linear_then_delinear, linear, ChunkModel, MAX_DIM,
};
use crate::face::{component, dir_at, FaceDir};
use crate::greedy::{
    cell_voxel, dir_quads, free, greedy_faces, greedy_upto, layer_mask, layer_quads, mark_rect,
    mark_row, quad_at, row_free, run_height, run_width, scan,
};
use crate::mesh::GreedyQuad;
use crate::unit_faces::{culled_faces, exposed, faces_upto, voxel_faces};

verus! {

/// Total number of unit faces covered by a sequence of quads.
pub open spec fn area_sum(qs: Seq<GreedyQuad>) -> int
    decreases qs.len(),
{
    if qs.len() == 0 {
        0
    } else {
        area_sum(qs.drop_last()) + qs.last().area()
    }
}

/// Number of free cells (active, not consumed) at flat positions `p` and on.
pub open spec fn free_from(mask: Seq<bool>, cons: Seq<bool>, total: int, p: int) -> int
    decreases total - p,
{
    if p >= total {
        0
    } else {
        (if mask[p] && !cons[p] { 1int } else { 0 }) + free_from(mask, cons, total, p + 1)
    }
}

pub proof fn lemma_area_sum_concat(a: Seq<GreedyQuad>, b: Seq<GreedyQuad>)
    ensures
        area_sum(a + b) == area_sum(a) + area_sum(b),
    decreases b.len(),
{
    if b.len() > 0 {
        lemma_area_sum_concat(a, b.drop_last());
        assert((a + b).drop_last() =~= a + b.drop_last());
    } else {
        assert(a + b =~= a);
    }
}

/// Consuming one cell lowers the free count from `p` by one exactly when the
/// cell lies at or after `p` and was free.
proof fn lemma_free_from_update(mask: Seq<bool>, cons: Seq<bool>, total: int, p: int, j: int)
    requires
        0 <= j < cons.len(),
        total <= cons.len(),
        0 <= p,
    ensures
        free_from(mask, cons.update(j, true), total, p) == free_from(mask, cons, total, p) - (
        if p <= j < total && mask[j] && !cons[j] {
            1int
        } else {
            0
        }),
    decreases total - p,
{
    if p < total {
        lemma_free_from_update(mask, cons, total, p + 1, j);
        if p != j && p < cons.len() {
            assert(cons.update(j, true)[p] == cons[p]);
        }
    }
}

proof fn lemma_mark_row_shape(cons: Seq<bool>, n: int, u: int, r: int, k: int)
    requires
        0 <= k,
        0 <= r * n + u,
        r * n + u + k <= cons.len(),
    ensures
        mark_row(cons, n, u, r, k).len() == cons.len(),
        forall|x: int|
            0 <= x < cons.len() ==> #[trigger] mark_row(cons, n, u, r, k)[x] == (cons[x] || (r * n
                + u <= x < r * n + u + k)),
    decreases k,
{
    if k > 0 {
        lemma_mark_row_shape(cons, n, u, r, k - 1);
    }
}

proof fn lemma_mark_row_count(
    mask: Seq<bool>,
    cons: Seq<bool>,
    n: int,
    u: int,
    r: int,
    k: int,
    p: int,
)
    requires
        0 <= k,
        0 <= p <= r * n + u,
        cons.len() == n * n,
        r * n + u + k <= cons.len(),
        r * n + u + k <= n * n,
        forall|i: int| 0 <= i < k ==> #[trigger] free(mask, cons, n, u + i, r),
    ensures
        free_from(mask, mark_row(cons, n, u, r, k), n * n, p) == free_from(mask, cons, n * n, p)
            - k,
    decreases k,
{
    if k > 0 {
        lemma_mark_row_count(mask, cons, n, u, r, k - 1, p);
        lemma_mark_row_shape(cons, n, u, r, k - 1);
        let j = r * n + u + k - 1;
        assert(free(mask, cons, n, u + (k - 1), r));
        assert(r * n + (u + (k - 1)) == j);
        lemma_free_from_update(mask, mark_row(cons, n, u, r, k - 1), n * n, p, j);
    }
}

proof fn lemma_row_index(n: int, u: int, w: int, v: int, t: int, s: int, i: int)
    requires
        0 <= u,
        u + w <= n,
        0 <= i < w,
        0 <= s < t,
    ensures
        (v + t) * n + u + i >= (v + s) * n + u + w,
{
    assert((v + t) * n >= (v + s) * n + n) by (nonlinear_arith)
        requires s < t, n >= 0;
}

/// Flat position `x` lies in the `w` cells of row `r` from column `u` on.
pub open spec fn in_row(x: int, n: int, u: int, r: int, w: int) -> bool {
    r * n + u <= x < r * n + u + w
}

proof fn lemma_mark_rect_shape(cons: Seq<bool>, n: int, u: int, v: int, w: int, k: int)
    requires
        0 <= k,
        0 <= u,
        0 <= w,
        u + w <= n,
        0 <= v,
        (v + k) * n <= cons.len(),
    ensures
        mark_rect(cons, n, u, v, w, k).len() == cons.len(),
        forall|x: int|
            0 <= x < cons.len() && cons[x] ==> #[trigger] mark_rect(cons, n, u, v, w, k)[x],
        k >= 1 ==> forall|x: int|
            0 <= x < cons.len() && in_row(x, n, u, v, w) ==> #[trigger] mark_rect(
                cons,
                n,
                u,
                v,
                w,
                k,
            )[x],
        forall|x: int|
            0 <= x < cons.len() && !cons[x] && (forall|t: int|
                0 <= t < k ==> !#[trigger] in_row(x, n, u, v + t, w))
                ==> !#[trigger] mark_rect(cons, n, u, v, w, k)[x],
    decreases k,
{
    if k > 0 {
        assert((v + k - 1) * n <= (v + k) * n) by (nonlinear_arith)
            requires n >= 0;
        lemma_mark_rect_shape(cons, n, u, v, w, k - 1);
        assert((v + k - 1) * n + u + w <= (v + k) * n) by (nonlinear_arith)
            requires u + w <= n;
        assert(0 <= (v + k - 1) * n) by (nonlinear_arith)
            requires 0 <= v, 1 <= k, 0 <= u, u + w <= n, 0 <= w;
        lemma_mark_row_shape(mark_rect(cons, n, u, v, w, k - 1), n, u, v + k - 1, w);
        if k == 1 {
            assert forall|x: int| 0 <= x < cons.len() && in_row(x, n, u, v, w) implies #[trigger] mark_rect(
                cons,
                n,
                u,
                v,
                w,
                k,
            )[x] by {
                assert(mark_rect(cons, n, u, v, w, 1) == mark_row(cons, n, u, v, w));
            }
        }
        assert forall|x: int|
            0 <= x < cons.len() && !cons[x] && (forall|t: int|
                0 <= t < k ==> !#[trigger] in_row(x, n, u, v + t, w))
                implies !#[trigger] mark_rect(cons, n, u, v, w, k)[x] by {
            assert(!in_row(x, n, u, v + (k - 1), w));
        }
    }
}

proof fn lemma_mark_rect_count(
    mask: Seq<bool>,
    cons: Seq<bool>,
    n: int,
    u: int,
    v: int,
    w: int,
    k: int,
    p: int,
)
    requires
        0 <= k,
        0 <= u,
        1 <= w,
        u + w <= n,
        0 <= v,
        v + k <= n,
        cons.len() == n * n,
        0 <= p <= v * n + u,
        forall|t: int| 0 <= t < k ==> #[trigger] row_free(mask, cons, n, u, v + t, w),
    ensures
        free_from(mask, mark_rect(cons, n, u, v, w, k), n * n, p) == free_from(mask, cons, n * n, p)
            - k * w,
    decreases k,
{
    if k > 0 {
        lemma_mark_rect_count(mask, cons, n, u, v, w, k - 1, p);
        assert((v + k) * n <= n * n) by (nonlinear_arith)
            requires v + k <= n, n >= 0;
        assert((v + k - 1) * n <= (v + k) * n) by (nonlinear_arith)
            requires n >= 0;
        lemma_mark_rect_shape(cons, n, u, v, w, k - 1);
        let prev = mark_rect(cons, n, u, v, w, k - 1);
        let r = v + k - 1;
        assert(row_free(mask, cons, n, u, r, w));
        assert forall|i: int| 0 <= i < w implies #[trigger] free(mask, prev, n, u + i, r) by {
            assert(free(mask, cons, n, u + i, r));
            let x = r * n + (u + i);
            assert forall|t: int| 0 <= t < k - 1 implies !#[trigger] in_row(x, n, u, v + t, w) by {
                lemma_row_index(n, u, w, v, k - 1, t, i);
            }
            assert((v + (k - 1)) * n + u + w <= (v + k) * n) by (nonlinear_arith)
                requires u + w <= n;
            assert(0 <= (v + k - 1) * n) by (nonlinear_arith)
                requires 0 <= v, 1 <= k, n >= 0;
        }
        assert(v * n <= (v + k - 1) * n) by (nonlinear_arith)
            requires k >= 1, n >= 0;
        assert((v + k - 1) * n <= (n - 1) * n) by (nonlinear_arith)
            requires v + k - 1 <= n - 1, n >= 0;
        assert((n - 1) * n + n == n * n) by (nonlinear_arith);
        lemma_mark_row_count(mask, prev, n, u, r, w, p);
        assert((k - 1) * w + w == k * w) by (nonlinear_arith);
    } else {
        assert(k * w == 0) by (nonlinear_arith)
            requires k == 0;
    }
}


proof fn lemma_run_width_free(mask: Seq<bool>, cons: Seq<bool>, n: int, u: int, v: int, w: int)
    requires
        forall|i: int| 0 <= i < w ==> #[trigger] free(mask, cons, n, u + i, v),
    ensures
        forall|i: int|
            0 <= i < run_width(mask, cons, n, u, v, w) ==> #[trigger] free(mask, cons, n, u + i, v),
    decreases n - u - w,
{
    if u + w < n && free(mask, cons, n, u + w, v) {
        assert forall|i: int| 0 <= i < w + 1 implies #[trigger] free(mask, cons, n, u + i, v) by {
            if i == w {
                assert(free(mask, cons, n, u + w, v));
            }
        }
        lemma_run_width_free(mask, cons, n, u, v, w + 1);
    }
}

proof fn lemma_run_height_rows(
    mask: Seq<bool>,
    cons: Seq<bool>,
    n: int,
    u: int,
    v: int,
    w: int,
    h: int,
)
    requires
        forall|t: int| 0 <= t < h ==> #[trigger] row_free(mask, cons, n, u, v + t, w),
    ensures
        forall|t: int|
            0 <= t < run_height(mask, cons, n, u, v, w, h) ==> #[trigger] row_free(
                mask,
                cons,
                n,
                u,
                v + t,
                w,
            ),
    decreases n - v - h,
{
    if v + h < n && row_free(mask, cons, n, u, v + h, w) {
        assert forall|t: int| 0 <= t < h + 1 implies #[trigger] row_free(mask, cons, n, u, v + t, w) by {
            if t == h {
                assert(row_free(mask, cons, n, u, v + h, w));
            }
        }
        lemma_run_height_rows(mask, cons, n, u, v, w, h + 1);
    }
}

/// The areas of the quads a scan yields from `(u, v)` add up to the number
/// of free cells from that position on: the rectangles cover each free cell
/// exactly once.
pub proof fn lemma_scan_area(
    mask: Seq<bool>,
    n: int,
    d: FaceDir,
    l: int,
    cons: Seq<bool>,
    u: int,
    v: int,
)
    requires
        1 <= n <= MAX_DIM,
        0 <= l < n,
        0 <= u <= n,
        0 <= v <= n,
        mask.len() == n * n,
        cons.len() == n * n,
    ensures
        area_sum(scan(mask, n, d, l, cons, u, v)) == free_from(mask, cons, n * n, v * n + u),
    decreases n - v, n - u,
{
    if v >= n {
        assert(v * n >= n * n) by (nonlinear_arith)
            requires v >= n, n >= 0;
    } else if u >= n {
        lemma_scan_area(mask, n, d, l, cons, 0, v + 1);
        assert((v + 1) * n == v * n + n) by (nonlinear_arith);
    } else {
        let pos = v * n + u;
        assert(0 <= v * n + u < n * n) by (nonlinear_arith)
            requires 0 <= u < n, 0 <= v < n;
        if free(mask, cons, n, u, v) {
            assert forall|i: int| 0 <= i < 1 implies #[trigger] free(mask, cons, n, u + i, v) by {
                assert(u + i == u);
            }
            lemma_run_width_free(mask, cons, n, u, v, 1);
            let w = run_width(mask, cons, n, u, v, 1);
            crate::greedy::lemma_run_width(mask, cons, n, u, v, 1);
            assert forall|t: int| 0 <= t < 1 implies #[trigger] row_free(mask, cons, n, u, v + t, w) by {
                assert(v + t == v);
            }
            lemma_run_height_rows(mask, cons, n, u, v, w, 1);
            let h = run_height(mask, cons, n, u, v, w, 1);
            crate::greedy::lemma_run_height(mask, cons, n, u, v, w, 1);
            let mark = mark_rect(cons, n, u, v, w, h);
            lemma_mark_rect_count(mask, cons, n, u, v, w, h, pos);
            assert((v + h) * n <= n * n) by (nonlinear_arith)
                requires v + h <= n, n >= 0;
            lemma_mark_rect_shape(cons, n, u, v, w, h);
            assert(in_row(pos, n, u, v, w));
            assert(mark[pos]);
            lemma_scan_area(mask, n, d, l, mark, u + 1, v);
            let q = quad_at(d, l, u, v, w, h);
            let rest = scan(mask, n, d, l, mark, u + 1, v);
            lemma_area_sum_concat(seq![q], rest);
            assert(seq![q].drop_last() =~= Seq::<GreedyQuad>::empty());
            assert(area_sum(Seq::<GreedyQuad>::empty()) == 0);
            assert(seq![q].last() == q);
            assert(area_sum(seq![q]) == q.area());
            assert(q.area() == w * h);
            assert(h * w == w * h) by (nonlinear_arith);
        } else {
            lemma_scan_area(mask, n, d, l, cons, u + 1, v);
        }
    }
}


/// Number of `i` in `[0, n)` that satisfy `pred`.
pub open spec fn count_upto(pred: spec_fn(int) -> bool, n: int) -> int
    decreases n,
{
    if n <= 0 {
        0
    } else {
        count_upto(pred, n - 1) + if pred(n - 1) { 1int } else { 0 }
    }
}

proof fn lemma_count_is_card(pred: spec_fn(int) -> bool, n: int)
    requires
        0 <= n,
    ensures
        Set::new(|i: int| 0 <= i < n && pred(i)).finite(),
        Set::new(|i: int| 0 <= i < n && pred(i)).len() == count_upto(pred, n),
    decreases n,
{
    let s = Set::new(|i: int| 0 <= i < n && pred(i));
    if n == 0 {
        assert(s =~= Set::<int>::empty());
    } else {
        lemma_count_is_card(pred, n - 1);
        let t = Set::new(|i: int| 0 <= i < n - 1 && pred(i));
        if pred(n - 1) {
            assert(s =~= t.insert(n - 1));
        } else {
            assert(s =~= t);
        }
    }
}

/// Whether face `d` of the voxel at linear index `i` is exposed.
pub open spec fn exposed_at(c: ChunkModel, d: FaceDir, i: int) -> bool {
    let p = delinear(c.dim as int, i);
    exposed(c, d, p.0, p.1, p.2)
}

/// Number of exposed faces among the first `k` directions of voxel `i`.
pub open spec fn voxel_exposed(c: ChunkModel, i: int, k: int) -> int
    decreases k,
{
    if k <= 0 {
        0
    } else {
        voxel_exposed(c, i, k - 1) + if exposed_at(c, dir_at(k - 1), i) { 1int } else { 0 }
    }
}

/// Exposed faces of the first `n` voxels, counted over the first `k`
/// directions, direction by direction.
pub open spec fn dir_sum(c: ChunkModel, n: int, k: int) -> int
    decreases k,
{
    if k <= 0 {
        0
    } else {
        dir_sum(c, n, k - 1) + count_upto(|i: int| exposed_at(c, dir_at(k - 1), i), n)
    }
}

proof fn lemma_voxel_faces_count(c: ChunkModel, i: int, k: int)
    requires
        0 <= k <= 6,
    ensures
        voxel_faces(c, i, k, true).len() == voxel_exposed(c, i, k),
    decreases k,
{
    if k > 0 {
        lemma_voxel_faces_count(c, i, k - 1);
    }
}

proof fn lemma_voxel_absent(c: ChunkModel, i: int, k: int)
    requires
        c.wf(),
        0 <= i < c.cells.len(),
        !c.cells[i],
        0 <= k <= 6,
    ensures
        voxel_exposed(c, i, k) == 0,
    decreases k,
{
    if k > 0 {
        lemma_voxel_absent(c, i, k - 1);
        lemma_delinear_then_linear(c.dim as int, i);
    }
}

proof fn lemma_dir_sum_step(c: ChunkModel, n: int, k: int)
    requires
        1 <= n,
        0 <= k <= 6,
    ensures
        dir_sum(c, n, k) == dir_sum(c, n - 1, k) + voxel_exposed(c, n - 1, k),
    decreases k,
{
    if k > 0 {
        lemma_dir_sum_step(c, n, k - 1);
    }
}

/// The culled strategy emits, voxel by voxel, as many faces as there are
/// exposed faces, direction by direction.
proof fn lemma_culled_count(c: ChunkModel, n: int)
    requires
        c.wf(),
        0 <= n <= c.cells.len(),
    ensures
        faces_upto(c, n, true).len() == dir_sum(c, n, 6),
    decreases n,
{
    if n > 0 {
        lemma_culled_count(c, n - 1);
        lemma_dir_sum_step(c, n, 6);
        lemma_voxel_faces_count(c, n - 1, 6);
        if !c.cells[n - 1] {
            lemma_voxel_absent(c, n - 1, 6);
        }
    } else {
        lemma_dir_sum_zero(c, 6);
    }
}

proof fn lemma_dir_sum_zero(c: ChunkModel, k: int)
    requires
        0 <= k,
    ensures
        dir_sum(c, 0, k) == 0,
    decreases k,
{
    if k > 0 {
        lemma_dir_sum_zero(c, k - 1);
    }
}


/// The all-unconsumed state of a layer of edge `n`.
pub open spec fn fresh(n: int) -> Seq<bool> {
    Seq::new((n * n) as nat, |p: int| false)
}

/// Exposed faces over the first `k` layers of direction `d`, counted layer
/// by layer on the masks.
pub open spec fn layer_sum(c: ChunkModel, d: FaceDir, k: int) -> int
    decreases k,
{
    if k <= 0 {
        0
    } else {
        let n = c.dim as int;
        layer_sum(c, d, k - 1) + free_from(layer_mask(c, d, k - 1), fresh(n), n * n, 0)
    }
}

/// Exposed faces over the first `k` directions, counted on the masks.
pub open spec fn mask_sum(c: ChunkModel, k: int) -> int
    decreases k,
{
    if k <= 0 {
        0
    } else {
        mask_sum(c, k - 1) + layer_sum(c, dir_at(k - 1), c.dim as int)
    }
}

proof fn lemma_dir_area(c: ChunkModel, d: FaceDir, k: int)
    requires
        c.wf(),
        0 <= k <= c.dim,
    ensures
        area_sum(dir_quads(c, d, k)) == layer_sum(c, d, k),
    decreases k,
{
    if k > 0 {
        let n = c.dim as int;
        lemma_dir_area(c, d, k - 1);
        lemma_area_sum_concat(dir_quads(c, d, k - 1), layer_quads(c, d, k - 1));
        lemma_scan_area(layer_mask(c, d, k - 1), n, d, k - 1, fresh(n), 0, 0);
        assert(0 * n + 0 == 0);
    }
}

proof fn lemma_greedy_area(c: ChunkModel, k: int)
    requires
        c.wf(),
        0 <= k <= 6,
    ensures
        area_sum(greedy_upto(c, k)) == mask_sum(c, k),
    decreases k,
{
    if k > 0 {
        lemma_greedy_area(c, k - 1);
        lemma_area_sum_concat(greedy_upto(c, k - 1), dir_quads(c, dir_at(k - 1), c.dim as int));
        lemma_dir_area(c, dir_at(k - 1), c.dim as int);
    }
}

/// Linear index of the voxel at cell `p` (row-major) of layer `l` of
/// direction `d`.
pub open spec fn lin(c: ChunkModel, d: FaceDir, l: int, p: int) -> int {
    let n = c.dim as int;
    let t = cell_voxel(d, l, p % n, p / n);
    linear(n, t.0, t.1, t.2)
}

/// The layer of direction `d` that the voxel at linear index `x` lies in.
pub open spec fn layer_of(c: ChunkModel, d: FaceDir, x: int) -> int {
    component(delinear(c.dim as int, x), d.normal_axis())
}

/// The row-major cell of its layer that the voxel at linear index `x` is.
pub open spec fn cell_of(c: ChunkModel, d: FaceDir, x: int) -> int {
    let t = delinear(c.dim as int, x);
    component(t, d.v_axis()) * c.dim + component(t, d.u_axis())
}

proof fn lemma_cell_voxel_axes(d: FaceDir, l: int, u: int, v: int, t: (int, int, int))
    ensures
        component(cell_voxel(d, l, u, v), d.normal_axis()) == l,
        component(cell_voxel(d, l, u, v), d.u_axis()) == u,
        component(cell_voxel(d, l, u, v), d.v_axis()) == v,
        cell_voxel(d, component(t, d.normal_axis()), component(t, d.u_axis()), component(t, d.v_axis())) == t,
{
    match d {
        FaceDir::Up => {},
        FaceDir::Down => {},
        FaceDir::North => {},
        FaceDir::South => {},
        FaceDir::East => {},
        FaceDir::West => {},
    }
}

proof fn lemma_lin(c: ChunkModel, d: FaceDir, l: int, p: int)
    requires
        c.wf(),
        0 <= l < c.dim,
        0 <= p < c.dim * c.dim,
    ensures
        0 <= lin(c, d, l, p) < c.cells.len(),
        layer_of(c, d, lin(c, d, l, p)) == l,
        cell_of(c, d, lin(c, d, l, p)) == p,
        exposed_at(c, d, lin(c, d, l, p)) == layer_mask(c, d, l)[p],
{
    let n = c.dim as int;
    let u = p % n;
    let v = p / n;
    lemma_fundamental_div_mod(p, n);
    assert(0 <= v < n) by (nonlinear_arith)
        requires p == n * v + u, 0 <= u < n, 0 <= p < n * n, n >= 1;
    let t = cell_voxel(d, l, u, v);
    lemma_cell_voxel_axes(d, l, u, v, t);
    lemma_linear_then_delinear(n, t.0, t.1, t.2);
    assert(v * n + u == p) by (nonlinear_arith)
        requires p == n * v + u;
}

proof fn lemma_lin_onto(c: ChunkModel, d: FaceDir, x: int)
    requires
        c.wf(),
        0 <= x < c.cells.len(),
    ensures
        0 <= layer_of(c, d, x) < c.dim,
        0 <= cell_of(c, d, x) < c.dim * c.dim,
        lin(c, d, layer_of(c, d, x), cell_of(c, d, x)) == x,
{
    let n = c.dim as int;
    let t = delinear(n, x);
    lemma_delinear_then_linear(n, x);
    let u = component(t, d.u_axis());
    let v = component(t, d.v_axis());
    lemma_cell_voxel_axes(d, layer_of(c, d, x), u, v, t);
    assert(0 <= u < n && 0 <= v < n) by {
        match d {
            FaceDir::Up => {},
            FaceDir::Down => {},
            FaceDir::North => {},
            FaceDir::South => {},
            FaceDir::East => {},
            FaceDir::West => {},
        }
    }
    assert(0 <= layer_of(c, d, x) < n) by {
        match d {
            FaceDir::Up => {},
            FaceDir::Down => {},
            FaceDir::North => {},
            FaceDir::South => {},
            FaceDir::East => {},
            FaceDir::West => {},
        }
    }
    assert(0 <= v * n + u < n * n) by (nonlinear_arith)
        requires 0 <= u < n, 0 <= v < n;
    lemma_fundamental_div_mod_converse(v * n + u, n, v, u);
}

/// The voxels of the cells `q` and on of layer `l` whose face `d` is exposed.
pub open spec fn layer_set(c: ChunkModel, d: FaceDir, l: int, q: int) -> Set<int>
    decreases c.dim * c.dim - q,
{
    if q >= c.dim * c.dim {
        Set::empty()
    } else if layer_mask(c, d, l)[q] {
        layer_set(c, d, l, q + 1).insert(lin(c, d, l, q))
    } else {
        layer_set(c, d, l, q + 1)
    }
}

/// The voxels of the first `k` layers whose face `d` is exposed.
pub open spec fn layers_set(c: ChunkModel, d: FaceDir, k: int) -> Set<int>
    decreases k,
{
    if k <= 0 {
        Set::empty()
    } else {
        layers_set(c, d, k - 1) + layer_set(c, d, k - 1, 0)
    }
}

proof fn lemma_layer_set(c: ChunkModel, d: FaceDir, l: int, q: int)
    requires
        c.wf(),
        0 <= l < c.dim,
        0 <= q <= c.dim * c.dim,
    ensures
        layer_set(c, d, l, q).finite(),
        layer_set(c, d, l, q).len() == free_from(
            layer_mask(c, d, l),
            fresh(c.dim as int),
            (c.dim * c.dim) as int,
            q,
        ),
        forall|x: int|
            #[trigger] layer_set(c, d, l, q).contains(x) ==> 0 <= x < c.cells.len() && exposed_at(
                c,
                d,
                x,
            ) && layer_of(c, d, x) == l && q <= cell_of(c, d, x),
        forall|p: int|
            q <= p < c.dim * c.dim && layer_mask(c, d, l)[p] ==> #[trigger] layer_set(
                c,
                d,
                l,
                q,
            ).contains(lin(c, d, l, p)),
    decreases c.dim * c.dim - q,
{
    let n = c.dim as int;
    if q < n * n {
        lemma_layer_set(c, d, l, q + 1);
        lemma_lin(c, d, l, q);
        let rest = layer_set(c, d, l, q + 1);
        assert(!fresh(n)[q]);
        if layer_mask(c, d, l)[q] {
            assert(!rest.contains(lin(c, d, l, q)));
        }
        assert forall|p: int|
            q <= p < c.dim * c.dim && layer_mask(c, d, l)[p] implies #[trigger] layer_set(
                c,
                d,
                l,
                q,
            ).contains(lin(c, d, l, p)) by {
            if p > q {
                assert(rest.contains(lin(c, d, l, p)));
            }
        }
    } else {
        assert forall|p: int|
            q <= p < c.dim * c.dim && layer_mask(c, d, l)[p] implies #[trigger] layer_set(
                c,
                d,
                l,
                q,
            ).contains(lin(c, d, l, p)) by {
        }
    }
}

proof fn lemma_layers_set(c: ChunkModel, d: FaceDir, k: int)
    requires
        c.wf(),
        0 <= k <= c.dim,
    ensures
        layers_set(c, d, k).finite(),
        layers_set(c, d, k).len() == layer_sum(c, d, k),
        forall|x: int|
            #[trigger] layers_set(c, d, k).contains(x) <==> (0 <= x < c.cells.len() && exposed_at(
                c,
                d,
                x,
            ) && layer_of(c, d, x) < k),
    decreases k,
{
    let n = c.dim as int;
    if k > 0 {
        lemma_layers_set(c, d, k - 1);
        lemma_layer_set(c, d, k - 1, 0);
        let a = layers_set(c, d, k - 1);
        let b = layer_set(c, d, k - 1, 0);
        lemma_set_union_finite_iff(a, b);
        assert(a.disjoint(b));
        lemma_set_disjoint_lens(a, b);
        assert forall|x: int|
            #[trigger] layers_set(c, d, k).contains(x) <==> (0 <= x < c.cells.len() && exposed_at(
                c,
                d,
                x,
            ) && layer_of(c, d, x) < k) by {
            if 0 <= x < c.cells.len() && exposed_at(c, d, x) && layer_of(c, d, x) == k - 1 {
                lemma_lin_onto(c, d, x);
                let p = cell_of(c, d, x);
                lemma_lin(c, d, k - 1, p);
                assert(b.contains(lin(c, d, k - 1, p)));
            }
        }
    } else {
        assert forall|x: int|
            #[trigger] layers_set(c, d, k).contains(x) <==> (0 <= x < c.cells.len() && exposed_at(
                c,
                d,
                x,
            ) && layer_of(c, d, x) < k) by {
            if 0 <= x < c.cells.len() {
                lemma_lin_onto(c, d, x);
            }
        }
    }
}


proof fn lemma_direction_count(c: ChunkModel, d: FaceDir)
    requires
        c.wf(),
    ensures
        layer_sum(c, d, c.dim as int) == count_upto(
            |i: int| exposed_at(c, d, i),
            c.cells.len() as int,
        ),
{
    let pred = |i: int| exposed_at(c, d, i);
    let len = c.cells.len() as int;
    lemma_layers_set(c, d, c.dim as int);
    lemma_count_is_card(pred, len);
    assert forall|x: int| 0 <= x < len implies layer_of(c, d, x) < c.dim by {
        lemma_lin_onto(c, d, x);
    }
    assert(layers_set(c, d, c.dim as int) =~= Set::new(|i: int| 0 <= i < len && pred(i)));
}

proof fn lemma_mask_sum(c: ChunkModel, k: int)
    requires
        c.wf(),
        0 <= k <= 6,
    ensures
        mask_sum(c, k) == dir_sum(c, c.cells.len() as int, k),
    decreases k,
{
    if k > 0 {
        lemma_mask_sum(c, k - 1);
        lemma_direction_count(c, dir_at(k - 1));
    }
}

/// Area conservation across strategies: the areas of the greedy quads of a
/// chunk add up to the number of unit faces the culled strategy emits for
/// it.
pub proof fn lemma_greedy_area_is_culled_count(c: ChunkModel)
    requires
        c.wf(),
    ensures
        area_sum(greedy_faces(c)) == culled_faces(c).len(),
{
    lemma_greedy_area(c, 6);
    lemma_mask_sum(c, 6);
    lemma_culled_count(c, c.cells.len() as int);
}


proof fn lemma_area_sum_at_least_len(qs: Seq<GreedyQuad>)
    requires
        forall|i: int| 0 <= i < qs.len() ==> (#[trigger] qs[i]).fits(MAX_DIM as int),
    ensures
        qs.len() <= area_sum(qs),
    decreases qs.len(),
{
    if qs.len() > 0 {
        let q = qs.last();
        assert(q.fits(MAX_DIM as int));
        assert(q.area() >= 1) by (nonlinear_arith)
            requires q.width >= 1, q.height >= 1, q.area() == q.width * q.height;
        lemma_area_sum_at_least_len(qs.drop_last());
    }
}

/// The greedy strategy never emits more quads than the culled one, so its
/// mesh never has more vertices or indices.
pub proof fn lemma_greedy_not_larger(c: ChunkModel)
    requires
        c.wf(),
    ensures
        greedy_faces(c).len() <= culled_faces(c).len(),
{
    lemma_greedy_area_is_culled_count(c);
    crate::greedy::lemma_greedy_bounds(c);
    lemma_area_sum_at_least_len(greedy_faces(c));
}

} // verus!
