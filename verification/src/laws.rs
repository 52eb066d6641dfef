//! Laws of the pipeline, proved once and for all: what a draw call does to
//! each pixel, that coverage never reaches outside the triangle's convex
//! hull, that the barycentric solve is exact at the corners, that drawing
//! is idempotent, that the partitioned path equals the sequential one, and
//! that the merge order of sparse results does not matter.

use vstd::prelude::*;
use crate::fx::{lemma_round_div_exact, round_div};
use crate::render::{
    apply_range, bary_a, bary_a_raw, bary_b, bary_b_raw, bary_den, cross2, depth_write, frag_at,
    interp_num, lemma_apply_range_len, lemma_covered_sum, lemma_merge_worker,
    lemma_apply_range_compose, merge_seq, pix_candidate, pix_covered, pix_x, pix_y, pt_covered,
    pt_in_hull, hull_witness, screen_tri, tri_det, worker_seq, Fragment, FragmentShader,
    PixelBuffer, ScreenTri,
};

verus! {

// ------------------------------------------------------------------
// The pointwise reading of a draw call.
// ------------------------------------------------------------------

/// What a draw call over the pixel range `[s, e)` does to the single slot
/// `n`: a covered pixel in the range takes the depth-tested candidate,
/// every other slot is untouched.
pub proof fn lemma_apply_range_pointwise<FS: FragmentShader>(
    fs: FS,
    f0: Fragment,
    f1: Fragment,
    f2: Fragment,
    w: int,
    h: int,
    buf: Seq<Option<PixelBuffer>>,
    s: int,
    e: int,
    n: int,
)
    requires
        0 <= s,
        e <= buf.len(),
        0 <= n < buf.len(),
    ensures
        apply_range(fs, f0, f1, f2, w, h, buf, s, e)[n] == if s <= n < e && pix_covered(
            f0,
            f1,
            f2,
            w,
            h,
            n % w,
            n / w,
        ) {
            depth_write(buf[n], pix_candidate(fs, f0, f1, f2, w, h, n % w, n / w))
        } else {
            buf[n]
        },
    decreases e - s,
{
    if e > s {
        lemma_apply_range_pointwise(fs, f0, f1, f2, w, h, buf, s, e - 1, n);
        lemma_apply_range_len(fs, f0, f1, f2, w, h, buf, s, e - 1);
    }
}

// ------------------------------------------------------------------
// Coverage stays inside the convex hull.
// ------------------------------------------------------------------

#[verifier::rlimit(100)]
proof fn lemma_cramer_core_x(dx: int, dy: int, ux: int, uy: int, vx: int, vy: int)
    by (nonlinear_arith)
    ensures
        (ux * vy - uy * vx) * dx == (dx * vy - dy * vx) * ux + (ux * dy - uy * dx) * vx,
{
}

#[verifier::rlimit(100)]
proof fn lemma_cramer_core_y(dx: int, dy: int, ux: int, uy: int, vx: int, vy: int)
    by (nonlinear_arith)
    ensures
        (ux * vy - uy * vx) * dy == (dx * vy - dy * vx) * uy + (ux * dy - uy * dx) * vy,
{
}

proof fn lemma_cramer_x(t: ScreenTri, px: int, py: int)
    ensures
        tri_det(t) * (px - t.x0) == bary_a_raw(t, px, py) * (t.x1 - t.x0) + bary_b_raw(t, px, py)
            * (t.x2 - t.x0),
{
    lemma_cramer_core_x(px - t.x0, py - t.y0, t.x1 - t.x0, t.y1 - t.y0, t.x2 - t.x0, t.y2 - t.y0);
}

proof fn lemma_cramer_y(t: ScreenTri, px: int, py: int)
    ensures
        tri_det(t) * (py - t.y0) == bary_a_raw(t, px, py) * (t.y1 - t.y0) + bary_b_raw(t, px, py)
            * (t.y2 - t.y0),
{
    lemma_cramer_core_y(px - t.x0, py - t.y0, t.x1 - t.x0, t.y1 - t.y0, t.x2 - t.x0, t.y2 - t.y0);
}

/// A covered point lies in the triangle's convex hull: the normalized
/// barycentric weights witness the convex combination.
pub proof fn lemma_covered_in_hull(t: ScreenTri, px: int, py: int)
    requires
        pt_covered(t, px, py),
    ensures
        pt_in_hull(t, px, py),
{
    lemma_cramer_x(t, px, py);
    lemma_cramer_y(t, px, py);
    lemma_covered_sum(t, px, py);
    let ar = bary_a_raw(t, px, py);
    let br = bary_b_raw(t, px, py);
    let d = tri_det(t);
    let an = bary_a(t, px, py);
    let bn = bary_b(t, px, py);
    let dn = bary_den(t);
    assert(dn * (px - t.x0) == an * (t.x1 - t.x0) + bn * (t.x2 - t.x0)) by (nonlinear_arith)
        requires
            d * (px - t.x0) == ar * (t.x1 - t.x0) + br * (t.x2 - t.x0),
            (an == ar && bn == br && dn == d) || (an == -ar && bn == -br && dn == -d),
    ;
    assert(dn * (py - t.y0) == an * (t.y1 - t.y0) + bn * (t.y2 - t.y0)) by (nonlinear_arith)
        requires
            d * (py - t.y0) == ar * (t.y1 - t.y0) + br * (t.y2 - t.y0),
            (an == ar && bn == br && dn == d) || (an == -ar && bn == -br && dn == -d),
    ;
    assert(hull_witness(t, px, py, an, bn, dn));
}

/// Outside the convex hull the coverage test declines, and the draw call
/// leaves the pixel's slot exactly as it was.
pub proof fn lemma_outside_hull_untouched<FS: FragmentShader>(
    fs: FS,
    f0: Fragment,
    f1: Fragment,
    f2: Fragment,
    w: int,
    h: int,
    buf: Seq<Option<PixelBuffer>>,
    n: int,
)
    requires
        0 <= n < buf.len(),
        !pt_in_hull(screen_tri(f0, f1, f2, w, h), pix_x(n % w, w, h), pix_y(n / w, w, h)),
    ensures
        !pix_covered(f0, f1, f2, w, h, n % w, n / w),
        apply_range(fs, f0, f1, f2, w, h, buf, 0, buf.len() as int)[n] == buf[n],
{
    let t = screen_tri(f0, f1, f2, w, h);
    let px = pix_x(n % w, w, h);
    let py = pix_y(n / w, w, h);
    if pt_covered(t, px, py) {
        lemma_covered_in_hull(t, px, py);
    }
    lemma_apply_range_pointwise(fs, f0, f1, f2, w, h, buf, 0, buf.len() as int, n);
}

// ------------------------------------------------------------------
// The barycentric solve is exact at the three corners.
// ------------------------------------------------------------------

proof fn lemma_zero_mul(x: int)
    by (nonlinear_arith)
    ensures
        0 * x == 0,
        x * 0 == 0,
{
}

proof fn lemma_cross_self(ax: int, ay: int)
    by (nonlinear_arith)
    ensures
        cross2(ax, ay, ax, ay) == 0,
{
}

/// At the triangle's own corners the barycentric coefficients are exactly
/// `(0, 0)`, `(1, 0)` and `(0, 1)` (numerators over `bary_den`).
pub proof fn lemma_bary_at_vertices(t: ScreenTri)
    ensures
        bary_a(t, t.x0, t.y0) == 0,
        bary_b(t, t.x0, t.y0) == 0,
        bary_a(t, t.x1, t.y1) == bary_den(t),
        bary_b(t, t.x1, t.y1) == 0,
        bary_a(t, t.x2, t.y2) == 0,
        bary_b(t, t.x2, t.y2) == bary_den(t),
{
    lemma_zero_mul(t.x2 - t.x0);
    lemma_zero_mul(t.y2 - t.y0);
    lemma_zero_mul(t.x1 - t.x0);
    lemma_zero_mul(t.y1 - t.y0);
    lemma_cross_self(t.x1 - t.x0, t.y1 - t.y0);
    lemma_cross_self(t.x2 - t.x0, t.y2 - t.y0);
    assert(bary_a_raw(t, t.x0, t.y0) == 0);
    assert(bary_b_raw(t, t.x0, t.y0) == 0);
    assert(bary_a_raw(t, t.x1, t.y1) == tri_det(t));
    assert(bary_b_raw(t, t.x1, t.y1) == cross2(t.x1 - t.x0, t.y1 - t.y0, t.x1 - t.x0, t.y1 - t.y0));
    assert(bary_a_raw(t, t.x2, t.y2) == cross2(t.x2 - t.x0, t.y2 - t.y0, t.x2 - t.x0, t.y2 - t.y0));
    assert(bary_b_raw(t, t.x2, t.y2) == tri_det(t));
}

/// Interpolating with the corner coefficients returns the corner's own
/// value exactly: rounding an exact multiple loses nothing.
pub proof fn lemma_interp_at_vertices(z0: int, z1: int, z2: int, dn: int)
    requires
        dn >= 1,
    ensures
        round_div(interp_num(z0, z1, z2, 0, 0, dn), dn) == z0,
        round_div(interp_num(z0, z1, z2, dn, 0, dn), dn) == z1,
        round_div(interp_num(z0, z1, z2, 0, dn, dn), dn) == z2,
{
    lemma_zero_mul(z1 - z0);
    lemma_zero_mul(z2 - z0);
    assert(interp_num(z0, z1, z2, 0, 0, dn) == z0 * dn);
    assert(z0 * dn + dn * (z1 - z0) == z1 * dn) by (nonlinear_arith);
    assert(interp_num(z0, z1, z2, dn, 0, dn) == z1 * dn);
    assert(z0 * dn + dn * (z2 - z0) == z2 * dn) by (nonlinear_arith);
    assert(interp_num(z0, z1, z2, 0, dn, dn) == z2 * dn);
    lemma_round_div_exact(z0, dn);
    lemma_round_div_exact(z1, dn);
    lemma_round_div_exact(z2, dn);
}

/// A pixel whose centre coincides with one of the triangle's corners gets
/// a fragment carrying that corner's depth and color exactly.
pub proof fn lemma_frag_at_corners(
    f0: Fragment,
    f1: Fragment,
    f2: Fragment,
    w: int,
    h: int,
    x: int,
    y: int,
)
    requires
        f0.wf(),
        f1.wf(),
        f2.wf(),
        tri_det(screen_tri(f0, f1, f2, w, h)) != 0,
    ensures
        ({
            let t = screen_tri(f0, f1, f2, w, h);
            let f = frag_at(f0, f1, f2, w, h, x, y);
            &&& (pix_x(x, w, h) == t.x0 && pix_y(y, w, h) == t.y0) ==> (f.0.2 == f0.0.2 && f.1
                == f0.1)
            &&& (pix_x(x, w, h) == t.x1 && pix_y(y, w, h) == t.y1) ==> (f.0.2 == f1.0.2 && f.1
                == f1.1)
            &&& (pix_x(x, w, h) == t.x2 && pix_y(y, w, h) == t.y2) ==> (f.0.2 == f2.0.2 && f.1
                == f2.1)
        }),
{
    let t = screen_tri(f0, f1, f2, w, h);
    let dn = bary_den(t);
    lemma_bary_at_vertices(t);
    lemma_interp_at_vertices(f0.0.2.raw(), f1.0.2.raw(), f2.0.2.raw(), dn);
    lemma_interp_at_vertices(f0.1.0.raw(), f1.1.0.raw(), f2.1.0.raw(), dn);
    lemma_interp_at_vertices(f0.1.1.raw(), f1.1.1.raw(), f2.1.1.raw(), dn);
    lemma_interp_at_vertices(f0.1.2.raw(), f1.1.2.raw(), f2.1.2.raw(), dn);
}

// ------------------------------------------------------------------
// Idempotence of the depth rule.
// ------------------------------------------------------------------

/// Drawing the same triangle with the same shaders twice leaves exactly
/// the buffer of drawing it once: an entry never loses to an equal-depth
/// copy of itself.
pub proof fn lemma_draw_idempotent<FS: FragmentShader>(
    fs: FS,
    f0: Fragment,
    f1: Fragment,
    f2: Fragment,
    w: int,
    h: int,
    buf: Seq<Option<PixelBuffer>>,
    e: int,
)
    requires
        0 <= e <= buf.len(),
    ensures
        apply_range(fs, f0, f1, f2, w, h, apply_range(fs, f0, f1, f2, w, h, buf, 0, e), 0, e)
            == apply_range(fs, f0, f1, f2, w, h, buf, 0, e),
{
    let once = apply_range(fs, f0, f1, f2, w, h, buf, 0, e);
    lemma_apply_range_len(fs, f0, f1, f2, w, h, buf, 0, e);
    let twice = apply_range(fs, f0, f1, f2, w, h, once, 0, e);
    lemma_apply_range_len(fs, f0, f1, f2, w, h, once, 0, e);
    assert forall|n: int| 0 <= n < buf.len() implies twice[n] == once[n] by {
        lemma_apply_range_pointwise(fs, f0, f1, f2, w, h, buf, 0, e, n);
        lemma_apply_range_pointwise(fs, f0, f1, f2, w, h, once, 0, e, n);
    }
    assert(twice =~= once);
}

// ------------------------------------------------------------------
// The partitioned path equals the sequential path.
// ------------------------------------------------------------------

/// Ceiling division for positive divisors.
pub open spec fn ceil_div(a: int, b: int) -> int {
    (a + b - 1) / b
}

/// The buffer after merging the first `i` of `thr` workers' sparse
/// results, in worker order: worker `j` owns the linear pixel range
/// `[j·batch, min((j+1)·batch, total))`.
pub open spec fn merge_batches<FS: FragmentShader>(
    fs: FS,
    f0: Fragment,
    f1: Fragment,
    f2: Fragment,
    w: int,
    h: int,
    buf: Seq<Option<PixelBuffer>>,
    batch: int,
    total: int,
    i: int,
) -> Seq<Option<PixelBuffer>>
    decreases i,
{
    if i <= 0 {
        buf
    } else {
        let prev = merge_batches(fs, f0, f1, f2, w, h, buf, batch, total, i - 1);
        merge_seq(
            prev,
            worker_seq(
                fs,
                f0,
                f1,
                f2,
                w,
                h,
                vstd::math::min((i - 1) * batch, total),
                vstd::math::min(i * batch, total),
            ),
        )
    }
}

proof fn lemma_merge_batches_prefix<FS: FragmentShader>(
    fs: FS,
    f0: Fragment,
    f1: Fragment,
    f2: Fragment,
    w: int,
    h: int,
    buf: Seq<Option<PixelBuffer>>,
    batch: int,
    total: int,
    i: int,
)
    requires
        0 <= i,
        1 <= batch,
        0 <= total == buf.len(),
        total <= usize::MAX,
    ensures
        merge_batches(fs, f0, f1, f2, w, h, buf, batch, total, i) == apply_range(
            fs,
            f0,
            f1,
            f2,
            w,
            h,
            buf,
            0,
            vstd::math::min(i * batch, total),
        ),
    decreases i,
{
    if i > 0 {
        lemma_merge_batches_prefix(fs, f0, f1, f2, w, h, buf, batch, total, i - 1);
        let s = vstd::math::min((i - 1) * batch, total);
        let e = vstd::math::min(i * batch, total);
        assert((i - 1) * batch <= i * batch && 0 <= (i - 1) * batch) by (nonlinear_arith)
            requires
                1 <= i,
                1 <= batch,
        ;
        let prev = apply_range(fs, f0, f1, f2, w, h, buf, 0, s);
        assert(merge_batches(fs, f0, f1, f2, w, h, buf, batch, total, i) == merge_seq(
            merge_batches(fs, f0, f1, f2, w, h, buf, batch, total, i - 1),
            worker_seq(fs, f0, f1, f2, w, h, s, e),
        ));
        lemma_apply_range_len(fs, f0, f1, f2, w, h, buf, 0, s);
        lemma_merge_worker(fs, f0, f1, f2, w, h, prev, s, e);
        lemma_apply_range_compose(fs, f0, f1, f2, w, h, buf, 0, s, e);
    } else {
        assert(i * batch == 0) by (nonlinear_arith)
            requires
                i == 0,
        ;
        assert(vstd::math::min(i * batch, total) == 0);
    }
}

/// For every worker count from 1 up to the pixel count, merging all the
/// workers' sparse results in worker order yields exactly the buffer of
/// the sequential draw call over the whole pixel range.
pub proof fn lemma_parallel_equals_sequential<FS: FragmentShader>(
    fs: FS,
    f0: Fragment,
    f1: Fragment,
    f2: Fragment,
    w: int,
    h: int,
    buf: Seq<Option<PixelBuffer>>,
    thr: int,
)
    requires
        buf.len() == w * h,
        1 <= w,
        1 <= h,
        1 <= thr <= w * h,
        w * h <= usize::MAX,
    ensures
        merge_batches(fs, f0, f1, f2, w, h, buf, ceil_div(w * h, thr), w * h, thr) == apply_range(
            fs,
            f0,
            f1,
            f2,
            w,
            h,
            buf,
            0,
            w * h,
        ),
{
    let total = w * h;
    let batch = ceil_div(total, thr);
    assert(total >= 1) by (nonlinear_arith)
        requires
            1 <= w,
            1 <= h,
            total == w * h,
    ;
    vstd::arithmetic::div_mod::lemma_div_pos_is_pos(total + thr - 1, thr);
    assert(total + thr - 1 >= thr * 1) by (nonlinear_arith)
        requires
            total >= 1,
            thr >= 1,
    ;
    assert(batch >= 1) by {
        vstd::arithmetic::div_mod::lemma_div_multiples_vanish(1, thr);
        assert(thr * 1 == thr);
        vstd::arithmetic::div_mod::lemma_div_is_ordered(thr, total + thr - 1, thr);
    }
    vstd::arithmetic::div_mod::lemma_fundamental_div_mod(total + thr - 1, thr);
    assert(thr * batch >= total);
    assert(batch * thr >= total) by (nonlinear_arith)
        requires
            thr * batch >= total,
    ;
    lemma_merge_batches_prefix(fs, f0, f1, f2, w, h, buf, batch, total, thr);
    assert(vstd::math::min(thr * batch, total) == total) by (nonlinear_arith)
        requires
            batch * thr >= total,
    ;
}

// ------------------------------------------------------------------
// Merge order does not matter.
// ------------------------------------------------------------------

/// The entry a sparse result list carries for buffer slot `n`, if any.
/// With distinct indices there is at most one.
pub open spec fn entry_for(rs: Seq<(usize, PixelBuffer)>, n: int) -> Option<PixelBuffer>
    decreases rs.len(),
{
    if rs.len() == 0 {
        Option::None
    } else if rs.last().0 as int == n {
        Option::Some(rs.last().1)
    } else {
        entry_for(rs.drop_last(), n)
    }
}

/// No two entries of the list address the same buffer slot.
pub open spec fn distinct_indices(rs: Seq<(usize, PixelBuffer)>) -> bool {
    forall|i: int, j: int|
        0 <= i < j < rs.len() ==> (#[trigger] rs[i]).0 != (#[trigger] rs[j]).0
}

proof fn lemma_entry_for_iff(rs: Seq<(usize, PixelBuffer)>, n: int)
    ensures
        entry_for(rs, n).is_none() <==> (forall|i: int|
            0 <= i < rs.len() ==> (#[trigger] rs[i]).0 as int != n),
    decreases rs.len(),
{
    if rs.len() > 0 {
        lemma_entry_for_iff(rs.drop_last(), n);
        assert(forall|i: int|
            0 <= i < rs.len() - 1 ==> (#[trigger] rs[i]) == rs.drop_last()[i]);
        if rs.last().0 as int == n {
            assert(rs[rs.len() - 1].0 as int == n);
        }
    }
}

proof fn lemma_entry_for_contains(rs: Seq<(usize, PixelBuffer)>, n: int, c: PixelBuffer)
    requires
        entry_for(rs, n) == Option::Some(c),
    ensures
        exists|i: int| 0 <= i < rs.len() && (#[trigger] rs[i]).0 as int == n && rs[i].1 == c,
    decreases rs.len(),
{
    if rs.len() > 0 {
        if rs.last().0 as int == n {
            assert(rs[rs.len() - 1].0 as int == n && rs[rs.len() - 1].1 == c);
        } else {
            lemma_entry_for_contains(rs.drop_last(), n, c);
            let i = choose|i: int|
                0 <= i < rs.drop_last().len() && (#[trigger] rs.drop_last()[i]).0 as int == n
                    && rs.drop_last()[i].1 == c;
            assert(rs[i].0 as int == n && rs[i].1 == c);
        }
    }
}

proof fn lemma_contains_entry_for(rs: Seq<(usize, PixelBuffer)>, n: int, c: PixelBuffer)
    requires
        distinct_indices(rs),
        exists|i: int| 0 <= i < rs.len() && (#[trigger] rs[i]).0 as int == n && rs[i].1 == c,
    ensures
        entry_for(rs, n) == Option::Some(c),
    decreases rs.len(),
{
    let i = choose|i: int| 0 <= i < rs.len() && (#[trigger] rs[i]).0 as int == n && rs[i].1 == c;
    if i == rs.len() - 1 {
        assert(rs.last().0 as int == n && rs.last().1 == c);
    } else {
        assert(rs.last().0 as int != n) by {
            assert(rs[i].0 != rs[rs.len() - 1].0 || i == rs.len() - 1);
        }
        assert(rs.drop_last()[i] == rs[i]);
        assert(forall|a: int, b: int|
            0 <= a < b < rs.len() - 1 ==> (#[trigger] rs.drop_last()[a]).0 != (
            #[trigger] rs.drop_last()[b]).0) by {
            assert(forall|a: int|
                0 <= a < rs.len() - 1 ==> (#[trigger] rs.drop_last()[a]) == rs[a]);
        }
        lemma_contains_entry_for(rs.drop_last(), n, c);
    }
}

proof fn lemma_merge_seq_len(buf: Seq<Option<PixelBuffer>>, rs: Seq<(usize, PixelBuffer)>)
    requires
        forall|i: int| 0 <= i < rs.len() ==> (#[trigger] rs[i]).0 < buf.len(),
    ensures
        merge_seq(buf, rs).len() == buf.len(),
    decreases rs.len(),
{
    if rs.len() > 0 {
        assert(forall|i: int| 0 <= i < rs.len() - 1 ==> (#[trigger] rs.drop_last()[i]) == rs[i]);
        lemma_merge_seq_len(buf, rs.drop_last());
    }
}

/// What merging a distinct-indexed sparse list does to slot `n`: a single
/// depth-tested write of the one entry addressed to `n`, or nothing.
pub proof fn lemma_merge_seq_pointwise(
    buf: Seq<Option<PixelBuffer>>,
    rs: Seq<(usize, PixelBuffer)>,
    n: int,
)
    requires
        distinct_indices(rs),
        forall|i: int| 0 <= i < rs.len() ==> (#[trigger] rs[i]).0 < buf.len(),
        0 <= n < buf.len(),
    ensures
        merge_seq(buf, rs)[n] == match entry_for(rs, n) {
            Option::None => buf[n],
            Option::Some(c) => depth_write(buf[n], c),
        },
    decreases rs.len(),
{
    if rs.len() > 0 {
        let drop = rs.drop_last();
        assert(forall|i: int| 0 <= i < rs.len() - 1 ==> (#[trigger] drop[i]) == rs[i]);
        assert(forall|a: int, b: int|
            0 <= a < b < drop.len() ==> (#[trigger] drop[a]).0 != (#[trigger] drop[b]).0);
        lemma_merge_seq_pointwise(buf, drop, n);
        lemma_merge_seq_len(buf, drop);
        let prev = merge_seq(buf, drop);
        if rs.last().0 as int == n {
            assert(entry_for(drop, n).is_none()) by {
                lemma_entry_for_iff(drop, n);
                assert forall|i: int| 0 <= i < drop.len() implies (#[trigger] drop[i]).0 as int
                    != n by {
                    assert(rs[i].0 != rs[rs.len() - 1].0);
                }
            }
        }
    }
}

/// Merging the same set of sparse results in any order yields the same
/// buffer, provided no two results address the same pixel — as holds for
/// the workers' results, whose pixel ranges are disjoint.
pub proof fn lemma_merge_order_invariant(
    buf: Seq<Option<PixelBuffer>>,
    rs1: Seq<(usize, PixelBuffer)>,
    rs2: Seq<(usize, PixelBuffer)>,
)
    requires
        distinct_indices(rs1),
        distinct_indices(rs2),
        rs1.to_multiset() == rs2.to_multiset(),
        forall|i: int| 0 <= i < rs1.len() ==> (#[trigger] rs1[i]).0 < buf.len(),
        forall|i: int| 0 <= i < rs2.len() ==> (#[trigger] rs2[i]).0 < buf.len(),
    ensures
        merge_seq(buf, rs1) == merge_seq(buf, rs2),
{
    rs1.to_multiset_ensures();
    rs2.to_multiset_ensures();
    lemma_merge_seq_len(buf, rs1);
    lemma_merge_seq_len(buf, rs2);
    assert forall|n: int| 0 <= n < buf.len() implies merge_seq(buf, rs1)[n] == merge_seq(
        buf,
        rs2,
    )[n] by {
        lemma_merge_seq_pointwise(buf, rs1, n);
        lemma_merge_seq_pointwise(buf, rs2, n);
        match entry_for(rs1, n) {
            Option::Some(c) => {
                lemma_entry_for_contains(rs1, n, c);
                let i = choose|i: int|
                    0 <= i < rs1.len() && (#[trigger] rs1[i]).0 as int == n && rs1[i].1 == c;
                assert(rs1.contains(rs1[i]));
                assert(rs2.to_multiset().count(rs1[i]) > 0);
                assert(rs2.contains(rs1[i]));
                let j = choose|j: int| 0 <= j < rs2.len() && rs2[j] == rs1[i];
                assert(rs2[j].0 as int == n && rs2[j].1 == c);
                lemma_contains_entry_for(rs2, n, c);
            },
            Option::None => {
                lemma_entry_for_iff(rs1, n);
                match entry_for(rs2, n) {
                    Option::Some(c) => {
                        lemma_entry_for_contains(rs2, n, c);
                        let j = choose|j: int|
                            0 <= j < rs2.len() && (#[trigger] rs2[j]).0 as int == n && rs2[j].1
                                == c;
                        assert(rs2.contains(rs2[j]));
                        assert(rs1.to_multiset().count(rs2[j]) > 0);
                        assert(rs1.contains(rs2[j]));
                        let i = choose|i: int| 0 <= i < rs1.len() && rs1[i] == rs2[j];
                        assert(rs1[i].0 as int == n);
                        assert(false);
                    },
                    Option::None => {},
                }
            },
        }
    }
    assert(merge_seq(buf, rs1) =~= merge_seq(buf, rs2));
}

} // verus!
