//! The triangle rasterization pipeline.
//!
//! A draw call projects three vertices through a vertex shader, walks the
//! pixel grid, tests each pixel for coverage, interpolates depth and color
//! barycentrically, shades the resulting fragment, and composites it into
//! the screen buffer under a depth test ("larger depth wins").
//!
//! All screen-space geometry is exact.  For a `width`×`height` grid, a
//! screen point is modelled as a pair of integers at scale
//! `SCALE·width·height`: the vertex fragment with raw coordinate `a` sits
//! at `a·width·height`, and the centre of pixel `(x, y)` — normalized
//! device coordinates `(2x/width − 1, 2y/height − 1)` — sits at
//! `((2x − width)·SCALE·height, (2y − height)·SCALE·width)`.  Coverage and
//! barycentric coefficients are computed on those integers in `i128`, with
//! no rounding; only the interpolated fragment handed to the fragment
//! shader is rounded back to the fixed-point grid.

use vstd::prelude::*;
use vstd::pervasive::VecAdditionalExecFns;
use crate::fx::{round_div, round_div_i128, Fx, MAX_RAW, SCALE};
use crate::vector::{Vec2, Vec3};

verus! {

/// Largest accepted screen dimension, in pixels.
pub const MAX_DIM: usize = 8192;

/// A color: red, green and blue channels, nominally in `[0, 1]`.
pub type Color = Vec3;

/// A mesh corner: a 3D position and a color.
#[derive(Clone, Copy, Debug, PartialEq, Eq, Structural)]
pub struct Vertex(pub Vec3, pub Color);

/// A projected corner or a synthesized per-pixel sample: a position in
/// normalized device coordinates (with depth) and a color.
#[derive(Clone, Copy, Debug, PartialEq, Eq, Structural)]
pub struct Fragment(pub Vec3, pub Color);

/// One screen-buffer entry: the color and depth of the nearest fragment
/// written so far.
#[derive(Clone, Copy, Debug, PartialEq, Eq, Structural)]
pub struct PixelBuffer {
    pub color: Color,
    pub depth: Fx,
}

/// A pixel coordinate on a concrete grid.
#[derive(Clone, Copy, Debug, PartialEq, Eq, Structural)]
pub struct PixelPos {
    pub x: usize,
    pub y: usize,
    pub width: usize,
    pub height: usize,
}

impl Vec2 {
    /// Both components within the rasterizer's scalar range.
    pub open spec fn wf(self) -> bool {
        self.0.wf() && self.1.wf()
    }
}

impl Vec3 {
    /// All components within the rasterizer's scalar range.
    pub open spec fn wf(self) -> bool {
        self.0.wf() && self.1.wf() && self.2.wf()
    }
}

impl Vertex {
    /// Position and color within the rasterizer's scalar range.
    pub open spec fn wf(self) -> bool {
        self.0.wf() && self.1.wf()
    }
}

impl Fragment {
    /// Position and color within the rasterizer's scalar range.
    pub open spec fn wf(self) -> bool {
        self.0.wf() && self.1.wf()
    }
}

impl PixelBuffer {
    /// Color and depth within the rasterizer's scalar range.
    pub open spec fn wf(self) -> bool {
        self.color.wf() && self.depth.wf()
    }
}

impl PixelPos {
    /// The coordinate lies on a grid of accepted size.
    pub open spec fn wf(self) -> bool {
        self.x < self.width <= MAX_DIM && self.y < self.height <= MAX_DIM
    }
}

// ------------------------------------------------------------------
// The exact screen-space model.
// ------------------------------------------------------------------

/// A triangle's three corners as exact scaled screen points.
pub struct ScreenTri {
    pub x0: int,
    pub y0: int,
    pub x1: int,
    pub y1: int,
    pub x2: int,
    pub y2: int,
}

/// 2D cross product of `(ax, ay)` and `(bx, by)`.
pub open spec fn cross2(ax: int, ay: int, bx: int, by: int) -> int {
    ax * by - ay * bx
}

/// Scaled x coordinate of the centre of pixel column `x`.
pub open spec fn pix_x(x: int, w: int, h: int) -> int {
    (2 * x - w) * (SCALE as int) * h
}

/// Scaled y coordinate of the centre of pixel row `y`.
pub open spec fn pix_y(y: int, w: int, h: int) -> int {
    (2 * y - h) * (SCALE as int) * w
}

/// The scaled screen points of three projected fragments.
pub open spec fn screen_tri(f0: Fragment, f1: Fragment, f2: Fragment, w: int, h: int) -> ScreenTri {
    ScreenTri {
        x0: f0.0.0.raw() * w * h,
        y0: f0.0.1.raw() * w * h,
        x1: f1.0.0.raw() * w * h,
        y1: f1.0.1.raw() * w * h,
        x2: f2.0.0.raw() * w * h,
        y2: f2.0.1.raw() * w * h,
    }
}

/// The half-plane test of the sequential inner loop: from corner `(cx, cy)`,
/// the point lies on opposite sides (or on the boundary) of the two edges
/// towards `(ux, uy)` and `(vx, vy)`.
pub open spec fn edges_opposed(
    px: int,
    py: int,
    cx: int,
    cy: int,
    ux: int,
    uy: int,
    vx: int,
    vy: int,
) -> bool {
    cross2(px - cx, py - cy, ux - cx, uy - cy) * cross2(px - cx, py - cy, vx - cx, vy - cy) <= 0
}

/// Twice the triangle's signed area: the determinant of the barycentric system.
pub open spec fn tri_det(t: ScreenTri) -> int {
    cross2(t.x1 - t.x0, t.y1 - t.y0, t.x2 - t.x0, t.y2 - t.y0)
}

/// Unnormalized numerator of the first barycentric coefficient at `(px, py)`.
pub open spec fn bary_a_raw(t: ScreenTri, px: int, py: int) -> int {
    cross2(px - t.x0, py - t.y0, t.x2 - t.x0, t.y2 - t.y0)
}

/// Unnormalized numerator of the second barycentric coefficient at `(px, py)`.
pub open spec fn bary_b_raw(t: ScreenTri, px: int, py: int) -> int {
    cross2(t.x1 - t.x0, t.y1 - t.y0, px - t.x0, py - t.y0)
}

/// The common positive denominator of the barycentric coefficients.
pub open spec fn bary_den(t: ScreenTri) -> int {
    if tri_det(t) >= 0 {
        tri_det(t)
    } else {
        -tri_det(t)
    }
}

/// Numerator of the first barycentric coefficient `a`, over `bary_den`.
pub open spec fn bary_a(t: ScreenTri, px: int, py: int) -> int {
    if tri_det(t) >= 0 {
        bary_a_raw(t, px, py)
    } else {
        -bary_a_raw(t, px, py)
    }
}

/// Numerator of the second barycentric coefficient `b`, over `bary_den`.
pub open spec fn bary_b(t: ScreenTri, px: int, py: int) -> int {
    if tri_det(t) >= 0 {
        bary_b_raw(t, px, py)
    } else {
        -bary_b_raw(t, px, py)
    }
}

/// The coverage test of the pipeline: the two half-plane tests of the inner
/// loop, a nondegenerate triangle, and barycentric coefficients in `[0, 1]`.
pub open spec fn pt_covered(t: ScreenTri, px: int, py: int) -> bool {
    &&& edges_opposed(px, py, t.x0, t.y0, t.x1, t.y1, t.x2, t.y2)
    &&& edges_opposed(px, py, t.x1, t.y1, t.x2, t.y2, t.x0, t.y0)
    &&& tri_det(t) != 0
    &&& 0 <= bary_a(t, px, py) <= bary_den(t)
    &&& 0 <= bary_b(t, px, py) <= bary_den(t)
}

/// Membership in the triangle's convex hull: the point is a convex
/// combination of the three corners, with rational weights `an/dn`, `bn/dn`
/// and `1 − an/dn − bn/dn`.
pub open spec fn pt_in_hull(t: ScreenTri, px: int, py: int) -> bool {
    exists|an: int, bn: int, dn: int|
        {
            &&& dn >= 1
            &&& 0 <= an
            &&& 0 <= bn
            &&& an + bn <= dn
            &&& #[trigger] hull_witness(t, px, py, an, bn, dn)
        }
}

/// The convex-combination equations for one choice of weights.
pub open spec fn hull_witness(t: ScreenTri, px: int, py: int, an: int, bn: int, dn: int) -> bool {
    &&& dn * (px - t.x0) == an * (t.x1 - t.x0) + bn * (t.x2 - t.x0)
    &&& dn * (py - t.y0) == an * (t.y1 - t.y0) + bn * (t.y2 - t.y0)
}

/// Linear interpolation numerator over denominator `den`: the value
/// `z0 + (a/den)·(z1 − z0) + (b/den)·(z2 − z0)`, times `den`.
pub open spec fn interp_num(z0: int, z1: int, z2: int, a: int, b: int, den: int) -> int {
    z0 * den + a * (z1 - z0) + b * (z2 - z0)
}

/// Bound on every scaled vertex or pixel coordinate.
pub open spec fn coord_bound() -> int {
    (MAX_RAW as int) * (MAX_DIM as int) * (MAX_DIM as int)
}

/// Bound on the barycentric denominator (and numerators' magnitude).
pub open spec fn den_bound() -> int {
    8 * coord_bound() * coord_bound()
}

// ------------------------------------------------------------------
// Arithmetic bound lemmas.
// ------------------------------------------------------------------

/// The two symbolic bounds as plain numbers, so that the range checks of
/// the `i128` arithmetic become linear.
proof fn lemma_bound_values()
    ensures
        coord_bound() == 0x1_0000_0000_0000,
        den_bound() == 0x8_0000_0000_0000_0000_0000_0000,
{
    assert((MAX_RAW as int) * (MAX_DIM as int) * (MAX_DIM as int) == 0x1_0000_0000_0000)
        by (nonlinear_arith)
        requires
            MAX_RAW == 4194304i64,
            MAX_DIM == 8192usize,
    ;
    assert(8 * 0x1_0000_0000_0000int * 0x1_0000_0000_0000int
        == 0x8_0000_0000_0000_0000_0000_0000int) by (nonlinear_arith);
}

proof fn lemma_abs_mul3(a: int, b: int, c: int, ba: int, bb: int, bc: int)
    by (nonlinear_arith)
    requires
        -ba <= a <= ba,
        0 <= b <= bb,
        0 <= c <= bc,
        0 <= ba,
    ensures
        -(ba * bb) <= a * b <= ba * bb,
        -(ba * bb * bc) <= a * b * c <= ba * bb * bc,
{
}

proof fn lemma_cross_bound(ax: int, ay: int, bx: int, by: int, m: int)
    by (nonlinear_arith)
    requires
        0 <= m,
        -m <= ax <= m,
        -m <= ay <= m,
        -m <= bx <= m,
        -m <= by <= m,
    ensures
        -(m * m) <= ax * by <= m * m,
        -(m * m) <= ay * bx <= m * m,
        -(2 * m * m) <= cross2(ax, ay, bx, by) <= 2 * m * m,
{
}

proof fn lemma_opposed_signs(c1: int, c2: int)
    by (nonlinear_arith)
    ensures
        (c1 * c2 <= 0) == ((c1 <= 0 && c2 >= 0) || (c1 >= 0 && c2 <= 0)),
{
}

// ------------------------------------------------------------------
// The executable coverage test and barycentric solve.
// ------------------------------------------------------------------

/// Computes the two edge cross products of [`edges_opposed`] for the pixel
/// `p` against corner `c` of the triangle `(c, u, v)`, exactly, in `i128`.
fn edge_crosses(c: &Vec2, u: &Vec2, v: &Vec2, p: &PixelPos) -> (r: (i128, i128))
    requires
        c.wf(),
        u.wf(),
        v.wf(),
        p.wf(),
    ensures
        r.0 == cross2(
            pix_x(p.x as int, p.width as int, p.height as int) - c.0.raw() * p.width * p.height,
            pix_y(p.y as int, p.width as int, p.height as int) - c.1.raw() * p.width * p.height,
            u.0.raw() * p.width * p.height - c.0.raw() * p.width * p.height,
            u.1.raw() * p.width * p.height - c.1.raw() * p.width * p.height,
        ),
        r.1 == cross2(
            pix_x(p.x as int, p.width as int, p.height as int) - c.0.raw() * p.width * p.height,
            pix_y(p.y as int, p.width as int, p.height as int) - c.1.raw() * p.width * p.height,
            v.0.raw() * p.width * p.height - c.0.raw() * p.width * p.height,
            v.1.raw() * p.width * p.height - c.1.raw() * p.width * p.height,
        ),
        -den_bound() <= r.0 <= den_bound(),
        -den_bound() <= r.1 <= den_bound(),
{
    let w = p.width as i128;
    let h = p.height as i128;
    proof {
        lemma_bound_values();
        lemma_abs_mul3(c.0.raw(), w as int, h as int, MAX_RAW as int, MAX_DIM as int,
            MAX_DIM as int);
        lemma_abs_mul3(c.1.raw(), w as int, h as int, MAX_RAW as int, MAX_DIM as int,
            MAX_DIM as int);
        lemma_abs_mul3(u.0.raw(), w as int, h as int, MAX_RAW as int, MAX_DIM as int,
            MAX_DIM as int);
        lemma_abs_mul3(u.1.raw(), w as int, h as int, MAX_RAW as int, MAX_DIM as int,
            MAX_DIM as int);
        lemma_abs_mul3(v.0.raw(), w as int, h as int, MAX_RAW as int, MAX_DIM as int,
            MAX_DIM as int);
        lemma_abs_mul3(v.1.raw(), w as int, h as int, MAX_RAW as int, MAX_DIM as int,
            MAX_DIM as int);
        lemma_abs_mul3(2 * (p.x as int) - w as int, SCALE as int, h as int, MAX_DIM as int,
            SCALE as int, MAX_DIM as int);
        lemma_abs_mul3(2 * (p.y as int) - h as int, SCALE as int, w as int, MAX_DIM as int,
            SCALE as int, MAX_DIM as int);
        assert((MAX_DIM as int) * (SCALE as int) * (MAX_DIM as int) <= coord_bound())
            by (nonlinear_arith)
            requires
                MAX_DIM == 8192usize,
                SCALE == 65536i64,
                MAX_RAW == 4194304i64,
        ;
    }
    let sx = (2 * (p.x as i128) - w) * (SCALE as i128) * h;
    let sy = (2 * (p.y as i128) - h) * (SCALE as i128) * w;
    let cx = c.0.0 as i128 * w * h;
    let cy = c.1.0 as i128 * w * h;
    let ux = u.0.0 as i128 * w * h;
    let uy = u.1.0 as i128 * w * h;
    let vx = v.0.0 as i128 * w * h;
    let vy = v.1.0 as i128 * w * h;
    let dx = sx - cx;
    let dy = sy - cy;
    proof {
        lemma_bound_values();
        lemma_cross_bound(dx as int, dy as int, ux as int - cx as int, uy as int - cy as int,
            2 * coord_bound());
        lemma_cross_bound(dx as int, dy as int, vx as int - cx as int, vy as int - cy as int,
            2 * coord_bound());
        assert(2 * (2 * coord_bound()) * (2 * coord_bound()) == den_bound()) by (nonlinear_arith);
    }
    let c1 = dx * (uy - cy) - dy * (ux - cx);
    let c2 = dx * (vy - cy) - dy * (vx - cx);
    (c1, c2)
}

/// The coverage half-plane test: is the centre of pixel `p` on the same
/// side of the triangle's interior with respect to the two edges leaving
/// the corner `p0`?  Exact; edges themselves count as inside.
pub fn inside(p0: &Vec2, p1: &Vec2, p2: &Vec2, p: &PixelPos) -> (r: bool)
    requires
        p0.wf(),
        p1.wf(),
        p2.wf(),
        p.wf(),
    ensures
        r == edges_opposed(
            pix_x(p.x as int, p.width as int, p.height as int),
            pix_y(p.y as int, p.width as int, p.height as int),
            p0.0.raw() * p.width * p.height,
            p0.1.raw() * p.width * p.height,
            p1.0.raw() * p.width * p.height,
            p1.1.raw() * p.width * p.height,
            p2.0.raw() * p.width * p.height,
            p2.1.raw() * p.width * p.height,
        ),
{
    let (c1, c2) = edge_crosses(p0, p1, p2, p);
    proof {
        lemma_opposed_signs(c1 as int, c2 as int);
    }
    (c1 <= 0 && c2 >= 0) || (c1 >= 0 && c2 <= 0)
}

/// Exact barycentric coefficients of one pixel, as integer numerators over
/// a common positive denominator.
#[derive(Clone, Copy, Debug, PartialEq, Eq, Structural)]
pub struct Bary {
    pub a_num: i128,
    pub b_num: i128,
    pub den: i128,
}

impl Bary {
    /// Coefficients in `[0, 1]` over a positive, bounded denominator.
    pub open spec fn wf(self) -> bool {
        &&& 1 <= self.den <= den_bound()
        &&& 0 <= self.a_num <= self.den
        &&& 0 <= self.b_num <= self.den
    }
}

/// Solves the barycentric system for the centre of pixel `p`: finds
/// `(a, b)` with `p − p0 == a·(p1 − p0) + b·(p2 − p0)`, exactly.  Declines
/// (`None`) for a degenerate triangle, or when a coefficient falls outside
/// `[0, 1]`.
pub fn basis(p0: &Vec2, p1: &Vec2, p2: &Vec2, p: &PixelPos) -> (r: Option<Bary>)
    requires
        p0.wf(),
        p1.wf(),
        p2.wf(),
        p.wf(),
    ensures
        ({
            let t = ScreenTri {
                x0: p0.0.raw() * p.width * p.height,
                y0: p0.1.raw() * p.width * p.height,
                x1: p1.0.raw() * p.width * p.height,
                y1: p1.1.raw() * p.width * p.height,
                x2: p2.0.raw() * p.width * p.height,
                y2: p2.1.raw() * p.width * p.height,
            };
            let px = pix_x(p.x as int, p.width as int, p.height as int);
            let py = pix_y(p.y as int, p.width as int, p.height as int);
            &&& r.is_some() == (tri_det(t) != 0 && 0 <= bary_a(t, px, py) <= bary_den(t) && 0
                <= bary_b(t, px, py) <= bary_den(t))
            &&& r.is_some() ==> {
                &&& r.unwrap().a_num == bary_a(t, px, py)
                &&& r.unwrap().b_num == bary_b(t, px, py)
                &&& r.unwrap().den == bary_den(t)
                &&& r.unwrap().wf()
            }
        }),
{
    let w = p.width as i128;
    let h = p.height as i128;
    proof {
        lemma_bound_values();
        lemma_abs_mul3(p0.0.raw(), w as int, h as int, MAX_RAW as int, MAX_DIM as int,
            MAX_DIM as int);
        lemma_abs_mul3(p0.1.raw(), w as int, h as int, MAX_RAW as int, MAX_DIM as int,
            MAX_DIM as int);
        lemma_abs_mul3(p1.0.raw(), w as int, h as int, MAX_RAW as int, MAX_DIM as int,
            MAX_DIM as int);
        lemma_abs_mul3(p1.1.raw(), w as int, h as int, MAX_RAW as int, MAX_DIM as int,
            MAX_DIM as int);
        lemma_abs_mul3(p2.0.raw(), w as int, h as int, MAX_RAW as int, MAX_DIM as int,
            MAX_DIM as int);
        lemma_abs_mul3(p2.1.raw(), w as int, h as int, MAX_RAW as int, MAX_DIM as int,
            MAX_DIM as int);
        lemma_abs_mul3(2 * (p.x as int) - w as int, SCALE as int, h as int, MAX_DIM as int,
            SCALE as int, MAX_DIM as int);
        lemma_abs_mul3(2 * (p.y as int) - h as int, SCALE as int, w as int, MAX_DIM as int,
            SCALE as int, MAX_DIM as int);
        assert((MAX_DIM as int) * (SCALE as int) * (MAX_DIM as int) <= coord_bound())
            by (nonlinear_arith)
            requires
                MAX_DIM == 8192usize,
                SCALE == 65536i64,
                MAX_RAW == 4194304i64,
        ;
    }
    let sx = (2 * (p.x as i128) - w) * (SCALE as i128) * h;
    let sy = (2 * (p.y as i128) - h) * (SCALE as i128) * w;
    let x0 = p0.0.0 as i128 * w * h;
    let y0 = p0.1.0 as i128 * w * h;
    let x1 = p1.0.0 as i128 * w * h;
    let y1 = p1.1.0 as i128 * w * h;
    let x2 = p2.0.0 as i128 * w * h;
    let y2 = p2.1.0 as i128 * w * h;
    proof {
        lemma_bound_values();
        lemma_cross_bound(x1 as int - x0 as int, y1 as int - y0 as int, x2 as int - x0 as int,
            y2 as int - y0 as int, 2 * coord_bound());
        lemma_cross_bound(sx as int - x0 as int, sy as int - y0 as int, x2 as int - x0 as int,
            y2 as int - y0 as int, 2 * coord_bound());
        lemma_cross_bound(x1 as int - x0 as int, y1 as int - y0 as int, sx as int - x0 as int,
            sy as int - y0 as int, 2 * coord_bound());
        assert(2 * (2 * coord_bound()) * (2 * coord_bound()) == den_bound()) by (nonlinear_arith);
    }
    let det = (x1 - x0) * (y2 - y0) - (y1 - y0) * (x2 - x0);
    if det == 0 {
        return None;
    }
    let a_raw = (sx - x0) * (y2 - y0) - (sy - y0) * (x2 - x0);
    let b_raw = (x1 - x0) * (sy - y0) - (y1 - y0) * (sx - x0);
    let (a_num, b_num, den) = if det >= 1 {
        (a_raw, b_raw, det)
    } else {
        (-a_raw, -b_raw, -det)
    };
    if a_num < 0 || a_num > den || b_num < 0 || b_num > den {
        return None;
    }
    Some(Bary { a_num, b_num, den })
}

// ------------------------------------------------------------------
// Shaders.
// ------------------------------------------------------------------

/// A pluggable projection from mesh vertices to screen-space fragments.
///
/// An implementation is a pure function: `project` must return exactly
/// `project_spec` of its argument, so repeated application — as in the
/// parallel path, where every worker re-projects the corners — always
/// yields the same fragment.
pub trait VertexShader: Sized {
    /// The mathematical projection.  The default is the identity: the
    /// vertex position and color carry over unchanged.
    open spec fn project_spec(&self, v: Vertex) -> Fragment {
        Fragment(v.0, v.1)
    }

    /// Applies the projection.
    fn project(&self, v: &Vertex) -> (f: Fragment)
        requires
            v.wf(),
        ensures
            f == self.project_spec(*v),
            f.wf(),
    ;
}

/// A pluggable coloring of covered pixels.
///
/// An implementation is a pure function of the fragment alone: it cannot
/// depend on the order in which pixels are visited, which the parallel
/// path's correctness rests on.
pub trait FragmentShader: Sized {
    /// The mathematical shading function.  The default passes the
    /// interpolated color and depth through unchanged.
    open spec fn shade_spec(&self, f: Fragment) -> PixelBuffer {
        PixelBuffer { color: f.1, depth: f.0.2 }
    }

    /// Shades one fragment.
    fn shade(&self, f: &Fragment) -> (r: PixelBuffer)
        requires
            f.wf(),
        ensures
            r == self.shade_spec(*f),
            r.wf(),
    ;
}

/// The identity projection: the vertex already holds normalized device
/// coordinates, and keeps its color.
#[derive(Clone, Copy, Debug, PartialEq, Eq, Structural)]
pub struct IdentityVertexShader;

impl VertexShader for IdentityVertexShader {
    fn project(&self, v: &Vertex) -> (f: Fragment) {
        Fragment(v.0, v.1)
    }
}

/// The plain fragment shader: the pixel takes the interpolated color and
/// the interpolated depth unchanged.
#[derive(Clone, Copy, Debug, PartialEq, Eq, Structural)]
pub struct ColorFragmentShader;

impl FragmentShader for ColorFragmentShader {
    fn shade(&self, f: &Fragment) -> (r: PixelBuffer) {
        PixelBuffer { color: f.1, depth: f.0.2 }
    }
}

// ------------------------------------------------------------------
// Interpolation and fragment synthesis.
// ------------------------------------------------------------------

proof fn lemma_abs_mul2(a: int, b: int, ba: int, bb: int)
    by (nonlinear_arith)
    requires
        -ba <= a <= ba,
        0 <= b <= bb,
        0 <= ba,
    ensures
        -(ba * bb) <= a * b <= ba * bb,
{
}

/// With weights `a/den`, `b/den` and `1 − a/den − b/den` all in `[0, 1]`,
/// the interpolation is a convex combination: its value stays within the
/// bound of the three interpolated values.
proof fn lemma_interp_convex(z0: int, z1: int, z2: int, a: int, b: int, den: int, m: int)
    by (nonlinear_arith)
    requires
        0 <= a <= den,
        0 <= b <= den,
        a + b <= den,
        1 <= den,
        0 <= m,
        -m <= z0 <= m,
        -m <= z1 <= m,
        -m <= z2 <= m,
    ensures
        -(m * den) <= interp_num(z0, z1, z2, a, b, den) <= m * den,
{
}

/// Interpolates one fixed-point channel at barycentric coefficients
/// `bary`, exactly, then rounds the result to the nearest step.
fn interp_channel(z0: Fx, z1: Fx, z2: Fx, bary: &Bary) -> (r: Fx)
    requires
        z0.wf(),
        z1.wf(),
        z2.wf(),
        bary.wf(),
        bary.a_num + bary.b_num <= bary.den,
    ensures
        r.raw() == round_div(
            interp_num(z0.raw(), z1.raw(), z2.raw(), bary.a_num as int, bary.b_num as int,
                bary.den as int),
            bary.den as int,
        ),
        r.wf(),
{
    proof {
        lemma_bound_values();
        lemma_abs_mul2(z0.raw(), bary.den as int, MAX_RAW as int, den_bound());
        lemma_abs_mul2(z1.raw() - z0.raw(), bary.a_num as int, 2 * (MAX_RAW as int), den_bound());
        lemma_abs_mul2(z2.raw() - z0.raw(), bary.b_num as int, 2 * (MAX_RAW as int), den_bound());
        lemma_interp_convex(z0.raw(), z1.raw(), z2.raw(), bary.a_num as int, bary.b_num as int,
            bary.den as int, MAX_RAW as int);
        crate::fx::lemma_round_div_bound(
            interp_num(z0.raw(), z1.raw(), z2.raw(), bary.a_num as int, bary.b_num as int,
                bary.den as int),
            bary.den as int,
            MAX_RAW as int,
        );
    }
    proof {
        assert((z1.raw() - z0.raw()) * (bary.a_num as int) == (bary.a_num as int) * (z1.raw()
            - z0.raw())) by (nonlinear_arith);
        assert((z2.raw() - z0.raw()) * (bary.b_num as int) == (bary.b_num as int) * (z2.raw()
            - z0.raw())) by (nonlinear_arith);
    }
    let n = z0.0 as i128 * bary.den + (z1.0 as i128 - z0.0 as i128) * bary.a_num + (z2.0 as i128
        - z0.0 as i128) * bary.b_num;
    let r = round_div_i128(n, bary.den);
    Fx(r as i64)
}

/// The normalized device coordinate of pixel index `v` on an axis of
/// `dim` pixels — the value `2·v/dim − 1` — rounded to the nearest step.
fn ndc_coord(v: usize, dim: usize) -> (r: Fx)
    requires
        v < dim <= MAX_DIM,
    ensures
        r.raw() == round_div((2 * v - dim) * (SCALE as int), dim as int),
        r.wf(),
{
    proof {
        lemma_abs_mul2(2 * (v as int) - dim as int, SCALE as int, dim as int, SCALE as int);
        assert((dim as int) * (SCALE as int) == (SCALE as int) * (dim as int)) by (nonlinear_arith);
        crate::fx::lemma_round_div_bound((2 * (v as int) - dim as int) * (SCALE as int),
            dim as int, SCALE as int);
    }
    let n = (2 * (v as i128) - dim as i128) * (SCALE as i128);
    let r = round_div_i128(n, dim as i128);
    Fx(r as i64)
}

/// The fragment synthesized for pixel `(x, y)`: the pixel's normalized
/// device coordinates, the barycentrically interpolated depth, and the
/// barycentrically interpolated color, each rounded to the nearest step.
pub open spec fn frag_at(
    f0: Fragment,
    f1: Fragment,
    f2: Fragment,
    w: int,
    h: int,
    x: int,
    y: int,
) -> Fragment {
    let t = screen_tri(f0, f1, f2, w, h);
    let px = pix_x(x, w, h);
    let py = pix_y(y, w, h);
    let a = bary_a(t, px, py);
    let b = bary_b(t, px, py);
    let dn = bary_den(t);
    Fragment(
        Vec3(
            Fx(round_div((2 * x - w) * (SCALE as int), w) as i64),
            Fx(round_div((2 * y - h) * (SCALE as int), h) as i64),
            Fx(round_div(interp_num(f0.0.2.raw(), f1.0.2.raw(), f2.0.2.raw(), a, b, dn), dn)
                as i64),
        ),
        Vec3(
            Fx(round_div(interp_num(f0.1.0.raw(), f1.1.0.raw(), f2.1.0.raw(), a, b, dn), dn)
                as i64),
            Fx(round_div(interp_num(f0.1.1.raw(), f1.1.1.raw(), f2.1.1.raw(), a, b, dn), dn)
                as i64),
            Fx(round_div(interp_num(f0.1.2.raw(), f1.1.2.raw(), f2.1.2.raw(), a, b, dn), dn)
                as i64),
        ),
    )
}

/// Builds [`frag_at`] for one pixel from the exact barycentric
/// coefficients that [`basis`] produced for it.
fn make_fragment(f0: &Fragment, f1: &Fragment, f2: &Fragment, p: &PixelPos, bary: &Bary) -> (r:
    Fragment)
    requires
        f0.wf(),
        f1.wf(),
        f2.wf(),
        p.wf(),
        bary.wf(),
        bary.a_num + bary.b_num <= bary.den,
        bary.a_num == bary_a(
            screen_tri(*f0, *f1, *f2, p.width as int, p.height as int),
            pix_x(p.x as int, p.width as int, p.height as int),
            pix_y(p.y as int, p.width as int, p.height as int),
        ),
        bary.b_num == bary_b(
            screen_tri(*f0, *f1, *f2, p.width as int, p.height as int),
            pix_x(p.x as int, p.width as int, p.height as int),
            pix_y(p.y as int, p.width as int, p.height as int),
        ),
        bary.den == bary_den(screen_tri(*f0, *f1, *f2, p.width as int, p.height as int)),
    ensures
        r == frag_at(*f0, *f1, *f2, p.width as int, p.height as int, p.x as int, p.y as int),
        r.wf(),
{
    let sx = ndc_coord(p.x, p.width);
    let sy = ndc_coord(p.y, p.height);
    let depth = interp_channel(f0.0.2, f1.0.2, f2.0.2, bary);
    let cr = interp_channel(f0.1.0, f1.1.0, f2.1.0, bary);
    let cg = interp_channel(f0.1.1, f1.1.1, f2.1.1, bary);
    let cb = interp_channel(f0.1.2, f1.1.2, f2.1.2, bary);
    Fragment(Vec3(sx, sy, depth), Vec3(cr, cg, cb))
}

// ------------------------------------------------------------------
// The depth test and the per-pixel update.
// ------------------------------------------------------------------

/// The depth rule: an empty slot takes the candidate; an occupied slot is
/// replaced only when its depth is strictly smaller than the candidate's
/// ("larger depth wins", ties keep the existing entry).
pub open spec fn depth_write(cur: Option<PixelBuffer>, cand: PixelBuffer) -> Option<PixelBuffer> {
    match cur {
        Option::None => Option::Some(cand),
        Option::Some(e) => if e.depth.raw() < cand.depth.raw() {
            Option::Some(cand)
        } else {
            Option::Some(e)
        },
    }
}

/// Applies [`depth_write`] to one slot of the screen buffer.
fn write_pixel(screen_buffer: &mut Vec<Option<PixelBuffer>>, n: usize, cand: PixelBuffer)
    requires
        n < old(screen_buffer)@.len(),
    ensures
        final(screen_buffer)@ == old(screen_buffer)@.update(
            n as int,
            depth_write(old(screen_buffer)@[n as int], cand),
        ),
{
    let replace = match screen_buffer[n] {
        Option::None => true,
        Option::Some(e) => e.depth.0 < cand.depth.0,
    };
    if replace {
        screen_buffer.set(n, Some(cand));
    } else {
        proof {
            assert(old(screen_buffer)@.update(
                n as int,
                depth_write(old(screen_buffer)@[n as int], cand),
            ) =~= old(screen_buffer)@);
        }
    }
}

// ------------------------------------------------------------------
// One pixel, and a range of pixels, as mathematical updates.
// ------------------------------------------------------------------

/// Coverage of pixel `(x, y)` by the triangle of projected fragments.
pub open spec fn pix_covered(
    f0: Fragment,
    f1: Fragment,
    f2: Fragment,
    w: int,
    h: int,
    x: int,
    y: int,
) -> bool {
    pt_covered(screen_tri(f0, f1, f2, w, h), pix_x(x, w, h), pix_y(y, w, h))
}

/// The candidate entry for a covered pixel: the shaded synthesized fragment.
pub open spec fn pix_candidate<FS: FragmentShader>(
    fs: FS,
    f0: Fragment,
    f1: Fragment,
    f2: Fragment,
    w: int,
    h: int,
    x: int,
    y: int,
) -> PixelBuffer {
    fs.shade_spec(frag_at(f0, f1, f2, w, h, x, y))
}

/// The effect of the draw call on the single pixel with linear index `n`
/// (row-major: `x = n % w`, `y = n / w`): a depth-tested write when the
/// pixel is covered, and no change otherwise.
pub open spec fn apply_pixel<FS: FragmentShader>(
    fs: FS,
    f0: Fragment,
    f1: Fragment,
    f2: Fragment,
    w: int,
    h: int,
    buf: Seq<Option<PixelBuffer>>,
    n: int,
) -> Seq<Option<PixelBuffer>> {
    let x = n % w;
    let y = n / w;
    if pix_covered(f0, f1, f2, w, h, x, y) {
        buf.update(n, depth_write(buf[n], pix_candidate(fs, f0, f1, f2, w, h, x, y)))
    } else {
        buf
    }
}

/// The effect of the draw call on the pixels with linear indices in
/// `[s, e)`, applied in increasing order.
pub open spec fn apply_range<FS: FragmentShader>(
    fs: FS,
    f0: Fragment,
    f1: Fragment,
    f2: Fragment,
    w: int,
    h: int,
    buf: Seq<Option<PixelBuffer>>,
    s: int,
    e: int,
) -> Seq<Option<PixelBuffer>>
    decreases e - s,
{
    if e <= s {
        buf
    } else {
        apply_pixel(fs, f0, f1, f2, w, h, apply_range(fs, f0, f1, f2, w, h, buf, s, e - 1), e - 1)
    }
}

// ------------------------------------------------------------------
// Coverage facts.
// ------------------------------------------------------------------

#[verifier::rlimit(60)]
proof fn lemma_corner1_edge_a(t: ScreenTri, px: int, py: int)
    by (nonlinear_arith)
    ensures
        cross2(px - t.x1, py - t.y1, t.x2 - t.x1, t.y2 - t.y1) == bary_a_raw(t, px, py)
            + bary_b_raw(t, px, py) - tri_det(t),
{
}

#[verifier::rlimit(60)]
proof fn lemma_corner1_edge_b(t: ScreenTri, px: int, py: int)
    by (nonlinear_arith)
    ensures
        cross2(px - t.x1, py - t.y1, t.x0 - t.x1, t.y0 - t.y1) == bary_b_raw(t, px, py),
{
}

/// On a covered point the barycentric weights are a convex combination:
/// `a + b <= 1` (over the common denominator).
pub proof fn lemma_covered_sum(t: ScreenTri, px: int, py: int)
    requires
        pt_covered(t, px, py),
    ensures
        bary_a(t, px, py) + bary_b(t, px, py) <= bary_den(t),
{
    lemma_corner1_edge_a(t, px, py);
    lemma_corner1_edge_b(t, px, py);
    let ar = bary_a_raw(t, px, py);
    let br = bary_b_raw(t, px, py);
    let d = tri_det(t);
    let a = bary_a(t, px, py);
    let b = bary_b(t, px, py);
    let dn = bary_den(t);
    assert((ar + br - d) * br <= 0);
    assert((a + b - dn) * b <= 0) by (nonlinear_arith)
        requires
            (ar + br - d) * br <= 0,
            (a == ar && b == br && dn == d) || (a == -ar && b == -br && dn == -d),
    ;
    if b > 0 {
        assert(a + b - dn <= 0) by (nonlinear_arith)
            requires
                (a + b - dn) * b <= 0,
                b > 0,
        ;
    }
}

pub proof fn lemma_apply_range_len<FS: FragmentShader>(
    fs: FS,
    f0: Fragment,
    f1: Fragment,
    f2: Fragment,
    w: int,
    h: int,
    buf: Seq<Option<PixelBuffer>>,
    s: int,
    e: int,
)
    requires
        0 <= s,
        e <= buf.len(),
    ensures
        apply_range(fs, f0, f1, f2, w, h, buf, s, e).len() == buf.len(),
    decreases e - s,
{
    if e > s {
        lemma_apply_range_len(fs, f0, f1, f2, w, h, buf, s, e - 1);
    }
}

// ------------------------------------------------------------------
// The sequential draw call.
// ------------------------------------------------------------------

/// Tests one pixel for coverage and, when covered, interpolates, shades
/// and depth-writes it: the shared inner step of both paths.
#[verifier::loop_isolation(false)]
fn draw_pixel<FS: FragmentShader>(
    fragment_shader: &FS,
    f0: &Fragment,
    f1: &Fragment,
    f2: &Fragment,
    screen_buffer: &mut Vec<Option<PixelBuffer>>,
    p: PixelPos,
)
    requires
        f0.wf(),
        f1.wf(),
        f2.wf(),
        p.wf(),
        p.y * p.width + p.x < old(screen_buffer)@.len(),
    ensures
        final(screen_buffer)@ == apply_pixel(
            *fragment_shader,
            *f0,
            *f1,
            *f2,
            p.width as int,
            p.height as int,
            old(screen_buffer)@,
            p.y * p.width + p.x,
        ),
{
    let ghost n = p.y * p.width + p.x;
    proof {
        assert((p.y as int) * (p.width as int) == (p.width as int) * (p.y as int))
            by (nonlinear_arith);
        vstd::arithmetic::div_mod::lemma_div_multiples_vanish_fancy(p.y as int, p.x as int,
            p.width as int);
        assert(n / (p.width as int) == p.y as int);
        vstd::arithmetic::div_mod::lemma_fundamental_div_mod(n, p.width as int);
        assert(n % (p.width as int) == p.x as int);
    }
    let pv0 = f0.0.xy();
    let pv1 = f1.0.xy();
    let pv2 = f2.0.xy();
    if inside(&pv0, &pv1, &pv2, &p) && inside(&pv1, &pv2, &pv0, &p) {
        if let Some(bary) = basis(&pv0, &pv1, &pv2, &p) {
            proof {
                lemma_covered_sum(
                    screen_tri(*f0, *f1, *f2, p.width as int, p.height as int),
                    pix_x(p.x as int, p.width as int, p.height as int),
                    pix_y(p.y as int, p.width as int, p.height as int),
                );
            }
            let frag = make_fragment(f0, f1, f2, &p, &bary);
            let cand = fragment_shader.shade(&frag);
            let len = screen_buffer.len();
            let idx = p.y * p.width + p.x;
            write_pixel(screen_buffer, idx, cand);
        }
    }
}

/// Rasterizes one triangle sequentially: projects the three vertices,
/// walks every pixel of the grid in row-major order, and composites each
/// covered pixel into the screen buffer under the depth test.
#[verifier::loop_isolation(false)]
pub fn rasterize<VS: VertexShader, FS: FragmentShader>(
    vertex_shader: &VS,
    fragment_shader: &FS,
    v0: &Vertex,
    v1: &Vertex,
    v2: &Vertex,
    screen_buffer: &mut Vec<Option<PixelBuffer>>,
    width: usize,
    height: usize,
)
    requires
        v0.wf(),
        v1.wf(),
        v2.wf(),
        1 <= width <= MAX_DIM,
        1 <= height <= MAX_DIM,
        old(screen_buffer)@.len() == width * height,
    ensures
        final(screen_buffer)@ == apply_range(
            *fragment_shader,
            vertex_shader.project_spec(*v0),
            vertex_shader.project_spec(*v1),
            vertex_shader.project_spec(*v2),
            width as int,
            height as int,
            old(screen_buffer)@,
            0,
            (width * height) as int,
        ),
{
    let f0 = vertex_shader.project(v0);
    let f1 = vertex_shader.project(v1);
    let f2 = vertex_shader.project(v2);
    let mut y: usize = 0;
    while y < height
        invariant
            y <= height,
            screen_buffer@.len() == width * height,
            screen_buffer@ == apply_range(
                *fragment_shader,
                f0,
                f1,
                f2,
                width as int,
                height as int,
                old(screen_buffer)@,
                0,
                y * width,
            ),
        decreases height - y,
    {
        let mut x: usize = 0;
        while x < width
            invariant
                x <= width,
                y < height,
                screen_buffer@.len() == width * height,
                screen_buffer@ == apply_range(
                    *fragment_shader,
                    f0,
                    f1,
                    f2,
                    width as int,
                    height as int,
                    old(screen_buffer)@,
                    0,
                    y * width + x,
                ),
            decreases width - x,
        {
            proof {
                assert(y * width + x < width * height) by (nonlinear_arith)
                    requires
                        y < height,
                        x < width,
                ;
            }
            let p = PixelPos { x, y, width, height };
            draw_pixel(fragment_shader, &f0, &f1, &f2, screen_buffer, p);
            x = x + 1;
        }
        proof {
            assert(y * width + width == (y + 1) * width) by (nonlinear_arith);
        }
        y = y + 1;
    }
    proof {
        assert(height * width == width * height) by (nonlinear_arith);
    }
}

/// A fresh frame's screen buffer: `width`·`height` empty slots, row-major.
#[verifier::loop_isolation(false)]
pub fn new_buffer(width: usize, height: usize) -> (r: Vec<Option<PixelBuffer>>)
    requires
        1 <= width <= MAX_DIM,
        1 <= height <= MAX_DIM,
    ensures
        r@.len() == width * height,
        forall|i: int| 0 <= i < r@.len() ==> (#[trigger] r@[i]).is_none(),
{
    proof {
        assert((width as int) * (height as int) <= 8192 * 8192) by (nonlinear_arith)
            requires
                width <= 8192,
                height <= 8192,
        ;
    }
    let total = width * height;
    let mut buffer: Vec<Option<PixelBuffer>> = Vec::new();
    let mut n: usize = 0;
    while n < total
        invariant
            n <= total,
            buffer@.len() == n,
            forall|i: int| 0 <= i < buffer@.len() ==> (#[trigger] buffer@[i]).is_none(),
        decreases total - n,
    {
        buffer.push(None);
        n = n + 1;
    }
    buffer
}

/// Resets every slot of the buffer, ready for the next frame.
#[verifier::loop_isolation(false)]
pub fn clear_buffer(screen_buffer: &mut Vec<Option<PixelBuffer>>)
    ensures
        final(screen_buffer)@.len() == old(screen_buffer)@.len(),
        forall|i: int|
            0 <= i < final(screen_buffer)@.len()
                ==> (#[trigger] final(screen_buffer)@[i]).is_none(),
{
    let len = screen_buffer.len();
    let mut i: usize = 0;
    while i < len
        invariant
            i <= len,
            screen_buffer@.len() == len,
            forall|j: int| 0 <= j < i ==> (#[trigger] screen_buffer@[j]).is_none(),
        decreases len - i,
    {
        screen_buffer.set(i, None);
        i = i + 1;
    }
}

// ------------------------------------------------------------------
// The parallel path: per-worker sparse results, merged in order.
// ------------------------------------------------------------------

/// The sparse result a worker produces for the linear pixel range
/// `[s, e)`: the pairs `(index, candidate entry)` of exactly the covered
/// pixels, in increasing index order.
pub open spec fn worker_seq<FS: FragmentShader>(
    fs: FS,
    f0: Fragment,
    f1: Fragment,
    f2: Fragment,
    w: int,
    h: int,
    s: int,
    e: int,
) -> Seq<(usize, PixelBuffer)>
    decreases e - s,
{
    if e <= s {
        Seq::empty()
    } else {
        let n = e - 1;
        let prev = worker_seq(fs, f0, f1, f2, w, h, s, n);
        if pix_covered(f0, f1, f2, w, h, n % w, n / w) {
            prev.push(((n as usize), pix_candidate(fs, f0, f1, f2, w, h, n % w, n / w)))
        } else {
            prev
        }
    }
}

/// Every index a worker emits lies in its range, and every entry is the
/// candidate of a covered pixel.
pub proof fn lemma_worker_seq_bounds<FS: FragmentShader>(
    fs: FS,
    f0: Fragment,
    f1: Fragment,
    f2: Fragment,
    w: int,
    h: int,
    s: int,
    e: int,
)
    requires
        0 <= s,
        e <= usize::MAX,
    ensures
        forall|i: int|
            0 <= i < worker_seq(fs, f0, f1, f2, w, h, s, e).len() ==> s <= (#[trigger] worker_seq(
                fs,
                f0,
                f1,
                f2,
                w,
                h,
                s,
                e,
            )[i]).0 < e,
    decreases e - s,
{
    if e > s {
        lemma_worker_seq_bounds(fs, f0, f1, f2, w, h, s, e - 1);
        let ws_prev = worker_seq(fs, f0, f1, f2, w, h, s, e - 1);
        let ws = worker_seq(fs, f0, f1, f2, w, h, s, e);
        assert forall|i: int| 0 <= i < ws.len() implies s <= (#[trigger] ws[i]).0 < e by {
            if i < ws_prev.len() {
                assert(ws[i] == ws_prev[i]);
                assert(s <= ws_prev[i].0 < e - 1);
            } else {
                assert(ws[i].0 as int == e - 1);
            }
        }
    }
}

/// Applies a sparse result list to the buffer, in list order, each entry
/// through the depth test.
pub open spec fn merge_seq(
    buf: Seq<Option<PixelBuffer>>,
    rs: Seq<(usize, PixelBuffer)>,
) -> Seq<Option<PixelBuffer>>
    decreases rs.len(),
{
    if rs.len() == 0 {
        buf
    } else {
        let prev = merge_seq(buf, rs.drop_last());
        prev.update(rs.last().0 as int, depth_write(prev[rs.last().0 as int], rs.last().1))
    }
}

/// Merging a worker's sparse result is the same as drawing its pixel
/// range directly: the parallel path commutes with the sequential one,
/// batch by batch.
pub proof fn lemma_merge_worker<FS: FragmentShader>(
    fs: FS,
    f0: Fragment,
    f1: Fragment,
    f2: Fragment,
    w: int,
    h: int,
    buf: Seq<Option<PixelBuffer>>,
    s: int,
    e: int,
)
    requires
        0 <= s,
        e <= buf.len(),
        e <= usize::MAX,
    ensures
        merge_seq(buf, worker_seq(fs, f0, f1, f2, w, h, s, e)) == apply_range(
            fs,
            f0,
            f1,
            f2,
            w,
            h,
            buf,
            s,
            e,
        ),
    decreases e - s,
{
    if e <= s {
        assert(worker_seq(fs, f0, f1, f2, w, h, s, e) =~= Seq::<(usize, PixelBuffer)>::empty());
    } else {
        lemma_merge_worker(fs, f0, f1, f2, w, h, buf, s, e - 1);
        let n = e - 1;
        let ws_prev = worker_seq(fs, f0, f1, f2, w, h, s, n);
        let merged_prev = merge_seq(buf, ws_prev);
        if pix_covered(f0, f1, f2, w, h, n % w, n / w) {
            let pair = ((n as usize), pix_candidate(fs, f0, f1, f2, w, h, n % w, n / w));
            let ws = ws_prev.push(pair);
            assert(pair.0 as int == n);
            assert(worker_seq(fs, f0, f1, f2, w, h, s, e) == ws);
            assert(ws.drop_last() =~= ws_prev);
            assert(ws.last() == pair);
            assert(merge_seq(buf, ws) == merged_prev.update(
                n,
                depth_write(merged_prev[n], pair.1),
            ));
        } else {
            assert(worker_seq(fs, f0, f1, f2, w, h, s, e) == ws_prev);
        }
    }
}

/// Drawing `[s, m)` and then `[m, e)` is drawing `[s, e)`.
pub proof fn lemma_apply_range_compose<FS: FragmentShader>(
    fs: FS,
    f0: Fragment,
    f1: Fragment,
    f2: Fragment,
    w: int,
    h: int,
    buf: Seq<Option<PixelBuffer>>,
    s: int,
    m: int,
    e: int,
)
    requires
        0 <= s <= m <= e,
    ensures
        apply_range(fs, f0, f1, f2, w, h, apply_range(fs, f0, f1, f2, w, h, buf, s, m), m, e)
            == apply_range(fs, f0, f1, f2, w, h, buf, s, e),
    decreases e - m,
{
    if e > m {
        lemma_apply_range_compose(fs, f0, f1, f2, w, h, buf, s, m, e - 1);
    }
}

/// Runs the coverage, interpolation and shading steps over the linear
/// pixel range `[start, end)` and collects the sparse results, in
/// increasing index order, without touching any buffer.
#[verifier::loop_isolation(false)]
pub fn fragment_worker<FS: FragmentShader>(
    fragment_shader: &FS,
    p0_frag: &Fragment,
    p1_frag: &Fragment,
    p2_frag: &Fragment,
    width: usize,
    height: usize,
    start: usize,
    end: usize,
) -> (r: Vec<(usize, PixelBuffer)>)
    requires
        p0_frag.wf(),
        p1_frag.wf(),
        p2_frag.wf(),
        1 <= width <= MAX_DIM,
        1 <= height <= MAX_DIM,
        start <= end,
        end <= width * height,
    ensures
        r@ == worker_seq(
            *fragment_shader,
            *p0_frag,
            *p1_frag,
            *p2_frag,
            width as int,
            height as int,
            start as int,
            end as int,
        ),
{
    let p0_frag_vec = p0_frag.0.xy();
    let p1_frag_vec = p1_frag.0.xy();
    let p2_frag_vec = p2_frag.0.xy();
    let mut screen_buffer: Vec<(usize, PixelBuffer)> = Vec::new();
    let mut n = start;
    while n < end
        invariant
            start <= n <= end,
            screen_buffer@ == worker_seq(
                *fragment_shader,
                *p0_frag,
                *p1_frag,
                *p2_frag,
                width as int,
                height as int,
                start as int,
                n as int,
            ),
        decreases end - n,
    {
        let x = n % width;
        let y = n / width;
        proof {
            assert((n as int) < (width as int) * (height as int));
            vstd::arithmetic::div_mod::lemma_multiply_divide_lt(n as int, width as int,
                height as int);
            vstd::arithmetic::div_mod::lemma_mod_division_less_than_divisor(n as int,
                width as int);
        }
        let p = PixelPos { x, y, width, height };
        if inside(&p0_frag_vec, &p1_frag_vec, &p2_frag_vec, &p) && inside(
            &p1_frag_vec,
            &p2_frag_vec,
            &p0_frag_vec,
            &p,
        ) {
            if let Some(bary) = basis(&p0_frag_vec, &p1_frag_vec, &p2_frag_vec, &p) {
                proof {
                    lemma_covered_sum(
                        screen_tri(*p0_frag, *p1_frag, *p2_frag, width as int, height as int),
                        pix_x(x as int, width as int, height as int),
                        pix_y(y as int, width as int, height as int),
                    );
                }
                let fragment = make_fragment(p0_frag, p1_frag, p2_frag, &p, &bary);
                let pb = fragment_shader.shade(&fragment);
                screen_buffer.push((n, pb));
            }
        }
        n = n + 1;
    }
    screen_buffer
}

/// Merges one worker's sparse results into the screen buffer, in order,
/// applying the same depth rule as the sequential path.
#[verifier::loop_isolation(false)]
pub fn merge_results(
    screen_buffer: &mut Vec<Option<PixelBuffer>>,
    results: &Vec<(usize, PixelBuffer)>,
)
    requires
        forall|i: int|
            0 <= i < results@.len() ==> (#[trigger] results@[i]).0 < old(screen_buffer)@.len(),
    ensures
        final(screen_buffer)@ == merge_seq(old(screen_buffer)@, results@),
        final(screen_buffer)@.len() == old(screen_buffer)@.len(),
{
    let mut i: usize = 0;
    while i < results.len()
        invariant
            i <= results@.len(),
            screen_buffer@.len() == old(screen_buffer)@.len(),
            screen_buffer@ == merge_seq(old(screen_buffer)@, results@.take(i as int)),
        decreases results@.len() - i,
    {
        let (n, pb) = results[i];
        write_pixel(screen_buffer, n, pb);
        proof {
            assert(results@.take(i + 1).drop_last() =~= results@.take(i as int));
            assert(results@.take(i + 1).last() == results@[i as int]);
        }
        i = i + 1;
    }
    proof {
        assert(results@.take(results@.len() as int) =~= results@);
    }
}

/// Rasterizes one triangle through the partitioned path: the pixel range
/// is split into `thr` contiguous batches of `ceil(width·height / thr)`
/// pixels, each batch's sparse results are computed independently (each
/// batch re-projects the vertices for itself), and the results are merged
/// in batch order.  The final buffer equals the sequential path's, pixel
/// for pixel.
#[verifier::loop_isolation(false)]
pub fn rasterize_conc<VS: VertexShader, FS: FragmentShader>(
    vertex_shader: &VS,
    fragment_shader: &FS,
    v0: &Vertex,
    v1: &Vertex,
    v2: &Vertex,
    screen_buffer: &mut Vec<Option<PixelBuffer>>,
    width: usize,
    height: usize,
    thr: usize,
)
    requires
        v0.wf(),
        v1.wf(),
        v2.wf(),
        1 <= width <= MAX_DIM,
        1 <= height <= MAX_DIM,
        old(screen_buffer)@.len() == width * height,
        1 <= thr <= width * height,
    ensures
        final(screen_buffer)@ == apply_range(
            *fragment_shader,
            vertex_shader.project_spec(*v0),
            vertex_shader.project_spec(*v1),
            vertex_shader.project_spec(*v2),
            width as int,
            height as int,
            old(screen_buffer)@,
            0,
            (width * height) as int,
        ),
{
    proof {
        assert((width as int) * (height as int) <= 8192 * 8192) by (nonlinear_arith)
            requires
                width <= 8192,
                height <= 8192,
        ;
    }
    let total = width * height;
    let batch = (total + thr - 1) / thr;
    proof {
        vstd::arithmetic::div_mod::lemma_fundamental_div_mod(total as int + thr - 1, thr as int);
        assert((thr as int) * (batch as int) >= total as int);
        assert((batch as int) * (thr as int) >= total as int) by (nonlinear_arith)
            requires
                (thr as int) * (batch as int) >= total as int,
        ;
        assert(total as int + thr - 1 < (thr as int) * ((total as int) + 1)) by (nonlinear_arith)
            requires
                1 <= thr,
                1 <= total,
        ;
        vstd::arithmetic::div_mod::lemma_multiply_divide_lt(total as int + thr - 1, thr as int,
            total as int + 1);
        assert(batch <= total);
    }
    let mut i: usize = 0;
    while i < thr
        invariant
            i <= thr,
            screen_buffer@.len() == width * height,
            screen_buffer@ == apply_range(
                *fragment_shader,
                vertex_shader.project_spec(*v0),
                vertex_shader.project_spec(*v1),
                vertex_shader.project_spec(*v2),
                width as int,
                height as int,
                old(screen_buffer)@,
                0,
                vstd::math::min((i as int) * (batch as int), total as int),
            ),
        decreases thr - i,
    {
        proof {
            assert(0 <= (i as int) * (batch as int) && (i as int) * (batch as int) <= ((i as int)
                + 1) * (batch as int) <= 0x4000_0000_0000_0000) by (nonlinear_arith)
                requires
                    0 <= i < thr,
                    thr <= 0x4000000,
                    0 <= batch <= 0x4000000,
            ;
        }
        let s64 = (i as u64) * (batch as u64);
        let e64 = (i as u64 + 1) * (batch as u64);
        let s = if s64 > total as u64 {
            total
        } else {
            s64 as usize
        };
        let e = if e64 > total as u64 {
            total
        } else {
            e64 as usize
        };
        let p0_frag = vertex_shader.project(v0);
        let p1_frag = vertex_shader.project(v1);
        let p2_frag = vertex_shader.project(v2);
        let rs = fragment_worker(fragment_shader, &p0_frag, &p1_frag, &p2_frag, width, height, s,
            e);
        proof {
            lemma_worker_seq_bounds(
                *fragment_shader,
                p0_frag,
                p1_frag,
                p2_frag,
                width as int,
                height as int,
                s as int,
                e as int,
            );
        }
        merge_results(screen_buffer, &rs);
        proof {
            let fs = *fragment_shader;
            let f0 = vertex_shader.project_spec(*v0);
            let f1 = vertex_shader.project_spec(*v1);
            let f2 = vertex_shader.project_spec(*v2);
            let w = width as int;
            let h = height as int;
            let prev = apply_range(fs, f0, f1, f2, w, h, old(screen_buffer)@, 0, s as int);
            lemma_apply_range_len(fs, f0, f1, f2, w, h, old(screen_buffer)@, 0, s as int);
            lemma_merge_worker(fs, f0, f1, f2, w, h, prev, s as int, e as int);
            lemma_apply_range_compose(fs, f0, f1, f2, w, h, old(screen_buffer)@, 0, s as int,
                e as int);
        }
        i = i + 1;
    }
}

} // verus!
