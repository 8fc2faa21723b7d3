use vstd::prelude::*;

use crate::arith::{lemma_div_between, lemma_mul_magnitude};
use crate::rasterizer::{
    abs, col_of, in_buffer, lemma_index_pixel, lemma_pixel_index, row_of, Rasterizer,
};

verus! {

/// The fixed-point value that stands for texture coordinate 1.0.
pub const TEX_ONE: i64 = 65536;

/// A triangle corner after projection: pixel position, depth (larger is
/// nearer), and texture coordinates in units of `1 / TEX_ONE`.
#[derive(Debug, Clone, Copy, PartialEq, Eq, Structural)]
pub struct ScreenVertex {
    pub x: i32,
    pub y: i32,
    pub z: i32,
    pub u: i32,
    pub v: i32,
}

impl ScreenVertex {
    pub fn new(x: i32, y: i32, z: i32, u: i32, v: i32) -> (r: ScreenVertex)
        ensures
            r == (ScreenVertex { x, y, z, u, v }),
    {
        ScreenVertex { x, y, z, u, v }
    }
}

/// The cross product of `(C.x - A.x, B.x - A.x, A.x - P.x)` and
/// `(C.y - A.y, B.y - A.y, A.y - P.y)`.
pub open spec fn edge_cross(a: ScreenVertex, b: ScreenVertex, c: ScreenVertex, px: int, py: int) -> (int, int, int) {
    let (s0x, s0y, s0z) = (c.x - a.x, b.x - a.x, a.x - px);
    let (s1x, s1y, s1z) = (c.y - a.y, b.y - a.y, a.y - py);
    (s0y * s1z - s0z * s1y, s0z * s1x - s0x * s1z, s0x * s1y - s0y * s1x)
}

/// The barycentric weights of pixel `(px, py)` as `(n0, n1, n2, d)`: the
/// weight of each corner is its numerator over the common denominator `d`,
/// signs chosen so that `d >= 0`. The numerators always sum to `d`, which is
/// zero exactly when the triangle is degenerate.
pub open spec fn barycentric(a: ScreenVertex, b: ScreenVertex, c: ScreenVertex, px: int, py: int) -> (int, int, int, int) {
    let (ux, uy, uz) = edge_cross(a, b, c, px, py);
    if uz < 0 {
        (-(uz - ux - uy), -uy, -ux, -uz)
    } else {
        (uz - ux - uy, uy, ux, uz)
    }
}

/// Whether the three corners are collinear: the triangle has no area.
pub open spec fn is_degenerate(a: ScreenVertex, b: ScreenVertex, c: ScreenVertex) -> bool {
    edge_cross(a, b, c, 0, 0).2 == 0
}

/// Whether pixel center `(px, py)` lies inside the triangle or on its edge:
/// the triangle is not degenerate and no weight is negative.
pub open spec fn covers(a: ScreenVertex, b: ScreenVertex, c: ScreenVertex, px: int, py: int) -> bool {
    let (n0, n1, n2, d) = barycentric(a, b, c, px, py);
    d != 0 && n0 >= 0 && n1 >= 0 && n2 >= 0
}

/// `n0·q0 + n1·q1 + n2·q2` over `d`, rounded down.
pub open spec fn interpolate(w: (int, int, int, int), q0: int, q1: int, q2: int) -> int {
    (w.0 * q0 + w.1 * q1 + w.2 * q2) / w.3
}

/// The interpolated depth at pixel `(px, py)`.
pub open spec fn depth_at(a: ScreenVertex, b: ScreenVertex, c: ScreenVertex, px: int, py: int) -> int {
    interpolate(barycentric(a, b, c, px, py), a.z as int, b.z as int, c.z as int)
}

pub open spec fn clamp(x: int, lo: int, hi: int) -> int {
    if x < lo {
        lo
    } else if x > hi {
        hi
    } else {
        x
    }
}

/// The texel that texture coordinates `(u, v)` address in a `tw` by `th`
/// texture: column `u·tw` and row `(1 - v)·th`, rounded down and clamped to
/// the texture, so row 0 is `v = 1`.
pub open spec fn texel_index(u: int, v: int, tw: int, th: int) -> int {
    let col = clamp(u * tw / TEX_ONE as int, 0, tw - 1);
    let row = clamp((TEX_ONE - v) * th / TEX_ONE as int, 0, th - 1);
    row * tw + col
}

/// The texel sampled under weights `w`: the texture coordinates of the
/// corners are interpolated and the texel they address is read.
pub open spec fn sample_weights(
    tex: Seq<u32>,
    tw: int,
    th: int,
    w: (int, int, int, int),
    a: ScreenVertex,
    b: ScreenVertex,
    c: ScreenVertex,
) -> u32 {
    tex[texel_index(
        interpolate(w, a.u as int, b.u as int, c.u as int),
        interpolate(w, a.v as int, b.v as int, c.v as int),
        tw,
        th,
    )]
}

/// The weighted sum of values between `lo` and `hi`, under nonnegative
/// weights, lies between `lo` and `hi` times the total weight.
proof fn lemma_convex(n0: int, n1: int, n2: int, q0: int, q1: int, q2: int, lo: int, hi: int)
    requires
        n0 >= 0,
        n1 >= 0,
        n2 >= 0,
        lo <= q0 <= hi,
        lo <= q1 <= hi,
        lo <= q2 <= hi,
    ensures
        (n0 + n1 + n2) * lo <= n0 * q0 + n1 * q1 + n2 * q2 <= (n0 + n1 + n2) * hi,
{
    assert(n0 * lo <= n0 * q0 <= n0 * hi) by (nonlinear_arith)
        requires
            n0 >= 0,
            lo <= q0 <= hi,
    ;
    assert(n1 * lo <= n1 * q1 <= n1 * hi) by (nonlinear_arith)
        requires
            n1 >= 0,
            lo <= q1 <= hi,
    ;
    assert(n2 * lo <= n2 * q2 <= n2 * hi) by (nonlinear_arith)
        requires
            n2 >= 0,
            lo <= q2 <= hi,
    ;
    assert((n0 + n1 + n2) * lo == n0 * lo + n1 * lo + n2 * lo) by (nonlinear_arith);
    assert((n0 + n1 + n2) * hi == n0 * hi + n1 * hi + n2 * hi) by (nonlinear_arith);
}

pub open spec fn min3(p: int, q: int, r: int) -> int {
    if p <= q && p <= r {
        p
    } else if q <= r {
        q
    } else {
        r
    }
}

pub open spec fn max3(p: int, q: int, r: int) -> int {
    if p >= q && p >= r {
        p
    } else if q >= r {
        q
    } else {
        r
    }
}

/// An interpolated value lies between the least and the greatest corner value.
pub proof fn lemma_interpolate_between(w: (int, int, int, int), q0: int, q1: int, q2: int)
    requires
        w.0 >= 0,
        w.1 >= 0,
        w.2 >= 0,
        w.3 == w.0 + w.1 + w.2,
        w.3 > 0,
    ensures
        min3(q0, q1, q2) <= interpolate(w, q0, q1, q2) <= max3(q0, q1, q2),
{
    lemma_convex(w.0, w.1, w.2, q0, q1, q2, min3(q0, q1, q2), max3(q0, q1, q2));
    lemma_div_between(w.0 * q0 + w.1 * q1 + w.2 * q2, w.3, min3(q0, q1, q2), max3(q0, q1, q2));
}

/// The corner-relative form of the cross product's components.
proof fn lemma_cross_relative(a: ScreenVertex, b: ScreenVertex, c: ScreenVertex, px: int, py: int)
    ensures
        ({
            let (xb, xc, yb, yc) = (b.x - a.x, c.x - a.x, b.y - a.y, c.y - a.y);
            let (p, q) = (px - a.x, py - a.y);
            let (ux, uy, uz) = edge_cross(a, b, c, px, py);
            &&& ux == p * yb - xb * q
            &&& uy == xc * q - p * yc
            &&& uz == xc * yb - xb * yc
        }),
{
    let (xb, xc, yb, yc) = (b.x - a.x, c.x - a.x, b.y - a.y, c.y - a.y);
    let (p, q) = (px - a.x, py - a.y);
    assert(xb * (a.y - py) == -(xb * q)) by (nonlinear_arith)
        requires
            a.y - py == -q,
    ;
    assert((a.x - px) * yb == -(p * yb)) by (nonlinear_arith)
        requires
            a.x - px == -p,
    ;
    assert((a.x - px) * yc == -(p * yc)) by (nonlinear_arith)
        requires
            a.x - px == -p,
    ;
    assert(xc * (a.y - py) == -(xc * q)) by (nonlinear_arith)
        requires
            a.y - py == -q,
    ;
}

/// The identity behind barycentric interpolation, in corner-relative terms.
proof fn lemma_cross_identity(xb: int, xc: int, yb: int, yc: int, p: int, q: int)
    ensures
        (xc * yb - xb * yc) * p == (p * yb - xb * q) * xc + (xc * q - p * yc) * xb,
        (xc * yb - xb * yc) * q == (p * yb - xb * q) * yc + (xc * q - p * yc) * yb,
{
    assert((xc * yb - xb * yc) * p == (p * yb - xb * q) * xc + (xc * q - p * yc) * xb)
        by (nonlinear_arith);
    assert((xc * yb - xb * yc) * q == (p * yb - xb * q) * yc + (xc * q - p * yc) * yb)
        by (nonlinear_arith);
}

/// From the corner-relative identity to the weighted combination of corners.
proof fn lemma_combination_axis(ux: int, uy: int, uz: int, ax: int, bx: int, cx: int, px: int)
    requires
        uz * (px - ax) == ux * (cx - ax) + uy * (bx - ax),
    ensures
        uz * px == (uz - ux - uy) * ax + uy * bx + ux * cx,
        (-uz) * px == (-(uz - ux - uy)) * ax + (-uy) * bx + (-ux) * cx,
{
    vstd::arithmetic::mul::lemma_mul_is_distributive_sub(uz, px, ax);
    vstd::arithmetic::mul::lemma_mul_is_distributive_sub(ux, cx, ax);
    vstd::arithmetic::mul::lemma_mul_is_distributive_sub(uy, bx, ax);
    vstd::arithmetic::mul::lemma_mul_is_distributive_sub_other_way(ax, uz - ux, uy);
    vstd::arithmetic::mul::lemma_mul_is_distributive_sub_other_way(ax, uz, ux);
    assert((-uz) * px == (-(uz - ux - uy)) * ax + (-uy) * bx + (-ux) * cx) by (nonlinear_arith)
        requires
            uz * px == (uz - ux - uy) * ax + uy * bx + ux * cx,
    ;
}

/// The pixel is the weighted combination of the corners:
/// `d·P == n0·A + n1·B + n2·C`, and the numerators sum to `d`.
pub proof fn lemma_barycentric_combination(a: ScreenVertex, b: ScreenVertex, c: ScreenVertex, px: int, py: int)
    ensures
        ({
            let (n0, n1, n2, d) = barycentric(a, b, c, px, py);
            &&& n0 + n1 + n2 == d
            &&& d * px == n0 * a.x + n1 * b.x + n2 * c.x
            &&& d * py == n0 * a.y + n1 * b.y + n2 * c.y
            &&& d == abs(edge_cross(a, b, c, 0, 0).2)
        }),
{
    let (xb, xc, yb, yc) = (b.x - a.x, c.x - a.x, b.y - a.y, c.y - a.y);
    let (p, q) = (px - a.x, py - a.y);
    lemma_cross_relative(a, b, c, px, py);
    lemma_cross_relative(a, b, c, 0, 0);
    lemma_cross_identity(xb, xc, yb, yc, p, q);
    let (ux, uy, uz) = edge_cross(a, b, c, px, py);
    lemma_combination_axis(ux, uy, uz, a.x as int, b.x as int, c.x as int, px);
    lemma_combination_axis(ux, uy, uz, a.y as int, b.y as int, c.y as int, py);
}

/// A covered pixel lies in the triangle's bounding box.
pub proof fn lemma_covered_in_box(a: ScreenVertex, b: ScreenVertex, c: ScreenVertex, px: int, py: int)
    requires
        covers(a, b, c, px, py),
    ensures
        min3(a.x as int, b.x as int, c.x as int) <= px <= max3(a.x as int, b.x as int, c.x as int),
        min3(a.y as int, b.y as int, c.y as int) <= py <= max3(a.y as int, b.y as int, c.y as int),
{
    lemma_barycentric_combination(a, b, c, px, py);
    let (n0, n1, n2, d) = barycentric(a, b, c, px, py);
    lemma_interpolate_between((n0, n1, n2, d), a.x as int, b.x as int, c.x as int);
    lemma_interpolate_between((n0, n1, n2, d), a.y as int, b.y as int, c.y as int);
    crate::arith::lemma_div_exact(px, d);
    crate::arith::lemma_div_exact(py, d);
}


/// Whether a fill of triangle `abc` writes index `i` of a row-major frame of
/// the given width and depths: the pixel is covered and its interpolated
/// depth is strictly greater than the stored one.
pub open spec fn hits(depths: Seq<i32>, width: int, a: ScreenVertex, b: ScreenVertex, c: ScreenVertex, i: int) -> bool {
    let (px, py) = (col_of(i, width), row_of(i, width));
    covers(a, b, c, px, py) && depth_at(a, b, c, px, py) > depths[i]
}

/// The color written under weights `w`: the sampled texel when a texture is
/// bound, `color` otherwise.
pub open spec fn texel_color(
    tex: Option<Seq<u32>>,
    tw: int,
    th: int,
    w: (int, int, int, int),
    a: ScreenVertex,
    b: ScreenVertex,
    c: ScreenVertex,
    color: u32,
) -> u32 {
    match tex {
        Some(t) => sample_weights(t, tw, th, w, a, b, c),
        None => color,
    }
}

/// The depths after a fill of triangle `abc`.
pub open spec fn filled_depths(depths: Seq<i32>, width: int, a: ScreenVertex, b: ScreenVertex, c: ScreenVertex) -> Seq<i32> {
    Seq::new(
        depths.len(),
        |i: int|
            if hits(depths, width, a, b, c, i) {
                depth_at(a, b, c, col_of(i, width), row_of(i, width)) as i32
            } else {
                depths[i]
            },
    )
}

/// The colors after a fill of triangle `abc` with fallback `color`.
pub open spec fn filled_colors(
    colors: Seq<u32>,
    depths: Seq<i32>,
    width: int,
    tex: Option<Seq<u32>>,
    tw: int,
    th: int,
    a: ScreenVertex,
    b: ScreenVertex,
    c: ScreenVertex,
    color: u32,
) -> Seq<u32> {
    Seq::new(
        colors.len(),
        |i: int|
            if hits(depths, width, a, b, c, i) {
                let (px, py) = (col_of(i, width), row_of(i, width));
                texel_color(tex, tw, th, barycentric(a, b, c, px, py), a, b, c, color)
            } else {
                colors[i]
            },
    )
}

/// Bound on the magnitude of a difference of two `i32` values.
pub const DIFF_BOUND: i128 = 0x1_0000_0000;

/// Bound on the magnitude of a barycentric numerator or denominator.
pub const WEIGHT_BOUND: i128 = 0x8_0000_0000_0000_0000;

/// The weights as integers, with the bounds that keep later sums in range.
pub open spec fn weights_ok(w: (i128, i128, i128, i128)) -> bool {
    &&& 0 <= w.0 <= WEIGHT_BOUND
    &&& 0 <= w.1 <= WEIGHT_BOUND
    &&& 0 <= w.2 <= WEIGHT_BOUND
    &&& w.3 == w.0 + w.1 + w.2
    &&& w.3 > 0
}

pub open spec fn weights_int(w: (i128, i128, i128, i128)) -> (int, int, int, int) {
    (w.0 as int, w.1 as int, w.2 as int, w.3 as int)
}

/// Computes `barycentric` for a pixel with `i32`-sized coordinates.
fn barycentric_exec(a: &ScreenVertex, b: &ScreenVertex, c: &ScreenVertex, px: i64, py: i64) -> (r: (
    i128,
    i128,
    i128,
    i128,
))
    requires
        i32::MIN <= px <= i32::MAX,
        i32::MIN <= py <= i32::MAX,
    ensures
        weights_int(r) == barycentric(*a, *b, *c, px as int, py as int),
        -4 * WEIGHT_BOUND <= r.0 <= 4 * WEIGHT_BOUND,
        -WEIGHT_BOUND <= r.1 <= WEIGHT_BOUND,
        -WEIGHT_BOUND <= r.2 <= WEIGHT_BOUND,
        0 <= r.3 <= WEIGHT_BOUND,
{
    let s0x = c.x as i128 - a.x as i128;
    let s0y = b.x as i128 - a.x as i128;
    let s0z = a.x as i128 - px as i128;
    let s1x = c.y as i128 - a.y as i128;
    let s1y = b.y as i128 - a.y as i128;
    let s1z = a.y as i128 - py as i128;
    proof {
        let m = DIFF_BOUND as int;
        lemma_mul_magnitude(s0y as int, s1z as int, m, m);
        lemma_mul_magnitude(s0z as int, s1y as int, m, m);
        lemma_mul_magnitude(s0z as int, s1x as int, m, m);
        lemma_mul_magnitude(s0x as int, s1z as int, m, m);
        lemma_mul_magnitude(s0x as int, s1y as int, m, m);
        lemma_mul_magnitude(s0y as int, s1x as int, m, m);
    }
    let ux = s0y * s1z - s0z * s1y;
    let uy = s0z * s1x - s0x * s1z;
    let uz = s0x * s1y - s0y * s1x;
    if uz < 0 {
        (-(uz - ux - uy), -uy, -ux, -uz)
    } else {
        (uz - ux - uy, uy, ux, uz)
    }
}

/// `x / d` rounded down.
fn floor_div(x: i128, d: i128) -> (r: i128)
    requires
        d > 0,
        x > i128::MIN,
    ensures
        r == x / d,
{
    if x >= 0 {
        x / d
    } else {
        let y = -x - 1;
        let q = y / d;
        proof {
            crate::arith::lemma_div_bracket(y as int, d as int);
            let r = x - (-q - 1) * d;
            assert(0 <= r < d) by (nonlinear_arith)
                requires
                    d * q <= y < d * (q + 1),
                    y == -x - 1,
                    r == x - (-q - 1) * d,
            ;
            vstd::arithmetic::div_mod::lemma_fundamental_div_mod_converse(
                x as int,
                d as int,
                -q - 1,
                r,
            );
        }
        -q - 1
    }
}

/// Computes `interpolate` for weights within bounds and `i32`-sized values.
fn interpolate_exec(w: (i128, i128, i128, i128), q0: i32, q1: i32, q2: i32) -> (r: i128)
    requires
        weights_ok(w),
    ensures
        r == interpolate(weights_int(w), q0 as int, q1 as int, q2 as int),
        min3(q0 as int, q1 as int, q2 as int) <= r <= max3(q0 as int, q1 as int, q2 as int),
{
    proof {
        let m = 0x8000_0000int;
        lemma_mul_magnitude(w.0 as int, q0 as int, WEIGHT_BOUND as int, m);
        lemma_mul_magnitude(w.1 as int, q1 as int, WEIGHT_BOUND as int, m);
        lemma_mul_magnitude(w.2 as int, q2 as int, WEIGHT_BOUND as int, m);
        lemma_interpolate_between(weights_int(w), q0 as int, q1 as int, q2 as int);
    }
    let s = w.0 * q0 as i128 + w.1 * q1 as i128 + w.2 * q2 as i128;
    floor_div(s, w.3)
}

/// `clamp(x / TEX_ONE, 0, n - 1)` for an `x` of moderate size.
fn texel_coord(x: i128, n: i128) -> (r: i128)
    requires
        n > 0,
    ensures
        r == clamp(x as int / TEX_ONE as int, 0, n - 1),
        0 <= r < n,
{
    if x < 0 {
        proof {
            crate::arith::lemma_div_bracket(x as int, TEX_ONE as int);
        }
        0
    } else {
        let q = x / (TEX_ONE as i128);
        if q > n - 1 {
            n - 1
        } else {
            q
        }
    }
}

impl Rasterizer {
    /// The color a fill writes at a pixel with weights `w`: the sampled
    /// texel when a texture is bound, `color` otherwise.
    pub open spec fn surface_color(
        &self,
        w: (int, int, int, int),
        a: ScreenVertex,
        b: ScreenVertex,
        c: ScreenVertex,
        color: u32,
    ) -> u32 {
        texel_color(
            self.texture_view(),
            self.texture_width as int,
            self.texture_height as int,
            w,
            a,
            b,
            c,
            color,
        )
    }

    /// Whether a fill of triangle `abc` writes buffer index `i`: the pixel
    /// is covered and its depth beats the stored one.
    pub open spec fn fill_hits(&self, a: ScreenVertex, b: ScreenVertex, c: ScreenVertex, i: int) -> bool {
        hits(self.zbuffer@, self.width as int, a, b, c, i)
    }

    /// The color a fill of triangle `abc` writes at buffer index `i` when
    /// it writes there.
    pub open spec fn fill_color(
        &self,
        a: ScreenVertex,
        b: ScreenVertex,
        c: ScreenVertex,
        color: u32,
        i: int,
    ) -> u32 {
        let (px, py) = (col_of(i, self.width as int), row_of(i, self.width as int));
        self.surface_color(barycentric(a, b, c, px, py), a, b, c, color)
    }

    fn surface_color_exec(
        &self,
        w: (i128, i128, i128, i128),
        a: &ScreenVertex,
        b: &ScreenVertex,
        c: &ScreenVertex,
        color: u32,
    ) -> (r: u32)
        requires
            self.wf(),
            weights_ok(w),
        ensures
            r == self.surface_color(weights_int(w), *a, *b, *c, color),
    {
        match &self.texture {
            Some(t) => {
                let n = t.len();
                let tw = self.texture_width;
                let th = self.texture_height;
                let u = interpolate_exec(w, a.u, b.u, c.u);
                let v = interpolate_exec(w, a.v, b.v, c.v);
                proof {
                    lemma_mul_magnitude(u as int, tw as int, 0x8000_0000, 0x1_0000_0000_0000_0000);
                    lemma_mul_magnitude(
                        TEX_ONE - v,
                        th as int,
                        0x1_0000_0000,
                        0x1_0000_0000_0000_0000,
                    );
                }
                let col = texel_coord(u * tw as i128, tw as i128);
                let row = texel_coord((TEX_ONE as i128 - v) * th as i128, th as i128);
                proof {
                    lemma_pixel_index(col as int, row as int, tw as int, th as int);
                }
                t[row as usize * tw + col as usize]
            },
            None => color,
        }
    }
}


fn min3_exec(p: i32, q: i32, r: i32) -> (m: i32)
    ensures
        m == min3(p as int, q as int, r as int),
{
    if p <= q && p <= r {
        p
    } else if q <= r {
        q
    } else {
        r
    }
}

fn max3_exec(p: i32, q: i32, r: i32) -> (m: i32)
    ensures
        m == max3(p as int, q as int, r as int),
{
    if p >= q && p >= r {
        p
    } else if q >= r {
        q
    } else {
        r
    }
}

/// Pixels before `(x, y)` in row-major order.
pub open spec fn scanned_before(px: int, py: int, x: int, y: int) -> bool {
    py < y || (py == y && px < x)
}

/// What a fill of triangle `abc` with fallback `color` does to `pre`, giving
/// `post`: pixels that `fill_hits` names take the interpolated depth and the
/// surface color; every other pixel keeps its depth and color.
pub open spec fn fill_result(
    pre: Rasterizer,
    post: Rasterizer,
    a: ScreenVertex,
    b: ScreenVertex,
    c: ScreenVertex,
    color: u32,
) -> bool {
    &&& post.buffer@ == filled_colors(
        pre.buffer@,
        pre.zbuffer@,
        pre.width as int,
        pre.texture_view(),
        pre.texture_width as int,
        pre.texture_height as int,
        a,
        b,
        c,
        color,
    )
    &&& post.zbuffer@ == filled_depths(pre.zbuffer@, pre.width as int, a, b, c)
}

impl Rasterizer {
    /// A pixel that a fill writes lies in the triangle's bounding box,
    /// clamped to the buffer.
    proof fn lemma_hit_in_box(&self, a: ScreenVertex, b: ScreenVertex, c: ScreenVertex, i: int)
        requires
            self.wf(),
            0 <= i < self.zbuffer@.len(),
            self.fill_hits(a, b, c, i),
        ensures
            ({
                let (px, py) = (col_of(i, self.width as int), row_of(i, self.width as int));
                &&& 0 <= px < self.width
                &&& 0 <= py < self.height
                &&& min3(a.x as int, b.x as int, c.x as int) <= px <= max3(
                    a.x as int,
                    b.x as int,
                    c.x as int,
                )
                &&& min3(a.y as int, b.y as int, c.y as int) <= py <= max3(
                    a.y as int,
                    b.y as int,
                    c.y as int,
                )
            }),
    {
        lemma_index_pixel(i, self.width as int, self.height as int);
        lemma_covered_in_box(
            a,
            b,
            c,
            col_of(i, self.width as int),
            row_of(i, self.width as int),
        );
    }

    /// Fills triangle `abc` with a depth test. Each buffer pixel whose
    /// center `covers` names and whose interpolated depth is strictly greater
    /// than the stored depth takes that depth and the surface color: the
    /// sampled texel when a texture is bound, `color` otherwise. All other
    /// pixels are left as they were; a degenerate triangle writes nothing.
    pub fn fill_triangle(&mut self, a: ScreenVertex, b: ScreenVertex, c: ScreenVertex, color: u32)
        requires
            old(self).wf(),
        ensures
            final(self).wf(),
            final(self).width == old(self).width,
            final(self).height == old(self).height,
            final(self).texture == old(self).texture,
            final(self).texture_width == old(self).texture_width,
            final(self).texture_height == old(self).texture_height,
            fill_result(*old(self), *final(self), a, b, c, color),
    {
        let width = self.width;
        let height = self.height;
        let ghost w = width as int;
        let ghost pre = *self;
        if width == 0 || height == 0 {
            assert(width * height == 0) by (nonlinear_arith)
                requires
                    width == 0 || height == 0,
            ;
            assert(self.zbuffer@ =~= filled_depths(pre.zbuffer@, w, a, b, c));
            assert(self.buffer@ =~= filled_colors(
                pre.buffer@,
                pre.zbuffer@,
                w,
                pre.texture_view(),
                pre.texture_width as int,
                pre.texture_height as int,
                a,
                b,
                c,
                color,
            ));
            return;
        }
        let n = self.buffer.len();
        let min_x = min3_exec(a.x, b.x, c.x) as i64;
        let max_x = max3_exec(a.x, b.x, c.x) as i64;
        let min_y = min3_exec(a.y, b.y, c.y) as i64;
        let max_y = max3_exec(a.y, b.y, c.y) as i64;
        let x_lo: i64 = if min_x < 0 { 0 } else { min_x };
        let x_hi: i64 = if max_x > width as i64 - 1 { width as i64 - 1 } else { max_x };
        let y_lo: i64 = if min_y < 0 { 0 } else { min_y };
        let y_hi: i64 = if max_y > height as i64 - 1 { height as i64 - 1 } else { max_y };
        let mut y = y_lo;
        assert forall|i: int| 0 <= i < n implies !(pre.fill_hits(a, b, c, i) && row_of(i, w) < y)
            by {
            if pre.fill_hits(a, b, c, i) {
                pre.lemma_hit_in_box(a, b, c, i);
            }
        };
        while y <= y_hi
            invariant
                self.wf(),
                pre == *old(self),
                pre.wf(),
                pre.width == width,
                pre.height == height,
                self.width == width,
                self.height == height,
                w == width,
                n == width * height,
                width > 0,
                height > 0,
                self.texture == pre.texture,
                self.texture_width == pre.texture_width,
                self.texture_height == pre.texture_height,
                0 <= x_lo,
                x_hi < width,
                x_lo == (if min3(a.x as int, b.x as int, c.x as int) < 0 { 0 } else { min3(a.x as int, b.x as int, c.x as int) }),
                x_hi == (if max3(a.x as int, b.x as int, c.x as int) > w - 1 { w - 1 } else { max3(a.x as int, b.x as int, c.x as int) }),
                y_lo == (if min3(a.y as int, b.y as int, c.y as int) < 0 { 0 } else { min3(a.y as int, b.y as int, c.y as int) }),
                y_hi == (if max3(a.y as int, b.y as int, c.y as int) > height - 1 { height - 1 } else { max3(a.y as int, b.y as int, c.y as int) }),
                0 <= y_lo <= y,
                y <= y_hi + 1 || y == y_lo,
                forall|i: int|
                    0 <= i < n ==> self.zbuffer@[i] as int == if pre.fill_hits(a, b, c, i) && row_of(i, w) < y {
                        depth_at(a, b, c, col_of(i, w), row_of(i, w))
                    } else {
                        pre.zbuffer@[i] as int
                    },
                forall|i: int|
                    0 <= i < n ==> self.buffer@[i] == if pre.fill_hits(a, b, c, i) && row_of(i, w) < y {
                        pre.fill_color(a, b, c, color, i)
                    } else {
                        pre.buffer@[i]
                    },
            decreases y_hi + 1 - y,
        {
            let mut x = x_lo;
            assert forall|i: int| 0 <= i < n implies (pre.fill_hits(a, b, c, i) && row_of(i, w) < y)
                == (pre.fill_hits(a, b, c, i) && scanned_before(col_of(i, w), row_of(i, w), x as int, y as int)) by {
                if pre.fill_hits(a, b, c, i) {
                    pre.lemma_hit_in_box(a, b, c, i);
                }
            };
            while x <= x_hi
                invariant
                    self.wf(),
                    pre == *old(self),
                    pre.wf(),
                    pre.width == width,
                    pre.height == height,
                    self.width == width,
                    self.height == height,
                    w == width,
                    n == width * height,
                    width > 0,
                    height > 0,
                    self.texture == pre.texture,
                    self.texture_width == pre.texture_width,
                    self.texture_height == pre.texture_height,
                    0 <= x_lo <= x,
                    x <= x_hi + 1 || x == x_lo,
                    x_hi < width,
                    0 <= y_lo <= y <= y_hi,
                    y_hi < height,
                    forall|i: int|
                        0 <= i < n ==> self.zbuffer@[i] as int == if pre.fill_hits(a, b, c, i)
                            && scanned_before(col_of(i, w), row_of(i, w), x as int, y as int) {
                            depth_at(a, b, c, col_of(i, w), row_of(i, w))
                        } else {
                            pre.zbuffer@[i] as int
                        },
                    forall|i: int|
                        0 <= i < n ==> self.buffer@[i] == if pre.fill_hits(a, b, c, i)
                            && scanned_before(col_of(i, w), row_of(i, w), x as int, y as int) {
                            pre.fill_color(a, b, c, color, i)
                        } else {
                            pre.buffer@[i]
                        },
                decreases x_hi + 1 - x,
            {
                proof {
                    lemma_pixel_index(x as int, y as int, w, height as int);
                }
                let idx = y as usize * width + x as usize;
                let ghost before_z = self.zbuffer@;
                let ghost before_c = self.buffer@;
                let wts = barycentric_exec(&a, &b, &c, x, y);
                proof {
                    lemma_barycentric_combination(a, b, c, x as int, y as int);
                }
                if wts.3 != 0 && wts.0 >= 0 && wts.1 >= 0 && wts.2 >= 0 {
                    let z = interpolate_exec(wts, a.z, b.z, c.z);
                    if z > self.zbuffer[idx] as i128 {
                        let col = self.surface_color_exec(wts, &a, &b, &c, color);
                        self.zbuffer.set(idx, z as i32);
                        self.buffer.set(idx, col);
                    }
                }
                assert forall|i: int| 0 <= i < n implies self.zbuffer@[i] as int == (if pre.fill_hits(a, b, c, i)
                    && scanned_before(col_of(i, w), row_of(i, w), x + 1, y as int) {
                    depth_at(a, b, c, col_of(i, w), row_of(i, w))
                } else {
                    pre.zbuffer@[i] as int
                }) && self.buffer@[i] == (if pre.fill_hits(a, b, c, i)
                    && scanned_before(col_of(i, w), row_of(i, w), x + 1, y as int) {
                    pre.fill_color(a, b, c, color, i)
                } else {
                    pre.buffer@[i]
                }) by {
                    lemma_index_pixel(i, w, height as int);
                    if i == idx {
                        assert(col_of(i, w) == x && row_of(i, w) == y);
                        assert(!scanned_before(x as int, y as int, x as int, y as int));
                        assert(before_z[i] == pre.zbuffer@[i]);
                        assert(before_c[i] == pre.buffer@[i]);
                    } else {
                        assert(col_of(i, w) != x || row_of(i, w) != y);
                        assert(self.zbuffer@[i] == before_z[i]);
                        assert(self.buffer@[i] == before_c[i]);
                    }
                };
                x = x + 1;
            }
            assert forall|i: int| 0 <= i < n implies (pre.fill_hits(a, b, c, i) && scanned_before(
                col_of(i, w),
                row_of(i, w),
                x as int,
                y as int,
            )) == (pre.fill_hits(a, b, c, i) && row_of(i, w) < y + 1) by {
                if pre.fill_hits(a, b, c, i) {
                    pre.lemma_hit_in_box(a, b, c, i);
                }
            };
            y = y + 1;
        }
        assert forall|i: int| 0 <= i < n implies (pre.fill_hits(a, b, c, i) && row_of(i, w) < y)
            == pre.fill_hits(a, b, c, i) by {
            if pre.fill_hits(a, b, c, i) {
                pre.lemma_hit_in_box(a, b, c, i);
            }
        };
        assert forall|i: int| 0 <= i < n implies #[trigger] self.zbuffer@[i] == filled_depths(
            pre.zbuffer@,
            w,
            a,
            b,
            c,
        )[i] by {
            if pre.fill_hits(a, b, c, i) {
                let d = depth_at(a, b, c, col_of(i, w), row_of(i, w));
                assert(self.zbuffer@[i] as int == d);
                assert(self.zbuffer@[i] == d as i32);
            }
        };
        let ghost fc = filled_colors(
            pre.buffer@,
            pre.zbuffer@,
            w,
            pre.texture_view(),
            pre.texture_width as int,
            pre.texture_height as int,
            a,
            b,
            c,
            color,
        );
        assert forall|i: int| 0 <= i < n implies #[trigger] self.buffer@[i] == fc[i] by {
            if pre.fill_hits(a, b, c, i) {
                assert(self.buffer@[i] == pre.fill_color(a, b, c, color, i));
            }
        };
        assert(self.zbuffer@ =~= filled_depths(pre.zbuffer@, w, a, b, c));
        assert(self.buffer@ =~= filled_colors(
            pre.buffer@,
            pre.zbuffer@,
            w,
            pre.texture_view(),
            pre.texture_width as int,
            pre.texture_height as int,
            a,
            b,
            c,
            color,
        ));
    }
}


/// On a cleared depth buffer, a fill writes exactly the buffer pixels whose
/// centers have all three barycentric weights nonnegative, provided every
/// corner lies above the cleared depth; a degenerate triangle writes none.
pub proof fn lemma_fill_set(r: Rasterizer, a: ScreenVertex, b: ScreenVertex, c: ScreenVertex, i: int)
    requires
        r.wf(),
        0 <= i < r.zbuffer@.len(),
        r.zbuffer@[i] == crate::rasterizer::DEPTH_CLEAR,
        a.z > i32::MIN,
        b.z > i32::MIN,
        c.z > i32::MIN,
    ensures
        r.fill_hits(a, b, c, i) <==> covers(
            a,
            b,
            c,
            col_of(i, r.width as int),
            row_of(i, r.width as int),
        ),
        is_degenerate(a, b, c) ==> !r.fill_hits(a, b, c, i),
{
    let (px, py) = (col_of(i, r.width as int), row_of(i, r.width as int));
    lemma_barycentric_combination(a, b, c, px, py);
    if covers(a, b, c, px, py) {
        lemma_interpolate_between(barycentric(a, b, c, px, py), a.z as int, b.z as int, c.z as int);
    }
}

/// Under weights that give everything to one corner, an interpolated value is
/// that corner's value.
proof fn lemma_interpolate_corner(d: int, q0: int, q1: int, q2: int)
    requires
        d > 0,
    ensures
        interpolate((d, 0, 0, d), q0, q1, q2) == q0,
        interpolate((0, d, 0, d), q0, q1, q2) == q1,
        interpolate((0, 0, d, d), q0, q1, q2) == q2,
{
    crate::arith::lemma_div_exact(q0, d);
    crate::arith::lemma_div_exact(q1, d);
    crate::arith::lemma_div_exact(q2, d);
}

/// At each corner of a nondegenerate triangle the weights select that corner
/// alone, and a textured fill samples the texel that the corner's own
/// texture coordinates address, column `u·tw` and row `(1 - v)·th`.
pub proof fn lemma_texture_at_corners(
    r: Rasterizer,
    a: ScreenVertex,
    b: ScreenVertex,
    c: ScreenVertex,
    color: u32,
)
    requires
        r.wf(),
        r.texture is Some,
        !is_degenerate(a, b, c),
    ensures
        ({
            let t = r.texture->0@;
            let (tw, th) = (r.texture_width as int, r.texture_height as int);
            &&& r.surface_color(barycentric(a, b, c, a.x as int, a.y as int), a, b, c, color)
                == t[texel_index(a.u as int, a.v as int, tw, th)]
            &&& r.surface_color(barycentric(a, b, c, b.x as int, b.y as int), a, b, c, color)
                == t[texel_index(b.u as int, b.v as int, tw, th)]
            &&& r.surface_color(barycentric(a, b, c, c.x as int, c.y as int), a, b, c, color)
                == t[texel_index(c.u as int, c.v as int, tw, th)]
        }),
{
    lemma_corner_weights(a, b, c);
    let d = abs(edge_cross(a, b, c, 0, 0).2);
    lemma_interpolate_corner(d, a.u as int, b.u as int, c.u as int);
    lemma_interpolate_corner(d, a.v as int, b.v as int, c.v as int);
}

/// A textured fill of a nondegenerate triangle writes at each corner pixel
/// that lies in the buffer, and whose stored depth is below the corner's
/// depth, the texel that the corner's own texture coordinates address:
/// column `u·tw` and row `(1 - v)·th`.
pub proof fn lemma_texture_fill_at_corners(
    pre: Rasterizer,
    post: Rasterizer,
    a: ScreenVertex,
    b: ScreenVertex,
    c: ScreenVertex,
    color: u32,
)
    requires
        pre.wf(),
        pre.texture is Some,
        !is_degenerate(a, b, c),
        fill_result(pre, post, a, b, c, color),
    ensures
        ({
            let t = pre.texture->0@;
            let (w, h) = (pre.width as int, pre.height as int);
            let (tw, th) = (pre.texture_width as int, pre.texture_height as int);
            &&& in_buffer(a.x as int, a.y as int, w, h) && pre.zbuffer@[a.y * w + a.x] < a.z
                ==> post.buffer@[a.y * w + a.x] == t[texel_index(a.u as int, a.v as int, tw, th)]
            &&& in_buffer(b.x as int, b.y as int, w, h) && pre.zbuffer@[b.y * w + b.x] < b.z
                ==> post.buffer@[b.y * w + b.x] == t[texel_index(b.u as int, b.v as int, tw, th)]
            &&& in_buffer(c.x as int, c.y as int, w, h) && pre.zbuffer@[c.y * w + c.x] < c.z
                ==> post.buffer@[c.y * w + c.x] == t[texel_index(c.u as int, c.v as int, tw, th)]
        }),
{
    let (w, h) = (pre.width as int, pre.height as int);
    lemma_corner_weights(a, b, c);
    lemma_texture_at_corners(pre, a, b, c, color);
    let d = abs(edge_cross(a, b, c, 0, 0).2);
    lemma_interpolate_corner(d, a.z as int, b.z as int, c.z as int);
    if in_buffer(a.x as int, a.y as int, w, h) {
        lemma_pixel_index(a.x as int, a.y as int, w, h);
    }
    if in_buffer(b.x as int, b.y as int, w, h) {
        lemma_pixel_index(b.x as int, b.y as int, w, h);
    }
    if in_buffer(c.x as int, c.y as int, w, h) {
        lemma_pixel_index(c.x as int, c.y as int, w, h);
    }
}

/// At each corner of a nondegenerate triangle the weights select that
/// corner alone.
proof fn lemma_corner_weights(a: ScreenVertex, b: ScreenVertex, c: ScreenVertex)
    requires
        !is_degenerate(a, b, c),
    ensures
        ({
            let d = abs(edge_cross(a, b, c, 0, 0).2);
            &&& d > 0
            &&& barycentric(a, b, c, a.x as int, a.y as int) == (d, 0int, 0int, d)
            &&& barycentric(a, b, c, b.x as int, b.y as int) == (0int, d, 0int, d)
            &&& barycentric(a, b, c, c.x as int, c.y as int) == (0int, 0int, d, d)
        }),
{
    lemma_cross_relative(a, b, c, a.x as int, a.y as int);
    lemma_cross_relative(a, b, c, b.x as int, b.y as int);
    lemma_cross_relative(a, b, c, c.x as int, c.y as int);
    lemma_cross_relative(a, b, c, 0, 0);
    let (xb, xc, yb, yc) = (b.x - a.x, c.x - a.x, b.y - a.y, c.y - a.y);
    assert(xb * yb - xb * yb == 0);
    assert(xc * yc - xc * yc == 0);
    assert(0int * yb - xb * 0int == 0) by (nonlinear_arith);
    assert(xc * 0int - 0int * yc == 0) by (nonlinear_arith);
}

/// Whether all three corners carry depth `z`.
pub open spec fn flat_depth(a: ScreenVertex, b: ScreenVertex, c: ScreenVertex, z: int) -> bool {
    a.z == z && b.z == z && c.z == z
}

/// Where two triangles of constant depths `z1 < z2` overlap, above a stored
/// depth below `z1`, the pixel ends with the color of the nearer triangle
/// whichever is drawn first: `one` then `two` gives `r12`, `two` then `one`
/// gives `r21`.
pub proof fn lemma_depth_order(
    r0: Rasterizer,
    r1: Rasterizer,
    r12: Rasterizer,
    r2: Rasterizer,
    r21: Rasterizer,
    a1: ScreenVertex,
    b1: ScreenVertex,
    c1: ScreenVertex,
    color1: u32,
    a2: ScreenVertex,
    b2: ScreenVertex,
    c2: ScreenVertex,
    color2: u32,
    z1: int,
    z2: int,
    i: int,
)
    requires
        r0.wf(),
        flat_depth(a1, b1, c1, z1),
        flat_depth(a2, b2, c2, z2),
        z1 < z2,
        0 <= i < r0.zbuffer@.len(),
        r0.zbuffer@[i] < z1,
        covers(a1, b1, c1, col_of(i, r0.width as int), row_of(i, r0.width as int)),
        covers(a2, b2, c2, col_of(i, r0.width as int), row_of(i, r0.width as int)),
        r1.width == r0.width && r1.texture == r0.texture && r1.texture_width == r0.texture_width
            && r1.texture_height == r0.texture_height,
        r2.width == r0.width && r2.texture == r0.texture && r2.texture_width == r0.texture_width
            && r2.texture_height == r0.texture_height,
        fill_result(r0, r1, a1, b1, c1, color1),
        fill_result(r1, r12, a2, b2, c2, color2),
        fill_result(r0, r2, a2, b2, c2, color2),
        fill_result(r2, r21, a1, b1, c1, color1),
    ensures
        r12.buffer@[i] == r0.fill_color(a2, b2, c2, color2, i),
        r21.buffer@[i] == r0.fill_color(a2, b2, c2, color2, i),
{
    let (px, py) = (col_of(i, r0.width as int), row_of(i, r0.width as int));
    lemma_barycentric_combination(a1, b1, c1, px, py);
    lemma_barycentric_combination(a2, b2, c2, px, py);
    lemma_interpolate_between(barycentric(a1, b1, c1, px, py), z1, z1, z1);
    lemma_interpolate_between(barycentric(a2, b2, c2, px, py), z2, z2, z2);
    assert(depth_at(a1, b1, c1, px, py) == z1);
    assert(depth_at(a2, b2, c2, px, py) == z2);
}

} // verus!
