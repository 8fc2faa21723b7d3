use vstd::prelude::*;

use crate::arith::lemma_mul_magnitude;
use crate::vec3::{cross3, dot3, sub3, Vec3i};

verus! {

/// Bound on the magnitude of a model-space coordinate, in the model's own
/// fixed-point units, that flat shading accepts: every vertex of a model lies
/// in the cube from `-SHADE_LIMIT` to `SHADE_LIMIT` on each axis. The bound
/// keeps the products of shading within 128-bit integers.
pub const SHADE_LIMIT: i32 = 65536;

/// The light direction of the default scene: straight into the screen.
pub fn default_light() -> (r: Vec3i)
    ensures
        r == (Vec3i { x: 0i32, y: 0i32, z: -1i32 }),
{
    Vec3i { x: 0, y: 0, z: -1 }
}

pub open spec fn within_shade_limit(v: Vec3i) -> bool {
    -SHADE_LIMIT <= v.x <= SHADE_LIMIT && -SHADE_LIMIT <= v.y <= SHADE_LIMIT && -SHADE_LIMIT
        <= v.z <= SHADE_LIMIT
}

/// The face normal: the cross product of the edges `v2 - v0` and `v1 - v0`.
pub open spec fn face_normal(v0: Vec3i, v1: Vec3i, v2: Vec3i) -> (int, int, int) {
    cross3(sub3(v2.view(), v0.view()), sub3(v1.view(), v0.view()))
}

/// Whether `g` is the light intensity `dot / sqrt(norms)` scaled to 255 and
/// rounded to the nearest integer, halves up, and capped at 255; `norms` is
/// the product of the squared lengths of normal and light.
pub open spec fn is_gray_level(g: int, dot: int, norms: int) -> bool {
    let x2 = 4 * ((255 * dot) * (255 * dot));
    &&& 0 <= g <= 255
    &&& g == 0 || (2 * g - 1) * (2 * g - 1) * norms <= x2
    &&& g == 255 || x2 < (2 * g + 1) * (2 * g + 1) * norms
}

/// The rounded intensity is unique: `is_gray_level` names one level.
pub proof fn lemma_gray_level_unique(g1: int, g2: int, dot: int, norms: int)
    requires
        norms >= 0,
        is_gray_level(g1, dot, norms),
        is_gray_level(g2, dot, norms),
    ensures
        g1 == g2,
{
    let x2 = 4 * ((255 * dot) * (255 * dot));
    if g1 < g2 {
        assert(false) by (nonlinear_arith)
            requires
                0 <= g1 < g2 <= 255,
                norms >= 0,
                (2 * g2 - 1) * (2 * g2 - 1) * norms <= x2,
                x2 < (2 * g1 + 1) * (2 * g1 + 1) * norms,
        ;
    } else if g2 < g1 {
        assert(false) by (nonlinear_arith)
            requires
                0 <= g2 < g1 <= 255,
                norms >= 0,
                (2 * g1 - 1) * (2 * g1 - 1) * norms <= x2,
                x2 < (2 * g2 + 1) * (2 * g2 + 1) * norms,
        ;
    }
}

/// A gray color: `g` in each of the red, green and blue bytes of `0xRRGGBB`.
pub open spec fn gray(g: int) -> int {
    g * 0x10000 + g * 0x100 + g
}

/// The color of face `v0 v1 v2` under `light`, or `None` for a face that
/// does not point toward the light.
pub open spec fn shade_spec(v0: Vec3i, v1: Vec3i, v2: Vec3i, light: Vec3i) -> Option<u32> {
    let n = face_normal(v0, v1, v2);
    let dot = dot3(n, light.view());
    let norms = dot3(n, n) * dot3(light.view(), light.view());
    if dot <= 0 {
        None
    } else {
        Some(gray(choose|g: int| is_gray_level(g, dot, norms)) as u32)
    }
}

/// Flat Lambertian shading of the face `v0 v1 v2` under light direction
/// `light`. A face whose normal does not point toward the light (a
/// nonpositive dot product, which includes a degenerate face and a zero
/// light) faces away and is skipped: `None`. Otherwise the result is the gray
/// of the rounded intensity.
pub fn face_shade(v0: Vec3i, v1: Vec3i, v2: Vec3i, light: Vec3i) -> (r: Option<u32>)
    requires
        within_shade_limit(v0),
        within_shade_limit(v1),
        within_shade_limit(v2),
        within_shade_limit(light),
    ensures
        r is None <==> dot3(face_normal(v0, v1, v2), light.view()) <= 0,
        r is Some ==> exists|g: int|
            is_gray_level(
                g,
                dot3(face_normal(v0, v1, v2), light.view()),
                dot3(face_normal(v0, v1, v2), face_normal(v0, v1, v2)) * dot3(
                    light.view(),
                    light.view(),
                ),
            ) && r->0 == gray(g),
        r == shade_spec(v0, v1, v2, light),
{
    let e0x = v2.x as i128 - v0.x as i128;
    let e0y = v2.y as i128 - v0.y as i128;
    let e0z = v2.z as i128 - v0.z as i128;
    let e1x = v1.x as i128 - v0.x as i128;
    let e1y = v1.y as i128 - v0.y as i128;
    let e1z = v1.z as i128 - v0.z as i128;
    let ghost e = 0x2_0000int;
    proof {
        lemma_mul_magnitude(e0y as int, e1z as int, e, e);
        lemma_mul_magnitude(e0z as int, e1y as int, e, e);
        lemma_mul_magnitude(e0z as int, e1x as int, e, e);
        lemma_mul_magnitude(e0x as int, e1z as int, e, e);
        lemma_mul_magnitude(e0x as int, e1y as int, e, e);
        lemma_mul_magnitude(e0y as int, e1x as int, e, e);
    }
    let nx = e0y * e1z - e0z * e1y;
    let ny = e0z * e1x - e0x * e1z;
    let nz = e0x * e1y - e0y * e1x;
    let lx = light.x as i128;
    let ly = light.y as i128;
    let lz = light.z as i128;
    let ghost nb = 0x8_0000_0000int;
    let ghost lb = 0x1_0000int;
    proof {
        lemma_mul_magnitude(nx as int, lx as int, nb, lb);
        lemma_mul_magnitude(ny as int, ly as int, nb, lb);
        lemma_mul_magnitude(nz as int, lz as int, nb, lb);
        lemma_mul_magnitude(nx as int, nx as int, nb, nb);
        lemma_mul_magnitude(ny as int, ny as int, nb, nb);
        lemma_mul_magnitude(nz as int, nz as int, nb, nb);
        lemma_mul_magnitude(lx as int, lx as int, lb, lb);
        lemma_mul_magnitude(ly as int, ly as int, lb, lb);
        lemma_mul_magnitude(lz as int, lz as int, lb, lb);
    }
    let dot = nx * lx + ny * ly + nz * lz;
    assert(dot3(face_normal(v0, v1, v2), light.view()) == dot);
    if dot <= 0 {
        return None;
    }
    let nn = nx * nx + ny * ny + nz * nz;
    let ll = lx * lx + ly * ly + lz * lz;
    proof {
        assert(nx * nx >= 0 && ny * ny >= 0 && nz * nz >= 0) by (nonlinear_arith);
        assert(lx * lx >= 0 && ly * ly >= 0 && lz * lz >= 0) by (nonlinear_arith);
        lemma_mul_magnitude(nn as int, ll as int, 0x100_0000_0000_0000_0000, 0x4_0000_0000);
        assert(nn * ll >= 0) by (nonlinear_arith)
            requires
                nn >= 0,
                ll >= 0,
        ;
    }
    let norms = nn * ll;
    let x = 255 * dot;
    proof {
        lemma_mul_magnitude(x as int, x as int, 0x4000_0000_0000_0000, 0x4000_0000_0000_0000);
    }
    let x2 = 4 * (x * x);
    let mut g: i128 = 0;
    let mut done = false;
    while !done && g < 255
        invariant
            0 <= g <= 255,
            0 <= norms <= 0x400_0000_0000_0000_0000_0000_0000,
            g == 0 || (2 * g - 1) * (2 * g - 1) * norms <= x2,
            done ==> x2 < (2 * g + 1) * (2 * g + 1) * norms,
        decreases 255 - g, if done { 0int } else { 1int },
    {
        proof {
            assert(0 <= (2 * g + 1) * (2 * g + 1) <= 511 * 511) by (nonlinear_arith)
                requires
                    0 <= g < 255,
            ;
            lemma_mul_magnitude(
                (2 * g + 1) * (2 * g + 1) as int,
                norms as int,
                511 * 511int,
                0x400_0000_0000_0000_0000_0000_0000,
            );
        }
        if (2 * g + 1) * (2 * g + 1) * norms > x2 {
            done = true;
        } else {
            g = g + 1;
        }
    }
    let ghost n = face_normal(v0, v1, v2);
    assert(n == (nx as int, ny as int, nz as int));
    assert(dot3(n, light.view()) == dot);
    assert(dot3(n, n) * dot3(light.view(), light.view()) == norms);
    assert(is_gray_level(g as int, dot as int, norms as int));
    let gu = g as u32;
    let packed = gu * 0x10000 + gu * 0x100 + gu;
    assert(packed == gray(g as int));
    proof {
        let dd = dot3(n, light.view());
        let nm = dot3(n, n) * dot3(light.view(), light.view());
        let c = choose|g: int| is_gray_level(g, dd, nm);
        lemma_gray_level_unique(c, g as int, dd, nm);
    }
    Some(packed)
}

} // verus!
