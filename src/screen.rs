use vstd::prelude::*;

use crate::rasterizer::Rasterizer;
use crate::vec3::Vec3i;

verus! {

/// The fixed-point value that stands for 1.0 in normalized device
/// coordinates.
pub const NDC_ONE: i64 = 65536;

/// `num / den` rounded to the nearest integer, halves away from zero.
pub open spec fn round_div(num: int, den: int) -> int {
    if num >= 0 {
        (2 * num + den) / (2 * den)
    } else {
        -((-2 * num + den) / (2 * den))
    }
}

/// The pixel column of device coordinate `nx`: `(nx + 1)·width / 2`, rounded.
pub open spec fn screen_x(nx: int, width: int) -> int {
    round_div((nx + NDC_ONE) * width, 2 * NDC_ONE)
}

/// The pixel row of device coordinate `ny`: `height - (ny + 1)·height / 2`,
/// rounded; rows grow downward while `ny` grows upward.
pub open spec fn screen_y(ny: int, height: int) -> int {
    round_div((NDC_ONE - ny) * height, 2 * NDC_ONE)
}

/// Where a point in normalized device coordinates lands in a `width` by
/// `height` buffer, or `None` when the pixel coordinates do not fit an `i32`.
pub open spec fn to_screen(v: Vec3i, width: int, height: int) -> Option<Vec3i> {
    let sx = screen_x(v.x as int, width);
    let sy = screen_y(v.y as int, height);
    if i32::MIN <= sx <= i32::MAX && i32::MIN <= sy <= i32::MAX {
        Some(Vec3i { x: sx as i32, y: sy as i32, z: v.z })
    } else {
        None
    }
}

/// `round_div` for a denominator of `2·NDC_ONE` and a numerator of moderate size.
fn round_div_exec(num: i128) -> (r: i128)
    requires
        -0x1_0000_0000_0000_0000 <= num <= 0x1_0000_0000_0000_0000,
    ensures
        r == round_div(num as int, 2 * NDC_ONE),
{
    let den: i128 = 2 * NDC_ONE as i128;
    if num >= 0 {
        (2 * num + den) / (2 * den)
    } else {
        let m = 2 * (-num) + den;
        let q = m / (2 * den);
        proof {
            crate::arith::lemma_div_between(m as int, 2 * den as int, 0, m as int);
        }
        -q
    }
}

impl Rasterizer {
    /// Maps a point in normalized device coordinates (`x` and `y` in units of
    /// `1 / NDC_ONE`) to pixel coordinates, keeping its depth `z`; `None` when
    /// the pixel coordinates do not fit an `i32`. Points outside the device
    /// square are mapped all the same.
    pub fn world2screen(&self, v: Vec3i) -> (r: Option<Vec3i>)
        requires
            self.wf(),
        ensures
            ({
                let sx = screen_x(v.x as int, self.width as int);
                let sy = screen_y(v.y as int, self.height as int);
                let fits = i32::MIN <= sx <= i32::MAX && i32::MIN <= sy <= i32::MAX;
                &&& r is Some <==> fits
                &&& fits ==> r == Some(Vec3i { x: sx as i32, y: sy as i32, z: v.z })
            }),
            r == to_screen(v, self.width as int, self.height as int),
    {
        proof {
            crate::arith::lemma_mul_magnitude(
                v.x as int + NDC_ONE,
                self.width as int,
                0x1_0000_0000,
                0x8000_0000,
            );
            crate::arith::lemma_mul_magnitude(
                NDC_ONE - v.y as int,
                self.height as int,
                0x1_0000_0000,
                0x8000_0000,
            );
        }
        let sx = round_div_exec((v.x as i128 + NDC_ONE as i128) * self.width as i128);
        let sy = round_div_exec((NDC_ONE as i128 - v.y as i128) * self.height as i128);
        if sx < i32::MIN as i128 || sx > i32::MAX as i128 || sy < i32::MIN as i128 || sy
            > i32::MAX as i128 {
            None
        } else {
            Some(Vec3i { x: sx as i32, y: sy as i32, z: v.z })
        }
    }
}

} // verus!
