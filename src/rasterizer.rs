use vstd::prelude::*;
use vstd::arithmetic::div_mod::lemma_fundamental_div_mod_converse;

verus! {

/// The value a cleared depth buffer holds: below every depth a surface can have.
pub const DEPTH_CLEAR: i32 = i32::MIN;

/// Absolute value.
pub open spec fn abs(a: int) -> int {
    if a < 0 {
        -a
    } else {
        a
    }
}

/// Whether `(x, y)` lies inside a `width` by `height` buffer.
pub open spec fn in_buffer(x: int, y: int, width: int, height: int) -> bool {
    0 <= x < width && 0 <= y < height
}

/// Column of the pixel stored at index `i`.
pub open spec fn col_of(i: int, width: int) -> int {
    i % width
}

/// Row of the pixel stored at index `i`.
pub open spec fn row_of(i: int, width: int) -> int {
    i / width
}

/// A pixel inside a `width` by `height` buffer is stored at `y * width + x`,
/// and that index gives back its column and row.
pub proof fn lemma_pixel_index(x: int, y: int, width: int, height: int)
    requires
        in_buffer(x, y, width, height),
    ensures
        0 <= y * width + x < width * height,
        col_of(y * width + x, width) == x,
        row_of(y * width + x, width) == y,
{
    assert(0 <= y * width + x < width * height) by (nonlinear_arith)
        requires
            0 <= x < width,
            0 <= y < height,
    ;
    lemma_fundamental_div_mod_converse(y * width + x, width, y, x);
}

/// Every index of a `width` by `height` buffer names a pixel inside it.
pub proof fn lemma_index_pixel(i: int, width: int, height: int)
    requires
        0 <= width,
        0 <= height,
        0 <= i < width * height,
    ensures
        in_buffer(col_of(i, width), row_of(i, width), width, height),
        i == row_of(i, width) * width + col_of(i, width),
{
    assert(width > 0) by (nonlinear_arith)
        requires
            0 <= i < width * height,
            height >= 0,
            width >= 0,
    ;
    vstd::arithmetic::div_mod::lemma_fundamental_div_mod(i, width);
    assert(width * (i / width) == (i / width) * width) by (nonlinear_arith);
    assert(row_of(i, width) < height) by (nonlinear_arith)
        requires
            i == width * (i / width) + i % width,
            0 <= i % width,
            i < width * height,
            width > 0,
    ;
    assert(row_of(i, width) >= 0) by (nonlinear_arith)
        requires
            i >= 0,
            width > 0,
    ;
}

/// A frame: a row-major color buffer of packed `0xRRGGBB` values, a parallel
/// depth buffer, and the texture that triangle fills sample, if one is bound.
pub struct Rasterizer {
    pub width: usize,
    pub height: usize,
    pub buffer: Vec<u32>,
    pub zbuffer: Vec<i32>,
    pub texture: Option<Vec<u32>>,
    pub texture_width: usize,
    pub texture_height: usize,
}

impl Rasterizer {
    /// Both buffers hold one cell per pixel, pixel coordinates fit an `i32`,
    /// and a bound texture holds one texel per cell of its nonempty grid.
    pub open spec fn wf(&self) -> bool {
        &&& self.width <= i32::MAX
        &&& self.height <= i32::MAX
        &&& self.buffer@.len() == self.width * self.height
        &&& self.zbuffer@.len() == self.width * self.height
        &&& self.texture_ok()
    }

    /// The bound texture's texels, row-major from the top, if any.
    pub open spec fn texture_view(&self) -> Option<Seq<u32>> {
        match self.texture {
            Some(t) => Some(t@),
            None => None,
        }
    }

    pub open spec fn texture_ok(&self) -> bool {
        match self.texture {
            Some(t) => {
                &&& 0 < self.texture_width
                &&& 0 < self.texture_height
                &&& t@.len() == self.texture_width * self.texture_height
            },
            None => true,
        }
    }

    /// A `width` by `height` frame, black, with a cleared depth buffer and no
    /// texture.
    pub fn new(width: usize, height: usize) -> (r: Rasterizer)
        requires
            width <= i32::MAX,
            height <= i32::MAX,
            width * height <= usize::MAX,
        ensures
            r.wf(),
            r.width == width,
            r.height == height,
            forall|i: int| 0 <= i < r.buffer@.len() ==> r.buffer@[i] == 0,
            forall|i: int| 0 <= i < r.zbuffer@.len() ==> r.zbuffer@[i] == DEPTH_CLEAR,
            r.texture is None,
    {
        let n = width * height;
        let mut buffer: Vec<u32> = Vec::with_capacity(n);
        let mut zbuffer: Vec<i32> = Vec::with_capacity(n);
        let mut i: usize = 0;
        while i < n
            invariant
                i <= n,
                buffer@.len() == i,
                zbuffer@.len() == i,
                forall|j: int| 0 <= j < i ==> buffer@[j] == 0,
                forall|j: int| 0 <= j < i ==> zbuffer@[j] == DEPTH_CLEAR,
            decreases n - i,
        {
            buffer.push(0);
            zbuffer.push(DEPTH_CLEAR);
            i = i + 1;
        }
        Rasterizer {
            width,
            height,
            buffer,
            zbuffer,
            texture: None,
            texture_width: 0,
            texture_height: 0,
        }
    }

    /// Sets every pixel to black and every depth to `DEPTH_CLEAR`.
    pub fn clear(&mut self)
        requires
            old(self).wf(),
        ensures
            final(self).wf(),
            final(self).width == old(self).width,
            final(self).height == old(self).height,
            final(self).texture == old(self).texture,
            final(self).texture_width == old(self).texture_width,
            final(self).texture_height == old(self).texture_height,
            forall|i: int| 0 <= i < final(self).buffer@.len() ==> final(self).buffer@[i] == 0,
            forall|i: int|
                0 <= i < final(self).zbuffer@.len() ==> final(self).zbuffer@[i] == DEPTH_CLEAR,
    {
        let n = self.buffer.len();
        let mut i: usize = 0;
        while i < n
            invariant
                i <= n,
                n == self.width * self.height,
                self.wf(),
                self.width == old(self).width,
                self.height == old(self).height,
                self.texture == old(self).texture,
                self.texture_width == old(self).texture_width,
                self.texture_height == old(self).texture_height,
                forall|j: int| 0 <= j < i ==> self.buffer@[j] == 0,
                forall|j: int| 0 <= j < i ==> self.zbuffer@[j] == DEPTH_CLEAR,
            decreases n - i,
        {
            self.buffer.set(i, 0);
            self.zbuffer.set(i, DEPTH_CLEAR);
            i = i + 1;
        }
    }

    /// Binds `texture`, a row-major `width` by `height` grid of packed colors,
    /// for the triangle fills that follow; `None` unbinds it.
    pub fn set_texture(&mut self, texture: Option<Vec<u32>>, width: usize, height: usize)
        requires
            old(self).wf(),
            texture is Some ==> 0 < width && 0 < height && texture->0@.len() == width * height,
        ensures
            final(self).wf(),
            final(self).width == old(self).width,
            final(self).height == old(self).height,
            final(self).buffer@ == old(self).buffer@,
            final(self).zbuffer@ == old(self).zbuffer@,
            final(self).texture == texture,
            final(self).texture_width == width,
            final(self).texture_height == height,
    {
        self.texture = texture;
        self.texture_width = width;
        self.texture_height = height;
    }
}

} // verus!
