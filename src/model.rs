use vstd::prelude::*;

use crate::shading::{within_shade_limit, SHADE_LIMIT};
use crate::vec3::Vec3i;

verus! {

/// A texture coordinate in units of `1 / TEX_ONE`; `(0, 0)` is the bottom
/// left of the texture and `(TEX_ONE, TEX_ONE)` its top right.
#[derive(Debug, Clone, Copy, PartialEq, Eq, Structural)]
pub struct TexCoord {
    pub u: i32,
    pub v: i32,
}

/// One corner of a face: an index into the model's vertices, one into its
/// texture coordinates, and an index of a normal, which rendering ignores.
#[derive(Debug, Clone, Copy, PartialEq, Eq, Structural)]
pub struct FaceCorner {
    pub vert: usize,
    pub texcoord: usize,
    pub normal: Option<usize>,
}

/// A triangle of the mesh, as three corners in order.
#[derive(Debug, Clone, Copy, PartialEq, Eq, Structural)]
pub struct Face {
    pub a: FaceCorner,
    pub b: FaceCorner,
    pub c: FaceCorner,
}

/// Why a model was refused.
#[derive(Debug, Clone, Copy, PartialEq, Eq, Structural)]
pub enum ModelError {
    /// A vertex coordinate lies beyond `SHADE_LIMIT`.
    VertexOutOfRange,
    /// A face names a vertex or texture coordinate that does not exist.
    FaceIndexOutOfRange,
}

/// Why a texture was refused.
#[derive(Debug, Clone, Copy, PartialEq, Eq, Structural)]
pub enum TextureError {
    /// The texture is empty, or the byte count is not three per texel.
    SizeMismatch,
}

pub open spec fn corner_ok(c: FaceCorner, nverts: int, ntex: int) -> bool {
    c.vert < nverts && c.texcoord < ntex
}

/// Whether every index of face `f` is in range.
pub open spec fn face_ok(f: Face, nverts: int, ntex: int) -> bool {
    corner_ok(f.a, nverts, ntex) && corner_ok(f.b, nverts, ntex) && corner_ok(f.c, nverts, ntex)
}

/// The packed color `0xRRGGBB` of three channel bytes.
pub open spec fn pack_rgb(r: u8, g: u8, b: u8) -> u32 {
    (r as int * 0x10000 + g as int * 0x100 + b as int) as u32
}

/// A triangle mesh: vertex positions, texture coordinates, faces that index
/// both, and an optional texture of packed colors.
pub struct Model {
    verts: Vec<Vec3i>,
    faces: Vec<Face>,
    texcoords: Vec<TexCoord>,
    texture: Option<Vec<u32>>,
    texture_width: usize,
    texture_height: usize,
}

impl Model {
    pub closed spec fn verts_view(&self) -> Seq<Vec3i> {
        self.verts@
    }

    pub closed spec fn faces_view(&self) -> Seq<Face> {
        self.faces@
    }

    pub closed spec fn texcoords_view(&self) -> Seq<TexCoord> {
        self.texcoords@
    }

    pub closed spec fn texture_view(&self) -> Option<Seq<u32>> {
        match self.texture {
            Some(t) => Some(t@),
            None => None,
        }
    }

    pub closed spec fn texture_width_view(&self) -> int {
        self.texture_width as int
    }

    pub closed spec fn texture_height_view(&self) -> int {
        self.texture_height as int
    }

    /// Every vertex lies within the shading limit, every face index is in
    /// range, and a texture holds one texel per cell of its nonempty grid.
    pub open spec fn wf(&self) -> bool {
        &&& forall|i: int| 0 <= i < self.verts_view().len() ==> within_shade_limit(#[trigger] self.verts_view()[i])
        &&& forall|k: int| 0 <= k < self.faces_view().len() ==> face_ok(
            #[trigger] self.faces_view()[k],
            self.verts_view().len() as int,
            self.texcoords_view().len() as int,
        )
        &&& match self.texture_view() {
            Some(t) => {
                &&& 0 < self.texture_width_view()
                &&& 0 < self.texture_height_view()
                &&& t.len() == self.texture_width_view() * self.texture_height_view()
            },
            None => true,
        }
    }

    /// A model without texture. Refused with `VertexOutOfRange` when a vertex
    /// coordinate lies beyond `SHADE_LIMIT`, and otherwise with
    /// `FaceIndexOutOfRange` when a face names a missing vertex or texture
    /// coordinate.
    pub fn new(verts: Vec<Vec3i>, texcoords: Vec<TexCoord>, faces: Vec<Face>) -> (r: Result<Model, ModelError>)
        ensures
            (r == Err::<Model, ModelError>(ModelError::VertexOutOfRange)) <==> exists|i: int|
                0 <= i < verts@.len() && !within_shade_limit(#[trigger] verts@[i]),
            (r == Err::<Model, ModelError>(ModelError::FaceIndexOutOfRange)) <==> (
            (forall|i: int| 0 <= i < verts@.len() ==> within_shade_limit(#[trigger] verts@[i]))
                && exists|k: int|
                0 <= k < faces@.len() && !face_ok(
                    #[trigger] faces@[k],
                    verts@.len() as int,
                    texcoords@.len() as int,
                )),
            r is Ok ==> {
                let m = r->Ok_0;
                &&& m.wf()
                &&& m.verts_view() == verts@
                &&& m.texcoords_view() == texcoords@
                &&& m.faces_view() == faces@
                &&& m.texture_view() is None
                &&& m.texture_width_view() == 0
                &&& m.texture_height_view() == 0
            },
    {
        let mut i: usize = 0;
        while i < verts.len()
            invariant
                i <= verts@.len(),
                forall|j: int| 0 <= j < i ==> within_shade_limit(#[trigger] verts@[j]),
            decreases verts@.len() - i,
        {
            let v = verts[i];
            if v.x < -SHADE_LIMIT || v.x > SHADE_LIMIT || v.y < -SHADE_LIMIT || v.y > SHADE_LIMIT
                || v.z < -SHADE_LIMIT || v.z > SHADE_LIMIT {
                return Err(ModelError::VertexOutOfRange);
            }
            i = i + 1;
        }
        let nv = verts.len();
        let nt = texcoords.len();
        let mut k: usize = 0;
        while k < faces.len()
            invariant
                k <= faces@.len(),
                nv == verts@.len(),
                nt == texcoords@.len(),
                forall|j: int| 0 <= j < verts@.len() ==> within_shade_limit(#[trigger] verts@[j]),
                forall|j: int| 0 <= j < k ==> face_ok(#[trigger] faces@[j], nv as int, nt as int),
            decreases faces@.len() - k,
        {
            let f = faces[k];
            if f.a.vert >= nv || f.a.texcoord >= nt || f.b.vert >= nv || f.b.texcoord >= nt
                || f.c.vert >= nv || f.c.texcoord >= nt {
                return Err(ModelError::FaceIndexOutOfRange);
            }
            k = k + 1;
        }
        Ok(Model { verts, faces, texcoords, texture: None, texture_width: 0, texture_height: 0 })
    }

    /// Attaches a texture decoded to 8-bit RGB: three bytes per texel, rows
    /// from the top, each texel packed as `0xRRGGBB`. Refused, leaving the
    /// model as it was, when the texture is empty or the byte count is not
    /// `3·width·height`.
    pub fn load_texture(&mut self, rgb: &Vec<u8>, width: usize, height: usize) -> (r: Result<(), TextureError>)
        requires
            old(self).wf(),
        ensures
            final(self).wf(),
            final(self).verts_view() == old(self).verts_view(),
            final(self).faces_view() == old(self).faces_view(),
            final(self).texcoords_view() == old(self).texcoords_view(),
            r is Ok <==> (0 < width && 0 < height && rgb@.len() == 3 * (width * height)),
            r is Err ==> final(self).texture_view() == old(self).texture_view()
                && final(self).texture_width_view() == old(self).texture_width_view()
                && final(self).texture_height_view() == old(self).texture_height_view(),
            r is Ok ==> {
                &&& final(self).texture_width_view() == width
                &&& final(self).texture_height_view() == height
                &&& final(self).texture_view() is Some
                &&& final(self).texture_view()->0.len() == width * height
                &&& forall|i: int|
                    0 <= i < width * height ==> #[trigger] final(self).texture_view()->0[i]
                        == pack_rgb(rgb@[3 * i], rgb@[3 * i + 1], rgb@[3 * i + 2])
            },
    {
        let len = rgb.len();
        if width == 0 || height == 0 {
            return Err(TextureError::SizeMismatch);
        }
        let n = match width.checked_mul(height) {
            Some(n) => n,
            None => {
                return Err(TextureError::SizeMismatch);
            },
        };
        if n > len / 3 || len != 3 * n {
            return Err(TextureError::SizeMismatch);
        }
        let mut texels: Vec<u32> = Vec::with_capacity(n);
        let mut i: usize = 0;
        while i < n
            invariant
                i <= n,
                len == rgb@.len(),
                rgb@.len() == 3 * n,
                texels@.len() == i,
                forall|j: int|
                    0 <= j < i ==> #[trigger] texels@[j] == pack_rgb(
                        rgb@[3 * j],
                        rgb@[3 * j + 1],
                        rgb@[3 * j + 2],
                    ),
            decreases n - i,
        {
            let r = rgb[3 * i] as u32;
            let g = rgb[3 * i + 1] as u32;
            let b = rgb[3 * i + 2] as u32;
            let color = r * 0x10000 + g * 0x100 + b;
            texels.push(color);
            i = i + 1;
        }
        let ghost t = texels@;
        self.texture = Some(texels);
        assert(self.texture_view() == Some(t));
        self.texture_width = width;
        self.texture_height = height;
        assert(self.verts_view() == old(self).verts_view());
        assert(self.faces_view() == old(self).faces_view());
        assert(self.texcoords_view() == old(self).texcoords_view());
        assert(t.len() == self.texture_width_view() * self.texture_height_view());
        Ok(())
    }

    pub fn texcoord(&self, idx: usize) -> (r: TexCoord)
        requires
            idx < self.texcoords_view().len(),
        ensures
            r == self.texcoords_view()[idx as int],
    {
        self.texcoords[idx]
    }

    /// The texels of the attached texture, row-major from the top, if any.
    pub fn texture(&self) -> (r: Option<&Vec<u32>>)
        ensures
            match r {
                Some(t) => self.texture_view() == Some(t@),
                None => self.texture_view() is None,
            },
    {
        match &self.texture {
            Some(t) => Some(t),
            None => None,
        }
    }

    pub fn texture_width(&self) -> (r: usize)
        ensures
            r == self.texture_width_view(),
    {
        self.texture_width
    }

    pub fn texture_height(&self) -> (r: usize)
        ensures
            r == self.texture_height_view(),
    {
        self.texture_height
    }

    pub fn nverts(&self) -> (r: usize)
        ensures
            r == self.verts_view().len(),
    {
        self.verts.len()
    }

    pub fn nfaces(&self) -> (r: usize)
        ensures
            r == self.faces_view().len(),
    {
        self.faces.len()
    }

    pub fn face(&self, idx: usize) -> (r: Face)
        requires
            idx < self.faces_view().len(),
        ensures
            r == self.faces_view()[idx as int],
    {
        self.faces[idx]
    }

    pub fn vert(&self, i: usize) -> (r: Vec3i)
        requires
            i < self.verts_view().len(),
        ensures
            r == self.verts_view()[i as int],
    {
        self.verts[i]
    }
}

} // verus!
