use vstd::prelude::*;

use crate::model::{FaceCorner, Model};
use crate::rasterizer::Rasterizer;
use crate::screen::to_screen;
use crate::shading::{face_shade, shade_spec, within_shade_limit};
use crate::triangle::{filled_colors, filled_depths, ScreenVertex};
use crate::vec3::Vec3i;

verus! {

/// A face corner on screen: the projected position of its vertex, taken from
/// `ndc`, with the corner's texture coordinates; `None` when the position
/// does not fit the pixel type.
pub open spec fn corner_on_screen(m: Model, ndc: Seq<Vec3i>, c: FaceCorner, width: int, height: int) -> Option<ScreenVertex> {
    match to_screen(ndc[c.vert as int], width, height) {
        Some(s) => {
            let t = m.texcoords_view()[c.texcoord as int];
            Some(ScreenVertex { x: s.x, y: s.y, z: s.z, u: t.u, v: t.v })
        },
        None => None,
    }
}

/// The triangle and flat color that face `k` is drawn with, or `None` when
/// the face is skipped: it faces away from the light, or a corner does not
/// fit the pixel type.
pub open spec fn face_draw(m: Model, ndc: Seq<Vec3i>, light: Vec3i, width: int, height: int, k: int) -> Option<
    (ScreenVertex, ScreenVertex, ScreenVertex, u32),
> {
    let f = m.faces_view()[k];
    let vs = m.verts_view();
    match shade_spec(vs[f.a.vert as int], vs[f.b.vert as int], vs[f.c.vert as int], light) {
        None => None,
        Some(color) => match (
            corner_on_screen(m, ndc, f.a, width, height),
            corner_on_screen(m, ndc, f.b, width, height),
            corner_on_screen(m, ndc, f.c, width, height),
        ) {
            (Some(a), Some(b), Some(c)) => Some((a, b, c, color)),
            _ => None,
        },
    }
}

/// The colors and depths of frame `r` after drawing the first `k` faces of
/// `m` in order.
pub open spec fn draw_faces(r: Rasterizer, m: Model, ndc: Seq<Vec3i>, light: Vec3i, k: nat) -> (Seq<u32>, Seq<i32>)
    decreases k,
{
    if k == 0 {
        (r.buffer@, r.zbuffer@)
    } else {
        let (colors, depths) = draw_faces(r, m, ndc, light, (k - 1) as nat);
        let w = r.width as int;
        match face_draw(m, ndc, light, w, r.height as int, k - 1) {
            None => (colors, depths),
            Some((a, b, c, color)) => (
                filled_colors(
                    colors,
                    depths,
                    w,
                    r.texture_view(),
                    r.texture_width as int,
                    r.texture_height as int,
                    a,
                    b,
                    c,
                    color,
                ),
                filled_depths(depths, w, a, b, c),
            ),
        }
    }
}

impl Rasterizer {
    fn corner_exec(&self, m: &Model, ndc: &Vec<Vec3i>, c: FaceCorner) -> (r: Option<ScreenVertex>)
        requires
            self.wf(),
            m.wf(),
            c.vert < ndc@.len(),
            c.texcoord < m.texcoords_view().len(),
        ensures
            r == corner_on_screen(*m, ndc@, c, self.width as int, self.height as int),
    {
        match self.world2screen(ndc[c.vert]) {
            Some(s) => {
                let t = m.texcoord(c.texcoord);
                Some(ScreenVertex { x: s.x, y: s.y, z: s.z, u: t.u, v: t.v })
            },
            None => None,
        }
    }

    /// Draws every face of `m` in index order. `ndc` holds each vertex of the
    /// model already transformed to normalized device coordinates. A face
    /// is shaded flat under `light` in model space and skipped when it faces
    /// away; otherwise its corners are mapped to the screen and the triangle
    /// is filled with the depth test, textured when a texture is bound.
    pub fn draw_model(&mut self, m: &Model, ndc: &Vec<Vec3i>, light: Vec3i)
        requires
            old(self).wf(),
            m.wf(),
            ndc@.len() == m.verts_view().len(),
            within_shade_limit(light),
        ensures
            final(self).wf(),
            final(self).width == old(self).width,
            final(self).height == old(self).height,
            final(self).texture == old(self).texture,
            final(self).texture_width == old(self).texture_width,
            final(self).texture_height == old(self).texture_height,
            (final(self).buffer@, final(self).zbuffer@) == draw_faces(
                *old(self),
                *m,
                ndc@,
                light,
                m.faces_view().len(),
            ),
    {
        let ghost pre = *self;
        let nfaces = m.nfaces();
        let mut k: usize = 0;
        while k < nfaces
            invariant
                self.wf(),
                m.wf(),
                ndc@.len() == m.verts_view().len(),
                within_shade_limit(light),
                nfaces == m.faces_view().len(),
                k <= nfaces,
                pre == *old(self),
                self.width == pre.width,
                self.height == pre.height,
                self.texture == pre.texture,
                self.texture_width == pre.texture_width,
                self.texture_height == pre.texture_height,
                (self.buffer@, self.zbuffer@) == draw_faces(pre, *m, ndc@, light, k as nat),
            decreases nfaces - k,
        {
            let f = m.face(k);
            assert(crate::model::face_ok(
                m.faces_view()[k as int],
                m.verts_view().len() as int,
                m.texcoords_view().len() as int,
            ));
            let v0 = m.vert(f.a.vert);
            let v1 = m.vert(f.b.vert);
            let v2 = m.vert(f.c.vert);
            assert(within_shade_limit(m.verts_view()[f.a.vert as int]));
            assert(within_shade_limit(m.verts_view()[f.b.vert as int]));
            assert(within_shade_limit(m.verts_view()[f.c.vert as int]));
            if let Some(color) = face_shade(v0, v1, v2, light) {
                let ca = self.corner_exec(m, ndc, f.a);
                let cb = self.corner_exec(m, ndc, f.b);
                let cc = self.corner_exec(m, ndc, f.c);
                match (ca, cb, cc) {
                    (Some(a), Some(b), Some(c)) => {
                        self.fill_triangle(a, b, c, color);
                    },
                    _ => {},
                }
            }
            k = k + 1;
        }
    }
}

} // verus!
