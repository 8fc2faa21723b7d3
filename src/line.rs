use vstd::prelude::*;
use vstd::arithmetic::div_mod::lemma_fundamental_div_mod_converse;

use crate::rasterizer::{
    abs, col_of, in_buffer, lemma_index_pixel, lemma_pixel_index, row_of, Rasterizer,
};
use crate::vec2::Vec2i;

verus! {

/// Whether the segment from `(x0, y0)` to `(x1, y1)` is closer to vertical than
/// to horizontal; the line then advances one row per step instead of one column.
pub open spec fn is_steep(x0: int, y0: int, x1: int, y1: int) -> bool {
    abs(x0 - x1) < abs(y0 - y1)
}

/// The endpoints in the line's own frame, `(a0, b0, a1, b1)`: `a` is the
/// dominant axis, the one that advances by one per pixel, and `a0 <= a1`.
pub open spec fn line_frame(x0: int, y0: int, x1: int, y1: int) -> (int, int, int, int) {
    let (a0, b0, a1, b1) = if is_steep(x0, y0, x1, y1) {
        (y0, x0, y1, x1)
    } else {
        (x0, y0, x1, y1)
    };
    if a0 > a1 {
        (a1, b1, a0, b0)
    } else {
        (a0, b0, a1, b1)
    }
}

/// How far the minor coordinate has moved from `b0` at dominant coordinate `a`:
/// `(a - a0) * |b1 - b0| / (a1 - a0)` rounded to the nearest integer, halves
/// rounded down.
pub open spec fn minor_offset(a0: int, b0: int, a1: int, b1: int, a: int) -> int {
    if a1 == a0 {
        0
    } else {
        (2 * (a - a0) * abs(b1 - b0) + (a1 - a0) - 1) / (2 * (a1 - a0))
    }
}

/// The minor coordinate of the pixel drawn at dominant coordinate `a`.
pub open spec fn minor_at(a0: int, b0: int, a1: int, b1: int, a: int) -> int {
    if b1 >= b0 {
        b0 + minor_offset(a0, b0, a1, b1, a)
    } else {
        b0 - minor_offset(a0, b0, a1, b1, a)
    }
}

/// The dominant coordinate of pixel `(px, py)` for this line.
pub open spec fn major_of(x0: int, y0: int, x1: int, y1: int, px: int, py: int) -> int {
    if is_steep(x0, y0, x1, y1) {
        py
    } else {
        px
    }
}

/// The minor coordinate of pixel `(px, py)` for this line.
pub open spec fn minor_of(x0: int, y0: int, x1: int, y1: int, px: int, py: int) -> int {
    if is_steep(x0, y0, x1, y1) {
        px
    } else {
        py
    }
}

/// Whether the line from `(x0, y0)` to `(x1, y1)` covers pixel `(px, py)`:
/// exactly one pixel per dominant coordinate between the endpoints, the one
/// nearest the ideal segment.
pub open spec fn line_covers(x0: int, y0: int, x1: int, y1: int, px: int, py: int) -> bool {
    let (a0, b0, a1, b1) = line_frame(x0, y0, x1, y1);
    let a = major_of(x0, y0, x1, y1, px, py);
    &&& a0 <= a <= a1
    &&& minor_of(x0, y0, x1, y1, px, py) == minor_at(a0, b0, a1, b1, a)
}

/// `line_covers`, restricted to dominant coordinates below `stop`.
pub open spec fn line_covers_below(
    x0: int,
    y0: int,
    x1: int,
    y1: int,
    px: int,
    py: int,
    stop: int,
) -> bool {
    line_covers(x0, y0, x1, y1, px, py) && major_of(x0, y0, x1, y1, px, py) < stop
}

/// The offset kept by the error accumulator is the rounded one.
proof fn lemma_offset_from_error(k: int, dx: int, ady: int, m: int, err: int)
    requires
        dx > 0,
        k >= 0,
        ady >= 0,
        err == 2 * k * ady - 2 * dx * m,
        -dx < err <= dx,
    ensures
        m == (2 * k * ady + dx - 1) / (2 * dx),
{
    assert(2 * k * ady + dx - 1 == m * (2 * dx) + (err + dx - 1)) by (nonlinear_arith)
        requires
            err == 2 * k * ady - 2 * dx * m,
    ;
    lemma_fundamental_div_mod_converse(2 * k * ady + dx - 1, 2 * dx, m, err + dx - 1);
}

/// The rounded offset brackets the exact one: with `k = a - a0`,
/// `2·dx·m <= 2·k·|dy| + dx - 1 < 2·dx·(m + 1)`.
proof fn lemma_offset_bounds(a0: int, b0: int, a1: int, b1: int, a: int)
    requires
        a0 < a1,
        a0 <= a,
    ensures
        2 * (a1 - a0) * minor_offset(a0, b0, a1, b1, a) <= 2 * (a - a0) * abs(b1 - b0) + (a1
            - a0) - 1,
        2 * (a - a0) * abs(b1 - b0) + (a1 - a0) - 1 < 2 * (a1 - a0) * (minor_offset(
            a0,
            b0,
            a1,
            b1,
            a,
        ) + 1),
{
    crate::arith::lemma_div_bracket(2 * (a - a0) * abs(b1 - b0) + (a1 - a0) - 1, 2 * (a1 - a0));
}

/// Both endpoints of a line are drawn.
pub proof fn lemma_line_endpoints(x0: int, y0: int, x1: int, y1: int)
    ensures
        line_covers(x0, y0, x1, y1, x0, y0),
        line_covers(x0, y0, x1, y1, x1, y1),
{
    let (a0, b0, a1, b1) = line_frame(x0, y0, x1, y1);
    if a1 > a0 {
        let dx = a1 - a0;
        let ady = abs(b1 - b0);
        assert(2 * (a0 - a0) * ady + dx - 1 == 0 * (2 * dx) + (dx - 1)) by (nonlinear_arith);
        lemma_fundamental_div_mod_converse(2 * (a0 - a0) * ady + dx - 1, 2 * dx, 0, dx - 1);
        assert(2 * (a1 - a0) * ady + dx - 1 == ady * (2 * dx) + (dx - 1)) by (nonlinear_arith)
            requires
                dx == a1 - a0,
        ;
        lemma_fundamental_div_mod_converse(2 * (a1 - a0) * ady + dx - 1, 2 * dx, ady, dx - 1);
        assert(minor_offset(a0, b0, a1, b1, a0) == 0);
        assert(minor_offset(a0, b0, a1, b1, a1) == ady);
    }
}

/// A line whose endpoints coincide covers exactly that one pixel.
pub proof fn lemma_line_single_point(x0: int, y0: int, px: int, py: int)
    ensures
        line_covers(x0, y0, x0, y0, px, py) <==> (px == x0 && py == y0),
{
    lemma_line_endpoints(x0, y0, x0, y0);
}

/// At each dominant coordinate `a` between the endpoints, the minor
/// coordinate drawn differs from the ideal segment's,
/// `b0 + (a - a0)·(b1 - b0)/(a1 - a0)`, by at most one half.
proof fn lemma_minor_nearest(a0: int, b0: int, a1: int, b1: int, a: int)
    requires
        a0 <= a <= a1,
    ensures
        abs(2 * (a1 - a0) * (minor_at(a0, b0, a1, b1, a) - b0) - 2 * (a - a0) * (b1 - b0)) <= a1
            - a0,
{
    if a1 > a0 {
        lemma_offset_bounds(a0, b0, a1, b1, a);
        let m = minor_offset(a0, b0, a1, b1, a);
        let dx = a1 - a0;
        let ady = abs(b1 - b0);
        let b = minor_at(a0, b0, a1, b1, a);
        let lhs = 2 * (a1 - a0) * (b - b0) - 2 * (a - a0) * (b1 - b0);
        let e = 2 * dx * m - 2 * (a - a0) * ady;
        if b1 >= b0 {
            assert(lhs == e) by (nonlinear_arith)
                requires
                    b - b0 == m,
                    b1 - b0 == ady,
                    dx == a1 - a0,
                    lhs == 2 * (a1 - a0) * (b - b0) - 2 * (a - a0) * (b1 - b0),
                    e == 2 * dx * m - 2 * (a - a0) * ady,
            ;
        } else {
            assert(lhs == -e) by (nonlinear_arith)
                requires
                    b - b0 == -m,
                    b1 - b0 == -ady,
                    dx == a1 - a0,
                    lhs == 2 * (a1 - a0) * (b - b0) - 2 * (a - a0) * (b1 - b0),
                    e == 2 * dx * m - 2 * (a - a0) * ady,
            ;
        }
        assert(-dx <= e <= dx) by (nonlinear_arith)
            requires
                2 * dx * m <= 2 * (a - a0) * ady + dx - 1,
                2 * (a - a0) * ady + dx - 1 < 2 * dx * (m + 1),
                e == 2 * dx * m - 2 * (a - a0) * ady,
        ;
    } else {
        let b = minor_at(a0, b0, a1, b1, a);
        assert(2 * (a1 - a0) * (b - b0) - 2 * (a - a0) * (b1 - b0) == 0) by (nonlinear_arith)
            requires
                a1 == a0,
                a == a0,
        ;
    }
}

/// The pixel drawn at each dominant coordinate is the one whose center lies
/// nearest the ideal segment: its minor coordinate `b` differs from the
/// segment's, `b0 + (a - a0)·(b1 - b0)/(a1 - a0)`, by at most one half.
pub proof fn lemma_line_nearest(x0: int, y0: int, x1: int, y1: int, px: int, py: int)
    requires
        line_covers(x0, y0, x1, y1, px, py),
    ensures
        ({
            let (a0, b0, a1, b1) = line_frame(x0, y0, x1, y1);
            let a = major_of(x0, y0, x1, y1, px, py);
            let b = minor_of(x0, y0, x1, y1, px, py);
            abs(2 * (a1 - a0) * (b - b0) - 2 * (a - a0) * (b1 - b0)) <= a1 - a0
        }),
{
    let (a0, b0, a1, b1) = line_frame(x0, y0, x1, y1);
    lemma_minor_nearest(a0, b0, a1, b1, major_of(x0, y0, x1, y1, px, py));
}

/// Whether the center of pixel `(px, py)` lies on the segment from
/// `(x0, y0)` to `(x1, y1)`: collinear with the endpoints and between them.
pub open spec fn center_on_segment(x0: int, y0: int, x1: int, y1: int, px: int, py: int) -> bool {
    &&& (px - x0) * (y1 - y0) == (py - y0) * (x1 - x0)
    &&& (x0 <= px <= x1 || x1 <= px <= x0)
    &&& (y0 <= py <= y1 || y1 <= py <= y0)
}

/// Every pixel whose center the ideal segment passes through is drawn.
pub proof fn lemma_line_through_centers(x0: int, y0: int, x1: int, y1: int, px: int, py: int)
    requires
        center_on_segment(x0, y0, x1, y1, px, py),
    ensures
        line_covers(x0, y0, x1, y1, px, py),
{
    let (a0, b0, a1, b1) = line_frame(x0, y0, x1, y1);
    let a = major_of(x0, y0, x1, y1, px, py);
    let b = minor_of(x0, y0, x1, y1, px, py);
    // The collinearity holds in the line's own frame too.
    if is_steep(x0, y0, x1, y1) {
        if y0 > y1 {
            assert((a - a0) * (b1 - b0) == (b - b0) * (a1 - a0)) by (nonlinear_arith)
                requires
                    (px - x0) * (y1 - y0) == (py - y0) * (x1 - x0),
                    a == py,
                    b == px,
                    a0 == y1,
                    b0 == x1,
                    a1 == y0,
                    b1 == x0,
            ;
        } else {
            assert((a - a0) * (b1 - b0) == (b - b0) * (a1 - a0)) by (nonlinear_arith)
                requires
                    (px - x0) * (y1 - y0) == (py - y0) * (x1 - x0),
                    a == py,
                    b == px,
                    a0 == y0,
                    b0 == x0,
                    a1 == y1,
                    b1 == x1,
            ;
        }
    } else {
        if x0 > x1 {
            assert((a - a0) * (b1 - b0) == (b - b0) * (a1 - a0)) by (nonlinear_arith)
                requires
                    (px - x0) * (y1 - y0) == (py - y0) * (x1 - x0),
                    a == px,
                    b == py,
                    a0 == x1,
                    b0 == y1,
                    a1 == x0,
                    b1 == y0,
            ;
        } else {
            assert((a - a0) * (b1 - b0) == (b - b0) * (a1 - a0)) by (nonlinear_arith)
                requires
                    (px - x0) * (y1 - y0) == (py - y0) * (x1 - x0),
                    a == px,
                    b == py,
                    a0 == x0,
                    b0 == y0,
                    a1 == x1,
                    b1 == y1,
            ;
        }
    }
    assert(a0 <= a <= a1);
    lemma_minor_nearest(a0, b0, a1, b1, a);
    let d = minor_at(a0, b0, a1, b1, a);
    let dx = a1 - a0;
    if dx == 0 {
        assert(abs(b1 - b0) <= dx);
    } else {
        assert(d == b) by (nonlinear_arith)
            requires
                dx > 0,
                dx == a1 - a0,
                (a - a0) * (b1 - b0) == (b - b0) * (a1 - a0),
                -dx <= 2 * (a1 - a0) * (d - b0) - 2 * (a - a0) * (b1 - b0) <= dx,
        ;
    }
}

/// Pixels drawn at consecutive dominant coordinates touch: their minor
/// coordinates differ by at most one, so the line is one connected run.
pub proof fn lemma_line_connected(x0: int, y0: int, x1: int, y1: int, a: int)
    requires
        line_frame(x0, y0, x1, y1).0 <= a < line_frame(x0, y0, x1, y1).2,
    ensures
        ({
            let (a0, b0, a1, b1) = line_frame(x0, y0, x1, y1);
            abs(minor_at(a0, b0, a1, b1, a + 1) - minor_at(a0, b0, a1, b1, a)) <= 1
        }),
{
    let (a0, b0, a1, b1) = line_frame(x0, y0, x1, y1);
    lemma_offset_bounds(a0, b0, a1, b1, a);
    lemma_offset_bounds(a0, b0, a1, b1, a + 1);
    let m = minor_offset(a0, b0, a1, b1, a);
    let m2 = minor_offset(a0, b0, a1, b1, a + 1);
    let dx = a1 - a0;
    let ady = abs(b1 - b0);
    assert(abs(x0 - x1) >= abs(y0 - y1) ==> ady <= dx);
    assert(ady <= dx);
    assert(0 <= m2 - m <= 1) by (nonlinear_arith)
        requires
            dx > 0,
            0 <= ady <= dx,
            2 * dx * m <= 2 * (a - a0) * ady + dx - 1,
            2 * (a - a0) * ady + dx - 1 < 2 * dx * (m + 1),
            2 * dx * m2 <= 2 * (a + 1 - a0) * ady + dx - 1,
            2 * (a + 1 - a0) * ady + dx - 1 < 2 * dx * (m2 + 1),
    ;
}

/// What drawing the line from `p0` to `p1` in `color` does to the colors of
/// `pre`, giving `post`: each pixel that `line_covers` names takes `color`,
/// every other pixel keeps its color.
pub open spec fn line_result(pre: Rasterizer, post: Rasterizer, p0: Vec2i, p1: Vec2i, color: u32) -> bool {
    &&& post.buffer@.len() == pre.buffer@.len()
    &&& forall|i: int|
        0 <= i < post.buffer@.len() ==> post.buffer@[i] == if line_covers(
            p0.x as int,
            p0.y as int,
            p1.x as int,
            p1.y as int,
            col_of(i, pre.width as int),
            row_of(i, pre.width as int),
        ) {
            color
        } else {
            pre.buffer@[i]
        }
}

/// The pixel drawn at dominant coordinate `a`.
pub open spec fn line_pixel(x0: int, y0: int, x1: int, y1: int, a: int) -> (int, int) {
    let (a0, b0, a1, b1) = line_frame(x0, y0, x1, y1);
    let b = minor_at(a0, b0, a1, b1, a);
    if is_steep(x0, y0, x1, y1) {
        (b, a)
    } else {
        (a, b)
    }
}

/// The minor coordinate stays between those of the endpoints.
proof fn lemma_minor_between(a0: int, b0: int, a1: int, b1: int, a: int)
    requires
        a0 <= a <= a1,
        abs(b1 - b0) <= a1 - a0,
    ensures
        0 <= minor_offset(a0, b0, a1, b1, a) <= abs(b1 - b0),
{
    if a1 > a0 {
        lemma_offset_bounds(a0, b0, a1, b1, a);
        let m = minor_offset(a0, b0, a1, b1, a);
        let dx = a1 - a0;
        let ady = abs(b1 - b0);
        assert(0 <= (a - a0) * ady <= dx * ady) by (nonlinear_arith)
            requires
                0 <= a - a0 <= dx,
                0 <= ady,
        ;
        assert(m <= ady) by (nonlinear_arith)
            requires
                dx > 0,
                2 * dx * m <= 2 * (a - a0) * ady + dx - 1,
                (a - a0) * ady <= dx * ady,
        ;
        assert(0 <= m) by (nonlinear_arith)
            requires
                dx > 0,
                0 <= (a - a0) * ady,
                2 * (a - a0) * ady + dx - 1 < 2 * dx * (m + 1),
        ;
    }
}

/// Drawn on a buffer with no cell of `color` yet, between two endpoints
/// inside the buffer, a line leaves `color` in exactly one cell per dominant
/// coordinate from one endpoint to the other: the first and last cells are
/// the endpoints, and each cell is one step further along the dominant axis
/// than the one before and at most one step away along the other, so the
/// cells form one connected run.
pub proof fn lemma_line_cells(pre: Rasterizer, post: Rasterizer, p0: Vec2i, p1: Vec2i, color: u32)
    requires
        pre.wf(),
        line_result(pre, post, p0, p1, color),
        forall|i: int| 0 <= i < pre.buffer@.len() ==> pre.buffer@[i] != color,
        in_buffer(p0.x as int, p0.y as int, pre.width as int, pre.height as int),
        in_buffer(p1.x as int, p1.y as int, pre.width as int, pre.height as int),
    ensures
        ({
            let (x0, y0, x1, y1) = (p0.x as int, p0.y as int, p1.x as int, p1.y as int);
            let (a0, b0, a1, b1) = line_frame(x0, y0, x1, y1);
            let w = pre.width as int;
            &&& forall|a: int|
                a0 <= a <= a1 ==> {
                    let (x, y) = #[trigger] line_pixel(x0, y0, x1, y1, a);
                    in_buffer(x, y, w, pre.height as int) && post.buffer@[y * w + x] == color
                }
            &&& forall|i: int|
                0 <= i < post.buffer@.len() ==> (post.buffer@[i] == color <==> exists|a: int|
                    a0 <= a <= a1 && #[trigger] line_pixel(x0, y0, x1, y1, a) == (
                        col_of(i, w),
                        row_of(i, w),
                    ))
            &&& (line_pixel(x0, y0, x1, y1, a0) == (x0, y0) && line_pixel(x0, y0, x1, y1, a1)
                == (x1, y1)) || (line_pixel(x0, y0, x1, y1, a0) == (x1, y1) && line_pixel(
                x0,
                y0,
                x1,
                y1,
                a1,
            ) == (x0, y0))
            &&& forall|a: int|
                a0 <= a < a1 ==> {
                    let (u, v) = #[trigger] line_pixel(x0, y0, x1, y1, a);
                    let (u2, v2) = line_pixel(x0, y0, x1, y1, a + 1);
                    if is_steep(x0, y0, x1, y1) {
                        v2 == v + 1 && abs(u2 - u) <= 1
                    } else {
                        u2 == u + 1 && abs(v2 - v) <= 1
                    }
                }
        }),
{
    let (x0, y0, x1, y1) = (p0.x as int, p0.y as int, p1.x as int, p1.y as int);
    let (a0, b0, a1, b1) = line_frame(x0, y0, x1, y1);
    let w = pre.width as int;
    let h = pre.height as int;
    lemma_line_endpoints(x0, y0, x1, y1);
    assert forall|a: int| a0 <= a <= a1 implies {
        let (x, y) = #[trigger] line_pixel(x0, y0, x1, y1, a);
        in_buffer(x, y, w, h) && post.buffer@[y * w + x] == color
    } by {
        lemma_minor_between(a0, b0, a1, b1, a);
        let (x, y) = line_pixel(x0, y0, x1, y1, a);
        lemma_pixel_index(x, y, w, h);
        assert(line_covers(x0, y0, x1, y1, x, y));
    };
    assert forall|i: int| 0 <= i < post.buffer@.len() implies (post.buffer@[i] == color
        <==> exists|a: int|
        a0 <= a <= a1 && #[trigger] line_pixel(x0, y0, x1, y1, a) == (col_of(i, w), row_of(i, w))) by {
        let (px, py) = (col_of(i, w), row_of(i, w));
        if line_covers(x0, y0, x1, y1, px, py) {
            let a = major_of(x0, y0, x1, y1, px, py);
            assert(line_pixel(x0, y0, x1, y1, a) == (px, py));
        }
    };
    assert forall|a: int| a0 <= a < a1 implies {
        let (u, v) = #[trigger] line_pixel(x0, y0, x1, y1, a);
        let (u2, v2) = line_pixel(x0, y0, x1, y1, a + 1);
        if is_steep(x0, y0, x1, y1) {
            v2 == v + 1 && abs(u2 - u) <= 1
        } else {
            u2 == u + 1 && abs(v2 - v) <= 1
        }
    } by {
        lemma_line_connected(x0, y0, x1, y1, a);
    };
    assert(line_covers(x0, y0, x1, y1, x0, y0));
    assert(line_covers(x0, y0, x1, y1, x1, y1));
}

impl Rasterizer {
    /// Draws the line from `p0` to `p1` in `color`: each pixel that
    /// `line_covers` names and that lies inside the buffer is set to `color`;
    /// pixels outside the buffer are skipped.
    pub fn draw_line(&mut self, p0: Vec2i, p1: Vec2i, color: u32)
        requires
            old(self).wf(),
        ensures
            final(self).wf(),
            final(self).width == old(self).width,
            final(self).height == old(self).height,
            final(self).zbuffer@ == old(self).zbuffer@,
            final(self).texture == old(self).texture,
            final(self).texture_width == old(self).texture_width,
            final(self).texture_height == old(self).texture_height,
            line_result(*old(self), *final(self), p0, p1, color),
    {
        let ghost (gx0, gy0, gx1, gy1) = (p0.x as int, p0.y as int, p1.x as int, p1.y as int);
        let ghost w = self.width as int;
        let x0 = p0.x as i64;
        let y0 = p0.y as i64;
        let x1 = p1.x as i64;
        let y1 = p1.y as i64;
        let adx = if x0 > x1 { x0 - x1 } else { x1 - x0 };
        let ady = if y0 > y1 { y0 - y1 } else { y1 - y0 };
        let steep = adx < ady;
        let (mut a0, mut b0, mut a1, mut b1) = if steep {
            (y0, x0, y1, x1)
        } else {
            (x0, y0, x1, y1)
        };
        if a0 > a1 {
            let (ta, tb) = (a0, b0);
            a0 = a1;
            b0 = b1;
            a1 = ta;
            b1 = tb;
        }
        assert((a0 as int, b0 as int, a1 as int, b1 as int) == line_frame(gx0, gy0, gx1, gy1));
        let dx = a1 - a0;
        let dy_abs = if b1 > b0 { b1 - b0 } else { b0 - b1 };
        assert(dy_abs <= dx);
        let derror2 = dy_abs * 2;
        let step: i64 = if b1 > b0 { 1 } else { -1 };
        let mut error2: i64 = 0;
        let mut b = b0;
        let mut a = a0;
        let ghost mut m: int = 0;
        let width = self.width;
        let height = self.height;
        let n = self.buffer.len();
        assert(2 * (a - a0) * dy_abs - 2 * dx * m == 0) by (nonlinear_arith)
            requires
                a == a0,
                m == 0,
        ;
        while a <= a1
            invariant
                self.wf(),
                self.width == width,
                self.height == height,
                width == w,
                n == width * height,
                self.zbuffer@ == old(self).zbuffer@,
                self.texture == old(self).texture,
                self.texture_width == old(self).texture_width,
                self.texture_height == old(self).texture_height,
                self.buffer@.len() == old(self).buffer@.len(),
                (a0 as int, b0 as int, a1 as int, b1 as int) == line_frame(gx0, gy0, gx1, gy1),
                steep == is_steep(gx0, gy0, gx1, gy1),
                i32::MIN <= a0 <= a1 <= i32::MAX,
                i32::MIN <= b0 <= i32::MAX,
                i32::MIN <= b1 <= i32::MAX,
                dx == a1 - a0,
                dy_abs == abs(b1 - b0),
                dy_abs <= dx,
                derror2 == 2 * dy_abs,
                step == (if b1 > b0 { 1int } else { -1int }),
                a0 <= a <= a1 + 1,
                0 <= m,
                m <= a - a0,
                b == (if b1 >= b0 { b0 + m } else { b0 - m }),
                error2 == 2 * (a - a0) * dy_abs - 2 * dx * m,
                dx == 0 ==> error2 == 0 && m == 0,
                dx > 0 ==> -dx < error2 <= dx,
                forall|i: int|
                    0 <= i < self.buffer@.len() ==> self.buffer@[i] == if line_covers_below(
                        gx0,
                        gy0,
                        gx1,
                        gy1,
                        col_of(i, w),
                        row_of(i, w),
                        a as int,
                    ) {
                        color
                    } else {
                        old(self).buffer@[i]
                    },
            decreases a1 + 1 - a,
        {
            proof {
                if dx > 0 {
                    lemma_offset_from_error(a - a0, dx as int, dy_abs as int, m, error2 as int);
                }
                assert(b == minor_at(a0 as int, b0 as int, a1 as int, b1 as int, a as int));
            }
            let (px, py) = if steep {
                (b, a)
            } else {
                (a, b)
            };
            let ghost old_buf = self.buffer@;
            if 0 <= px && px < width as i64 && 0 <= py && py < height as i64 {
                proof {
                    lemma_pixel_index(px as int, py as int, w, height as int);
                }
                let idx = py as usize * width + px as usize;
                self.buffer.set(idx, color);
                assert forall|i: int| 0 <= i < self.buffer@.len() implies self.buffer@[i]
                    == if line_covers_below(
                    gx0,
                    gy0,
                    gx1,
                    gy1,
                    col_of(i, w),
                    row_of(i, w),
                    a + 1,
                ) {
                    color
                } else {
                    old(self).buffer@[i]
                } by {
                    lemma_index_pixel(i, w, height as int);
                };
            } else {
                assert forall|i: int| 0 <= i < self.buffer@.len() implies self.buffer@[i]
                    == if line_covers_below(
                    gx0,
                    gy0,
                    gx1,
                    gy1,
                    col_of(i, w),
                    row_of(i, w),
                    a + 1,
                ) {
                    color
                } else {
                    old(self).buffer@[i]
                } by {
                    lemma_index_pixel(i, w, height as int);
                };
            }
            error2 = error2 + derror2;
            if error2 > dx {
                b = b + step;
                error2 = error2 - dx * 2;
                proof {
                    m = m + 1;
                }
            }
            proof {
                assert(error2 == 2 * (a + 1 - a0) * dy_abs - 2 * dx * m) by (nonlinear_arith)
                    requires
                        error2 == 2 * (a - a0) * dy_abs - 2 * dx * m + 2 * dy_abs || error2 == 2 * (a - a0) * dy_abs - 2 * dx * (m - 1) + 2 * dy_abs - 2 * dx,
                ;
            }
            a = a + 1;
        }
    }
}

} // verus!
