//! The drawing operations: points, line segments and triangles in pixel
//! space, drawn into an image in the current color.

use vstd::prelude::*;
use crate::line::{
    advance, distance, lemma_line_ends, lemma_line_pixel_between, lemma_minor_steps_nearest,
    lemma_minor_steps_range, lemma_plot_cell, lemma_plot_refused, lemma_plot_shape, line_pixel,
    line_pixels,
    line_steps, minor_steps, x_major,
};
use crate::pixel::{shade, spec_shade, Pixel, BLACK, WHITE};
use crate::scan::{
    bottom_flat_spans, leftmost, lemma_put_spans_concat, lemma_put_spans_shape, rightmost,
    sort_by_y, split_point, top_flat_spans, triangle_spans,
};
use crate::texture::{lemma_put_row_cell, Grid, Texture};
use crate::types::{Depth, Dimension, PixCoord, Point, Sign, Triangle, NEG_INFINITY};
use crate::utils::{interpolate, lemma_interpolate_bounds};

verus! {

/// The side of the square that stands for a point, in pixels.
pub const POINT_SIZE: PixCoord = 7;

impl Grid {
    /// The image after drawing, in each of `rows` rows from row `y`
    /// downwards, the span from column `x1` to column `x2` at `depth`.
    pub open spec fn put_block(
        self,
        x1: int,
        x2: int,
        y: int,
        rows: nat,
        depth: Depth,
        color: Pixel,
    ) -> Grid
        decreases rows,
    {
        if rows == 0 {
            self
        } else {
            self.put_block(x1, x2, y, (rows - 1) as nat, depth, color).put_row(
                x1,
                x2,
                y + rows - 1,
                depth,
                depth,
                color,
            )
        }
    }

    /// The image after drawing the square that stands for a point, with
    /// the point in its middle.
    pub open spec fn put_point(self, x: int, y: int, depth: Depth, color: Pixel) -> Grid {
        self.put_block(
            x - POINT_SIZE / 2,
            x + POINT_SIZE / 2,
            y - POINT_SIZE / 2,
            POINT_SIZE as nat,
            depth,
            color,
        )
    }
}

/// Drawing a block keeps the size of the image and the setting of its
/// depth test.
pub proof fn lemma_put_block_shape(
    g: Grid,
    x1: int,
    x2: int,
    y: int,
    rows: nat,
    depth: Depth,
    color: Pixel,
)
    ensures
        g.put_block(x1, x2, y, rows, depth, color).same_shape(g),
    decreases rows,
{
    if rows > 0 {
        lemma_put_block_shape(g, x1, x2, y, (rows - 1) as nat, depth, color);
    }
}

/// What drawing a block does to each cell of the image: a cell in one of
/// the rows and in a column from `x1` to `x2` is written with `color` at
/// `depth`, if the image admits the write; every other cell stays as it
/// was.
pub proof fn lemma_put_block_cell(
    g: Grid,
    x1: int,
    x2: int,
    y: int,
    rows: nat,
    depth: Depth,
    color: Pixel,
    cx: int,
    cy: int,
)
    requires
        g.wf(),
        g.in_bounds(cx, cy),
    ensures
        y <= cy < y + rows && x1 <= cx <= x2 && g.admits(g.index(cx, cy), depth) ==> g.put_block(
            x1,
            x2,
            y,
            rows,
            depth,
            color,
        ).color_at(cx, cy) == color && g.put_block(x1, x2, y, rows, depth, color).depth_at(cx, cy)
            == depth,
        !(y <= cy < y + rows && x1 <= cx <= x2 && g.admits(g.index(cx, cy), depth))
            ==> g.put_block(x1, x2, y, rows, depth, color).color_at(cx, cy) == g.color_at(cx, cy)
            && g.put_block(x1, x2, y, rows, depth, color).depth_at(cx, cy) == g.depth_at(cx, cy),
    decreases rows,
{
    if rows > 0 {
        let mid = g.put_block(x1, x2, y, (rows - 1) as nat, depth, color);
        lemma_put_block_cell(g, x1, x2, y, (rows - 1) as nat, depth, color, cx, cy);
        lemma_put_block_shape(g, x1, x2, y, (rows - 1) as nat, depth, color);
        lemma_put_row_cell(mid, x1, x2, y + rows - 1, depth, depth, color, cx, cy);
        if x1 <= cx <= x2 {
            lemma_interpolate_bounds(depth as int, depth as int, cx - x1, x2 - x1);
        }
    }
}

/// What a renderer holds: the image and the color in which it draws.
pub struct DrawState {
    pub grid: Grid,
    pub color: Pixel,
}

/// Draws into an image of its own.
pub struct Renderer {
    texture: Texture,
    color: Pixel,
}

impl View for Renderer {
    type V = DrawState;

    closed spec fn view(&self) -> DrawState {
        DrawState { grid: self.texture@, color: self.color }
    }
}

impl Renderer {
    /// Makes a renderer with an image of `w` columns and `h` rows in which
    /// nothing was drawn. It draws in white.
    pub fn new(w: Dimension, h: Dimension) -> (r: Renderer)
        requires
            w * h <= usize::MAX,
        ensures
            r@ == (DrawState { grid: Grid::blank(w as nat, h as nat), color: WHITE }),
            r@.grid.wf(),
    {
        Renderer { texture: Texture::new(w, h), color: WHITE }
    }

    /// The image.
    pub fn texture(&self) -> (t: &Texture)
        ensures
            t@ == self@.grid,
    {
        &self.texture
    }

    /// The color in which this renderer draws.
    pub fn color(&self) -> (c: Pixel)
        ensures
            c == self@.color,
    {
        self.color
    }

    /// Sets the color in which this renderer draws.
    pub fn set_color(&mut self, color: Pixel)
        ensures
            final(self)@ == (DrawState { color, ..old(self)@ }),
    {
        self.color = color;
    }

    /// Turns the depth test of the image on or off.
    pub fn set_depth_test(&mut self, on: bool)
        ensures
            final(self)@ == (DrawState {
                grid: Grid { depth_test: on, ..old(self)@.grid },
                ..old(self)@
            }),
    {
        self.texture.set_depth_test(on);
    }

    /// Resets every cell of the image to the background color at the
    /// farthest depth.
    pub fn clear(&mut self)
        ensures
            final(self)@ == (DrawState { grid: old(self)@.grid.cleared(), ..old(self)@ }),
            final(self)@.grid.same_shape(old(self)@.grid),
            forall|i: int|
                0 <= i < final(self)@.grid.colors.len() ==> final(self)@.grid.colors[i] == BLACK,
            forall|i: int|
                0 <= i < final(self)@.grid.depths.len() ==> final(self)@.grid.depths[i]
                    == NEG_INFINITY,
    {
        self.texture.clear();
    }

    /// Draws the line segment from `p1` to `p2` in the current color, at
    /// the farthest depth: one pixel for each step along the axis on which
    /// the two points lie farther apart, each as near to the straight line
    /// as a pixel can be. Pixels outside the image are skipped. While the
    /// depth test is off, both end points are drawn if they lie in the
    /// image; while it is on, no cell admits a write at the farthest
    /// depth.
    pub fn draw_line(&mut self, p1: Point, p2: Point)
        ensures
            final(self)@ == (DrawState {
                grid: old(self)@.grid.plot(
                    line_pixels(p1.x as int, p1.y as int, p2.x as int, p2.y as int),
                    NEG_INFINITY,
                    old(self)@.color,
                ),
                ..old(self)@
            }),
            final(self)@.grid.same_shape(old(self)@.grid),
            !old(self)@.grid.depth_test && old(self)@.grid.in_bounds(p1.x as int, p1.y as int)
                ==> final(self)@.grid.color_at(p1.x as int, p1.y as int) == old(self)@.color,
            !old(self)@.grid.depth_test && old(self)@.grid.in_bounds(p2.x as int, p2.y as int)
                ==> final(self)@.grid.color_at(p2.x as int, p2.y as int) == old(self)@.color,
            old(self)@.grid.depth_test ==> final(self)@ == old(self)@,
    {
        let x1: i64 = p1.x as i64;
        let y1: i64 = p1.y as i64;
        let x2: i64 = p2.x as i64;
        let y2: i64 = p2.y as i64;
        let adx: i64 = if x2 >= x1 { x2 - x1 } else { x1 - x2 };
        let ady: i64 = if y2 >= y1 { y2 - y1 } else { y1 - y2 };
        let x_step: i64 = if x2 > x1 { 1 } else { -1 };
        let y_step: i64 = if y2 > y1 { 1 } else { -1 };
        let steep = ady > adx;
        let major: i64 = if steep { ady } else { adx };
        let minor: i64 = if steep { adx } else { ady };
        let color = self.color;
        // Reading the width also tells that the image holds a cell for
        // each column of each row.
        let _width: Dimension = self.texture.width();

        let ghost g0 = self.texture@;
        let ghost pixels = line_pixels(x1 as int, y1 as int, x2 as int, y2 as int);
        let ghost mut k: int = 0;
        let ghost mut s: int = 0;
        let mut x: i64 = x1;
        let mut y: i64 = y1;
        let mut error: i64 = 0;
        loop
            invariant_except_break
                0 <= k <= major,
                k == 0 ==> s == 0,
                k > 0 ==> s == minor_steps(k - 1, minor as int, major as int),
                major > 0 ==> error == k * minor - s * major,
                major == 0 ==> error == 0,
                steep ==> y == advance(y1 as int, y2 as int, k) && x == advance(
                    x1 as int,
                    x2 as int,
                    s,
                ),
                !steep ==> x == advance(x1 as int, x2 as int, k) && y == advance(
                    y1 as int,
                    y2 as int,
                    s,
                ),
                self.texture@ == g0.plot(pixels.take(k), NEG_INFINITY, color),
            invariant
                x1 == p1.x,
                y1 == p1.y,
                x2 == p2.x,
                y2 == p2.y,
                adx == distance(x1 as int, x2 as int),
                ady == distance(y1 as int, y2 as int),
                x_step == (if x2 > x1 { 1int } else { -1 }),
                y_step == (if y2 > y1 { 1int } else { -1 }),
                steep == !x_major(x1 as int, y1 as int, x2 as int, y2 as int),
                major == line_steps(x1 as int, y1 as int, x2 as int, y2 as int),
                minor == (if steep { adx } else { ady }),
                0 <= minor <= major,
                pixels == line_pixels(x1 as int, y1 as int, x2 as int, y2 as int),
                self.color == color,
                color == old(self).color,
            ensures
                self.texture@ == g0.plot(pixels, NEG_INFINITY, color),
            decreases major - k,
        {
            let ghost km = k * minor;
            let ghost sm = s * major;
            proof {
                if major > 0 {
                    if k > 0 {
                        lemma_minor_steps_nearest(k - 1, minor as int, major as int, s);
                        assert((k - 1) * minor == km - minor) by (nonlinear_arith)
                            requires
                                km == k * minor,
                        ;
                    }
                    assert(-major < 2 * error <= 3 * major);
                }
            }
            if 2 * error > major {
                proof {
                    assert((s + 1) * major == sm + major) by (nonlinear_arith)
                        requires
                            sm == s * major,
                    ;
                    lemma_minor_steps_nearest(k, minor as int, major as int, s + 1);
                    lemma_minor_steps_range(k, minor as int, major as int);
                    s = s + 1;
                }
                if steep {
                    x += x_step;
                } else {
                    y += y_step;
                }
                error -= major;
            } else {
                proof {
                    if major > 0 {
                        lemma_minor_steps_nearest(k, minor as int, major as int, s);
                    }
                }
            }
            error += minor;
            proof {
                assert(s == minor_steps(k, minor as int, major as int));
                assert((x as int, y as int) == line_pixel(
                    x1 as int,
                    y1 as int,
                    x2 as int,
                    y2 as int,
                    k,
                ));
                lemma_line_pixel_between(x1 as int, y1 as int, x2 as int, y2 as int, k);
                assert(pixels.take(k + 1).drop_last() =~= pixels.take(k));
                assert(pixels.take(k + 1).last() == pixels[k]);
                assert((k + 1) * minor == km + minor) by (nonlinear_arith)
                    requires
                        km == k * minor,
                ;
            }
            self.texture.set_pixel(x as PixCoord, y as PixCoord, NEG_INFINITY, color);
            if steep {
                if y == y2 {
                    proof {
                        assert(pixels.take(k + 1) =~= pixels);
                    }
                    break ;
                } else {
                    y += y_step;
                }
            } else {
                if x == x2 {
                    proof {
                        assert(pixels.take(k + 1) =~= pixels);
                    }
                    break ;
                } else {
                    x += x_step;
                }
            }
            proof {
                k = k + 1;
            }
        }
        proof {
            lemma_line_ends(x1 as int, y1 as int, x2 as int, y2 as int);
            lemma_plot_shape(g0, pixels, NEG_INFINITY, color);
            if g0.depth_test {
                lemma_plot_refused(g0, pixels, NEG_INFINITY, color);
            }
            assert(pixels.contains(pixels.first()));
            assert(pixels.contains(pixels.last()));
            if g0.in_bounds(x1 as int, y1 as int) {
                lemma_plot_cell(g0, pixels, NEG_INFINITY, color, x1 as int, y1 as int);
            }
            if g0.in_bounds(x2 as int, y2 as int) {
                lemma_plot_cell(g0, pixels, NEG_INFINITY, color, x2 as int, y2 as int);
            }
        }
    }

    /// Draws the point `p` in the current color: a square of `POINT_SIZE`
    /// by `POINT_SIZE` pixels with `p` in its middle, every pixel at the
    /// depth of `p`.
    pub fn draw_point(&mut self, p: Point)
        ensures
            final(self)@ == (DrawState {
                grid: old(self)@.grid.put_point(
                    p.x as int,
                    p.y as int,
                    p.depth() as Depth,
                    old(self)@.color,
                ),
                ..old(self)@
            }),
            final(self)@.grid.same_shape(old(self)@.grid),
    {
        let d: i64 = POINT_SIZE as i64;
        let depth: Depth = -(p.z as i64);
        let color = self.color;
        let x1: i64 = p.x as i64 - d / 2;
        let x2: i64 = p.x as i64 + d / 2;
        let y: i64 = p.y as i64 - d / 2;
        let ghost g0 = self.texture@;
        let mut row: i64 = 0;
        while row < d
            invariant
                0 <= row <= d,
                d == POINT_SIZE,
                x1 == p.x - POINT_SIZE / 2,
                x2 == p.x + POINT_SIZE / 2,
                y == p.y - POINT_SIZE / 2,
                self.color == color,
                self.texture@ == g0.put_block(
                    x1 as int,
                    x2 as int,
                    y as int,
                    row as nat,
                    depth,
                    color,
                ),
            decreases d - row,
        {
            self.texture.set_span(x1, x2, y + row, depth, depth, color);
            row += 1;
        }
        proof {
            lemma_put_block_shape(
                g0,
                x1 as int,
                x2 as int,
                y as int,
                POINT_SIZE as nat,
                depth,
                color,
            );
        }
    }

    /// Fills the triangle `t` in the current color under light of the
    /// intensity `light`, unless it faces away. `facing` is the sign of
    /// the product of the normal of the triangle with its centroid: the
    /// triangle is drawn only if that is negative, and a triangle without
    /// area, for which it is zero, is never drawn. The current color
    /// stays as it is.
    pub fn fill_triangle(&mut self, t: Triangle, facing: Sign, light: u8)
        ensures
            final(self)@ == (DrawState {
                grid: if facing is Negative {
                    old(self)@.grid.put_spans(
                        triangle_spans(t),
                        spec_shade(old(self)@.color, light),
                    )
                } else {
                    old(self)@.grid
                },
                ..old(self)@
            }),
            !(facing is Negative) ==> final(self)@ == old(self)@,
            final(self)@.grid.same_shape(old(self)@.grid),
    {
        proof {
            lemma_put_spans_shape(self@.grid, triangle_spans(t), spec_shade(self@.color, light));
        }
        match facing {
            Sign::Negative => {},
            _ => {
                return ;
            },
        }
        let (top, middle, bot) = sort_by_y(t);
        let old_color = self.color;
        self.color = shade(old_color, light);
        let ghost g0 = self.texture@;
        if top.y == middle.y {
            self.fill_top_flat_triangle(Triangle { p1: top, p2: middle, p3: bot });
        } else if middle.y == bot.y {
            self.fill_bottom_flat_triangle(Triangle { p1: top, p2: middle, p3: bot });
        } else {
            let cut = split_point(top, middle, bot);
            self.fill_bottom_flat_triangle(Triangle { p1: top, p2: middle, p3: cut });
            self.fill_top_flat_triangle(Triangle { p1: middle, p2: cut, p3: bot });
            proof {
                lemma_put_spans_concat(
                    g0,
                    bottom_flat_spans(top, middle, cut),
                    top_flat_spans(middle, cut, bot),
                    self.color,
                );
            }
        }
        self.color = old_color;
    }

    /// Fills, in the current color, a triangle whose second and third
    /// corner are level and whose first corner, the apex, is not below
    /// them: one span for each row from the apex down to the row above
    /// the level edge, between the two edges that leave the apex, and
    /// then the level edge itself.
    pub fn fill_bottom_flat_triangle(&mut self, t: Triangle)
        requires
            t.p2.y == t.p3.y,
            t.p1.y <= t.p2.y,
        ensures
            final(self)@ == (DrawState {
                grid: old(self)@.grid.put_spans(
                    bottom_flat_spans(t.p1, t.p2, t.p3),
                    old(self)@.color,
                ),
                ..old(self)@
            }),
            final(self)@.grid.same_shape(old(self)@.grid),
    {
        proof {
            lemma_put_spans_shape(self@.grid, bottom_flat_spans(t.p1, t.p2, t.p3), self@.color);
        }
        let top = t.p1;
        let (left, right) = if t.p2.x > t.p3.x {
            (t.p3, t.p2)
        } else {
            (t.p2, t.p3)
        };
        let color = self.color;
        let rows: i64 = left.y as i64 - top.y as i64;
        let n: u32 = rows as u32;
        let ghost g0 = self.texture@;
        let ghost spans = bottom_flat_spans(t.p1, t.p2, t.p3);
        let mut k: i64 = 0;
        while k < rows
            invariant
                0 <= k <= rows,
                rows == left.y - top.y,
                n == rows,
                top == t.p1,
                left == leftmost(t.p2, t.p3),
                right == rightmost(t.p2, t.p3),
                spans == bottom_flat_spans(t.p1, t.p2, t.p3),
                spans.len() == rows + 1,
                self.color == color,
                self.texture@ == g0.put_spans(spans.take(k as int), color),
            decreases rows - k,
        {
            proof {
                lemma_interpolate_bounds(top.x as int, left.x as int, k as int, n as int);
                lemma_interpolate_bounds(top.x as int, right.x as int, k as int, n as int);
                lemma_interpolate_bounds(top.depth(), left.depth(), k as int, n as int);
                lemma_interpolate_bounds(top.depth(), right.depth(), k as int, n as int);
            }
            let x1 = interpolate(top.x as i64, left.x as i64, k as u32, n);
            let x2 = interpolate(top.x as i64, right.x as i64, k as u32, n);
            let d1 = interpolate(-(top.z as i64), -(left.z as i64), k as u32, n);
            let d2 = interpolate(-(top.z as i64), -(right.z as i64), k as u32, n);
            self.texture.set_span(x1, x2, top.y as i64 + k, d1, d2, color);
            proof {
                assert(spans.take(k + 1).drop_last() =~= spans.take(k as int));
                assert(spans.take(k + 1).last() == spans[k as int]);
            }
            k += 1;
        }
        self.texture.set_span(
            left.x as i64,
            right.x as i64,
            left.y as i64,
            -(left.z as i64),
            -(right.z as i64),
            color,
        );
        proof {
            assert(spans.drop_last() =~= spans.take(rows as int));
        }
    }

    /// Fills, in the current color, a triangle whose first and second
    /// corner are level and whose third corner, the apex, is not above
    /// them: one span for each row from the level edge down to the apex,
    /// between the two edges that lead to the apex.
    pub fn fill_top_flat_triangle(&mut self, t: Triangle)
        requires
            t.p1.y == t.p2.y,
            t.p1.y <= t.p3.y,
        ensures
            final(self)@ == (DrawState {
                grid: old(self)@.grid.put_spans(
                    top_flat_spans(t.p1, t.p2, t.p3),
                    old(self)@.color,
                ),
                ..old(self)@
            }),
            final(self)@.grid.same_shape(old(self)@.grid),
    {
        proof {
            lemma_put_spans_shape(self@.grid, top_flat_spans(t.p1, t.p2, t.p3), self@.color);
        }
        let bot = t.p3;
        let (left, right) = if t.p1.x > t.p2.x {
            (t.p2, t.p1)
        } else {
            (t.p1, t.p2)
        };
        let color = self.color;
        let rows: i64 = bot.y as i64 - left.y as i64;
        let n: u32 = rows as u32;
        let ghost g0 = self.texture@;
        let ghost spans = top_flat_spans(t.p1, t.p2, t.p3);
        let mut k: i64 = 0;
        while k <= rows
            invariant
                0 <= k <= rows + 1,
                rows == bot.y - left.y,
                n == rows,
                bot == t.p3,
                left == leftmost(t.p1, t.p2),
                right == rightmost(t.p1, t.p2),
                spans == top_flat_spans(t.p1, t.p2, t.p3),
                spans.len() == rows + 1,
                self.color == color,
                self.texture@ == g0.put_spans(spans.take(k as int), color),
            decreases rows + 1 - k,
        {
            proof {
                lemma_interpolate_bounds(left.x as int, bot.x as int, k as int, n as int);
                lemma_interpolate_bounds(right.x as int, bot.x as int, k as int, n as int);
                lemma_interpolate_bounds(left.depth(), bot.depth(), k as int, n as int);
                lemma_interpolate_bounds(right.depth(), bot.depth(), k as int, n as int);
            }
            let x1 = interpolate(left.x as i64, bot.x as i64, k as u32, n);
            let x2 = interpolate(right.x as i64, bot.x as i64, k as u32, n);
            let d1 = interpolate(-(left.z as i64), -(bot.z as i64), k as u32, n);
            let d2 = interpolate(-(right.z as i64), -(bot.z as i64), k as u32, n);
            self.texture.set_span(x1, x2, left.y as i64 + k, d1, d2, color);
            proof {
                assert(spans.take(k + 1).drop_last() =~= spans.take(k as int));
                assert(spans.take(k + 1).last() == spans[k as int]);
            }
            k += 1;
        }
        proof {
            assert(spans.take(rows + 1) =~= spans);
        }
    }
}

} // verus!
