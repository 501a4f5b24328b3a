//! The render target: one color and one depth for each cell of a
//! fixed-size image, stored row by row.

use vstd::prelude::*;
use vstd::arithmetic::div_mod::{lemma_fundamental_div_mod, lemma_fundamental_div_mod_converse};
use crate::pixel::{Pixel, BLACK};
use crate::types::{Depth, Dimension, PixCoord, NEG_INFINITY};
use crate::utils::{clamp, interpolate, lemma_interpolate_bounds, spec_interpolate};

verus! {

/// What an image holds: its size, the color and the depth of each cell in
/// row-major order (the cell in column `x` of row `y` has index
/// `y * w + x`), and whether writes are tested against the stored depth.
pub struct Grid {
    pub w: nat,
    pub h: nat,
    pub colors: Seq<Pixel>,
    pub depths: Seq<Depth>,
    pub depth_test: bool,
}

impl Grid {
    /// Both sequences hold one entry for each cell.
    pub open spec fn wf(self) -> bool {
        &&& self.colors.len() == self.w * self.h
        &&& self.depths.len() == self.w * self.h
    }

    /// Whether the two images have the same size and the same setting of
    /// the depth test.
    pub open spec fn same_shape(self, other: Grid) -> bool {
        &&& self.w == other.w
        &&& self.h == other.h
        &&& self.depth_test == other.depth_test
        &&& self.colors.len() == other.colors.len()
        &&& self.depths.len() == other.depths.len()
    }

    /// The image of the given size in which nothing was drawn.
    pub open spec fn blank(w: nat, h: nat) -> Grid {
        Grid {
            w,
            h,
            colors: Seq::new(w * h, |i: int| BLACK),
            depths: Seq::new(w * h, |i: int| NEG_INFINITY),
            depth_test: false,
        }
    }

    /// Whether column `x` of row `y` is a cell of the image.
    pub open spec fn in_bounds(self, x: int, y: int) -> bool {
        0 <= x < self.w && 0 <= y < self.h
    }

    /// The index of the cell in column `x` of row `y`.
    pub open spec fn index(self, x: int, y: int) -> int {
        y * self.w + x
    }

    /// The color of the cell in column `x` of row `y`.
    pub open spec fn color_at(self, x: int, y: int) -> Pixel {
        self.colors[self.index(x, y)]
    }

    /// The depth of the cell in column `x` of row `y`.
    pub open spec fn depth_at(self, x: int, y: int) -> Depth {
        self.depths[self.index(x, y)]
    }

    /// Whether a write at `depth` replaces what cell `i` holds: always
    /// while the depth test is off, and only if it is nearer than the
    /// stored depth while the test is on.
    pub open spec fn admits(self, i: int, depth: Depth) -> bool {
        !self.depth_test || depth > self.depths[i]
    }

    /// The image after a write of `color` at `depth` to cell `i`.
    pub open spec fn put_at(self, i: int, depth: Depth, color: Pixel) -> Grid {
        if self.admits(i, depth) {
            Grid {
                colors: self.colors.update(i, color),
                depths: self.depths.update(i, depth),
                ..self
            }
        } else {
            self
        }
    }

    /// The image after a write of `color` at `depth` to column `x` of row
    /// `y`, which changes nothing if that is no cell of the image.
    pub open spec fn put(self, x: int, y: int, depth: Depth, color: Pixel) -> Grid {
        if self.in_bounds(x, y) {
            self.put_at(self.index(x, y), depth, color)
        } else {
            self
        }
    }

    /// The depth that a span from column `x1` at depth `d1` to column `x2`
    /// at depth `d2` has in column `x`.
    pub open spec fn span_depth(x1: int, x2: int, d1: Depth, d2: Depth, x: int) -> Depth {
        spec_interpolate(d1 as int, d2 as int, x - x1, x2 - x1) as Depth
    }

    /// Whether cell `i` lies in row `y`, in a column from `x1` to `x2`.
    pub open spec fn in_span(self, i: int, x1: int, x2: int, y: int) -> bool {
        self.w > 0 && i / (self.w as int) == y && x1 <= i % (self.w as int) <= x2
    }

    /// Whether drawing the span replaces what cell `i` holds.
    pub open spec fn span_writes(
        self,
        i: int,
        x1: int,
        x2: int,
        y: int,
        d1: Depth,
        d2: Depth,
    ) -> bool {
        &&& self.in_span(i, x1, x2, y)
        &&& self.admits(i, Self::span_depth(x1, x2, d1, d2, i % (self.w as int)))
    }

    /// The image after drawing a horizontal span in row `y` from column
    /// `x1` at depth `d1` to column `x2` at depth `d2`, both ends
    /// included: each cell of the image in the span is written with
    /// `color` at the depth interpolated for its column. Columns and rows
    /// outside the image are skipped, and a span with `x2 < x1` is empty.
    pub open spec fn put_row(
        self,
        x1: int,
        x2: int,
        y: int,
        d1: Depth,
        d2: Depth,
        color: Pixel,
    ) -> Grid {
        Grid {
            colors: Seq::new(
                self.colors.len(),
                |i: int|
                    if self.span_writes(i, x1, x2, y, d1, d2) {
                        color
                    } else {
                        self.colors[i]
                    },
            ),
            depths: Seq::new(
                self.depths.len(),
                |i: int|
                    if self.span_writes(i, x1, x2, y, d1, d2) {
                        Self::span_depth(x1, x2, d1, d2, i % (self.w as int))
                    } else {
                        self.depths[i]
                    },
            ),
            ..self
        }
    }

    /// The image with every cell in `color` and the depths as they were.
    pub open spec fn painted(self, color: Pixel) -> Grid {
        Grid { colors: Seq::new(self.colors.len(), |i: int| color), ..self }
    }

    /// The image with every cell in the background color at the farthest
    /// depth.
    pub open spec fn cleared(self) -> Grid {
        Grid {
            colors: Seq::new(self.colors.len(), |i: int| BLACK),
            depths: Seq::new(self.depths.len(), |i: int| NEG_INFINITY),
            ..self
        }
    }
}

/// The index of a cell of the image is in range and determines its column
/// and its row.
pub proof fn lemma_cell_index(g: Grid, x: int, y: int)
    requires
        g.wf(),
        g.in_bounds(x, y),
    ensures
        0 <= g.index(x, y) < g.colors.len(),
        g.index(x, y) / (g.w as int) == y,
        g.index(x, y) % (g.w as int) == x,
{
    let w = g.w as int;
    let h = g.h as int;
    assert(y * w + x < w * h) by (nonlinear_arith)
        requires
            0 <= x < w,
            0 <= y < h,
    ;
    assert(0 <= y * w) by (nonlinear_arith)
        requires
            0 <= y,
            0 <= w,
    ;
    lemma_fundamental_div_mod_converse(y * w + x, w, y, x);
}

/// Each index in range is that of exactly one cell of the image.
pub proof fn lemma_index_cell(g: Grid, i: int)
    requires
        g.wf(),
        0 <= i < g.colors.len(),
    ensures
        g.w > 0,
        g.in_bounds(i % (g.w as int), i / (g.w as int)),
        g.index(i % (g.w as int), i / (g.w as int)) == i,
{
    let w = g.w as int;
    let h = g.h as int;
    assert(w > 0) by (nonlinear_arith)
        requires
            0 <= i < w * h,
            w >= 0,
    ;
    lemma_fundamental_div_mod(i, w);
    let q = i / w;
    let r = i % w;
    assert(0 <= q < h) by (nonlinear_arith)
        requires
            0 <= i < w * h,
            i == w * q + r,
            0 <= r < w,
    ;
    assert(w * q == q * w) by (nonlinear_arith);
}

/// What drawing a span does to each cell of the image: a cell of row `y`
/// in a column from `x1` to `x2` is written with `color` at the depth
/// interpolated for its column, if the image admits the write; every
/// other cell stays as it was.
pub proof fn lemma_put_row_cell(
    g: Grid,
    x1: int,
    x2: int,
    y: int,
    d1: Depth,
    d2: Depth,
    color: Pixel,
    cx: int,
    cy: int,
)
    requires
        g.wf(),
        g.in_bounds(cx, cy),
    ensures
        g.put_row(x1, x2, y, d1, d2, color).wf(),
        g.put_row(x1, x2, y, d1, d2, color).w == g.w,
        g.put_row(x1, x2, y, d1, d2, color).h == g.h,
        g.put_row(x1, x2, y, d1, d2, color).depth_test == g.depth_test,
        cy == y && x1 <= cx <= x2 && g.admits(g.index(cx, cy), Grid::span_depth(x1, x2, d1, d2, cx))
            ==> g.put_row(x1, x2, y, d1, d2, color).color_at(cx, cy) == color && g.put_row(
            x1,
            x2,
            y,
            d1,
            d2,
            color,
        ).depth_at(cx, cy) == Grid::span_depth(x1, x2, d1, d2, cx),
        !(cy == y && x1 <= cx <= x2 && g.admits(
            g.index(cx, cy),
            Grid::span_depth(x1, x2, d1, d2, cx),
        )) ==> g.put_row(x1, x2, y, d1, d2, color).color_at(cx, cy) == g.color_at(cx, cy)
            && g.put_row(x1, x2, y, d1, d2, color).depth_at(cx, cy) == g.depth_at(cx, cy),
{
    lemma_cell_index(g, cx, cy);
}

/// Writing one pixel is drawing the span that begins and ends at it.
pub proof fn lemma_put_is_put_row(g: Grid, x: int, y: int, depth: Depth, color: Pixel)
    requires
        g.wf(),
    ensures
        g.put(x, y, depth, color) == g.put_row(x, x, y, depth, depth, color),
{
    let a = g.put(x, y, depth, color);
    let b = g.put_row(x, x, y, depth, depth, color);
    assert forall|i: int| 0 <= i < g.colors.len() implies (g.in_span(i, x, x, y) <==> g.in_bounds(
        x,
        y,
    ) && i == g.index(x, y)) by {
        lemma_index_cell(g, i);
        if g.in_bounds(x, y) {
            lemma_cell_index(g, x, y);
        }
    }
    if g.in_bounds(x, y) {
        lemma_cell_index(g, x, y);
    }
    assert(a.colors =~= b.colors);
    assert(a.depths =~= b.depths);
}

/// Clearing an image that was cleared changes nothing, and clearing makes
/// images of one shape equal, whatever they held.
pub proof fn lemma_cleared(g: Grid, other: Grid)
    ensures
        g.cleared().cleared() == g.cleared(),
        g.cleared().same_shape(g),
        g.wf() ==> g.cleared().wf(),
        forall|i: int| 0 <= i < g.colors.len() ==> g.cleared().colors[i] == BLACK,
        forall|i: int| 0 <= i < g.depths.len() ==> g.cleared().depths[i] == NEG_INFINITY,
        g.same_shape(other) ==> g.cleared() == other.cleared(),
{
    assert(g.cleared().cleared().colors =~= g.cleared().colors);
    assert(g.cleared().cleared().depths =~= g.cleared().depths);
    if g.same_shape(other) {
        assert(g.cleared().colors =~= other.cleared().colors);
        assert(g.cleared().depths =~= other.cleared().depths);
    }
}

/// The image: its size is fixed when it is made, and every cell always
/// holds a color and a depth.
pub struct Texture {
    w: Dimension,
    h: Dimension,
    pixels: Vec<Pixel>,
    depths: Vec<Depth>,
    depth_test: bool,
}

impl View for Texture {
    type V = Grid;

    closed spec fn view(&self) -> Grid {
        Grid {
            w: self.w as nat,
            h: self.h as nat,
            colors: self.pixels@,
            depths: self.depths@,
            depth_test: self.depth_test,
        }
    }
}

/// A vector of `n` copies of `value`.
fn filled<T: Copy>(value: T, n: usize) -> (v: Vec<T>)
    ensures
        v@ == Seq::new(n as nat, |i: int| value),
{
    let mut v: Vec<T> = Vec::with_capacity(n);
    let mut i: usize = 0;
    while i < n
        invariant
            i <= n,
            v@ == Seq::new(i as nat, |j: int| value),
        decreases n - i,
    {
        v.push(value);
        i += 1;
    }
    v
}

impl Texture {
    #[verifier::type_invariant]
    spec fn inv(self) -> bool {
        &&& self.pixels@.len() == self.w * self.h
        &&& self.depths@.len() == self.w * self.h
    }

    /// Makes an image of `w` columns and `h` rows in which nothing was
    /// drawn, with the depth test off.
    pub fn new(w: Dimension, h: Dimension) -> (t: Texture)
        requires
            w * h <= usize::MAX,
        ensures
            t@ == Grid::blank(w as nat, h as nat),
            t@.wf(),
    {
        let num_pixels = w as usize * h as usize;
        Texture {
            w,
            h,
            pixels: filled(BLACK, num_pixels),
            depths: filled(NEG_INFINITY, num_pixels),
            depth_test: false,
        }
    }

    /// The number of columns.
    pub fn width(&self) -> (w: Dimension)
        ensures
            w == self@.w,
            self@.wf(),
    {
        proof {
            use_type_invariant(self);
        }
        self.w
    }

    /// The number of rows.
    pub fn height(&self) -> (h: Dimension)
        ensures
            h == self@.h,
            self@.wf(),
    {
        proof {
            use_type_invariant(self);
        }
        self.h
    }

    /// The colors of all cells, row by row.
    pub fn pixels(&self) -> (colors: &Vec<Pixel>)
        ensures
            colors@ == self@.colors,
            self@.wf(),
    {
        proof {
            use_type_invariant(self);
        }
        &self.pixels
    }

    /// The depths of all cells, row by row.
    pub fn depths(&self) -> (depths: &Vec<Depth>)
        ensures
            depths@ == self@.depths,
            self@.wf(),
    {
        proof {
            use_type_invariant(self);
        }
        &self.depths
    }

    /// Whether writes are tested against the stored depth.
    pub fn depth_test(&self) -> (on: bool)
        ensures
            on == self@.depth_test,
    {
        self.depth_test
    }

    /// Turns the depth test on or off. While it is on, a write replaces
    /// what a cell holds only if its depth is nearer than the stored one;
    /// while it is off, the last write wins.
    pub fn set_depth_test(&mut self, on: bool)
        ensures
            final(self)@ == (Grid { depth_test: on, ..old(self)@ }),
    {
        proof {
            use_type_invariant(&*self);
        }
        self.depth_test = on;
    }

    /// Writes `color` at `depth` to column `x` of row `y`. Coordinates
    /// outside the image are ignored.
    pub fn set_pixel(&mut self, x: PixCoord, y: PixCoord, depth: Depth, color: Pixel)
        ensures
            final(self)@ == old(self)@.put(x as int, y as int, depth, color),
            old(self)@.in_bounds(x as int, y as int) && old(self)@.admits(
                old(self)@.index(x as int, y as int),
                depth,
            ) ==> final(self)@.color_at(x as int, y as int) == color && final(self)@.depth_at(
                x as int,
                y as int,
            ) == depth,
            !old(self)@.in_bounds(x as int, y as int) ==> final(self)@ == old(self)@,
    {
        proof {
            use_type_invariant(&*self);
        }
        if x < 0 || y < 0 {
            return ;
        }
        if self.w as i64 <= x as i64 || self.h as i64 <= y as i64 {
            return ;
        }
        proof {
            lemma_cell_index(self@, x as int, y as int);
        }
        self.set_pixel_nocheck(x, y, depth, color)
    }

    /// Writes `color` at `depth` to the cell with index `y * w + x`,
    /// without testing that `x` is a column and `y` a row of the image.
    pub fn set_pixel_nocheck(&mut self, x: PixCoord, y: PixCoord, depth: Depth, color: Pixel)
        requires
            0 <= x,
            0 <= y,
            old(self)@.index(x as int, y as int) < old(self)@.colors.len(),
        ensures
            final(self)@ == old(self)@.put_at(old(self)@.index(x as int, y as int), depth, color),
    {
        let len = self.pixels.len();
        proof {
            use_type_invariant(&*self);
            let (xi, yi, wi) = (x as int, y as int, self.w as int);
            assert(0 <= yi * wi <= yi * wi + xi) by (nonlinear_arith)
                requires
                    xi >= 0,
                    yi >= 0,
                    wi >= 0,
            ;
            assert(yi * wi + xi < len <= usize::MAX);
        }
        let index = y as usize * self.w as usize + x as usize;
        self.write_cell(index, depth, color)
    }

    /// Writes `color` at `depth` to the cell with the given index, unless
    /// the depth test is on and refuses the write.
    fn write_cell(&mut self, index: usize, depth: Depth, color: Pixel)
        requires
            index < old(self)@.colors.len(),
        ensures
            final(self)@ == old(self)@.put_at(index as int, depth, color),
    {
        proof {
            use_type_invariant(&*self);
        }
        if self.depth_test && depth <= self.depths[index] {
            return ;
        }
        self.depths[index] = depth;
        self.pixels[index] = color;
    }

    /// Draws a horizontal span in row `y` from column `x1` at depth `d1`
    /// to column `x2` at depth `d2`, both ends included. Nothing happens
    /// if the row or the whole span lies outside the image; else the part
    /// of the span inside the image is written, each cell at the depth
    /// interpolated for its column.
    pub fn set_row(
        &mut self,
        x1: PixCoord,
        x2: PixCoord,
        y: PixCoord,
        d1: Depth,
        d2: Depth,
        color: Pixel,
    )
        ensures
            final(self)@ == old(self)@.put_row(x1 as int, x2 as int, y as int, d1, d2, color),
    {
        self.set_span(x1 as i64, x2 as i64, y as i64, d1, d2, color)
    }

    /// Draws a horizontal span as `set_row` does, for coordinates that
    /// need not fit a pixel coordinate.
    pub(crate) fn set_span(&mut self, x1: i64, x2: i64, y: i64, d1: Depth, d2: Depth, color: Pixel)
        requires
            x2 - x1 <= u32::MAX,
        ensures
            final(self)@ == old(self)@.put_row(x1 as int, x2 as int, y as int, d1, d2, color),
    {
        proof {
            use_type_invariant(&*self);
        }
        let ghost g0 = self@;
        if self.w == 0 || y < 0 || y >= self.h as i64 || x2 < 0 || x1 >= self.w as i64 || x1 > x2 {
            proof {
                assert forall|i: int| 0 <= i < g0.colors.len() implies !g0.in_span(
                    i,
                    x1 as int,
                    x2 as int,
                    y as int,
                ) by {
                    lemma_index_cell(g0, i);
                }
                let g = g0.put_row(x1 as int, x2 as int, y as int, d1, d2, color);
                assert(g.colors =~= g0.colors);
                assert(g.depths =~= g0.depths);
            }
            return ;
        }
        let len = self.pixels.len();
        let last: i64 = self.w as i64 - 1;
        let start: i64 = clamp(x1, 0, last);
        let end: i64 = clamp(x2, 0, last);
        let n: u32 = (x2 - x1) as u32;
        proof {
            lemma_cell_index(g0, 0, y as int);
        }
        let base: usize = y as usize * self.w as usize;
        let mut x: i64 = start;
        while x <= end
            invariant
                start <= x <= end + 1,
                start == (if x1 >= 0 { x1 } else { 0 }),
                end == (if x2 <= last { x2 } else { last }),
                last == self.w - 1,
                x1 <= x2,
                n == x2 - x1,
                0 <= y < self.h,
                base == y * self.w,
                len == g0.colors.len(),
                g0.wf(),
                self.inv(),
                self@.w == g0.w,
                self@.h == g0.h,
                self@.depth_test == g0.depth_test,
                self@.colors.len() == g0.colors.len(),
                self@.depths.len() == g0.depths.len(),
                forall|i: int|
                    0 <= i < g0.colors.len() ==> #[trigger] self@.colors[i] == (if g0.span_writes(
                        i,
                        x1 as int,
                        x2 as int,
                        y as int,
                        d1,
                        d2,
                    ) && i % (g0.w as int) < x {
                        color
                    } else {
                        g0.colors[i]
                    }),
                forall|i: int|
                    0 <= i < g0.depths.len() ==> #[trigger] self@.depths[i] == (if g0.span_writes(
                        i,
                        x1 as int,
                        x2 as int,
                        y as int,
                        d1,
                        d2,
                    ) && i % (g0.w as int) < x {
                        Grid::span_depth(x1 as int, x2 as int, d1, d2, i % (g0.w as int))
                    } else {
                        g0.depths[i]
                    }),
            decreases end + 1 - x,
        {
            let ghost g1 = self@;
            let ghost idx = g0.index(x as int, y as int);
            proof {
                lemma_cell_index(g0, x as int, y as int);
                lemma_interpolate_bounds(d1 as int, d2 as int, x - x1, x2 - x1);
            }
            let depth = interpolate(d1, d2, (x - x1) as u32, n);
            self.write_cell(base + x as usize, depth, color);
            proof {
                assert(depth == Grid::span_depth(x1 as int, x2 as int, d1, d2, x as int));
                assert(g1.admits(idx, depth) == g0.admits(idx, depth));
                assert forall|i: int| 0 <= i < g0.colors.len() && i != idx implies !(g0.in_span(
                    i,
                    x1 as int,
                    x2 as int,
                    y as int,
                ) && i % (g0.w as int) == x) by {
                    lemma_index_cell(g0, i);
                }
            }
            x += 1;
        }
        proof {
            assert forall|i: int| 0 <= i < g0.colors.len() && g0.in_span(
                i,
                x1 as int,
                x2 as int,
                y as int,
            ) implies i % (g0.w as int) < x by {
                lemma_index_cell(g0, i);
            }
            let g = g0.put_row(x1 as int, x2 as int, y as int, d1, d2, color);
            assert(self@.colors =~= g.colors);
            assert(self@.depths =~= g.depths);
        }
    }

    /// Gives every cell the color `color` and leaves the depths as they
    /// are.
    pub fn set_all_pixels(&mut self, color: Pixel)
        ensures
            final(self)@ == old(self)@.painted(color),
    {
        proof {
            use_type_invariant(&*self);
        }
        let n = self.pixels.len();
        let mut i: usize = 0;
        while i < n
            invariant
                i <= n,
                n == self.pixels@.len(),
                self.inv(),
                self.w == old(self).w,
                self.h == old(self).h,
                self.depth_test == old(self).depth_test,
                self.depths@ == old(self).depths@,
                forall|j: int| 0 <= j < i ==> self.pixels@[j] == color,
            decreases n - i,
        {
            self.pixels[i] = color;
            i += 1;
        }
        assert(self@.colors =~= old(self)@.painted(color).colors);
    }

    /// Resets every cell to the background color at the farthest depth,
    /// whatever it held.
    pub fn clear(&mut self)
        ensures
            final(self)@ == old(self)@.cleared(),
            forall|i: int| 0 <= i < final(self)@.colors.len() ==> final(self)@.colors[i] == BLACK,
            forall|i: int|
                0 <= i < final(self)@.depths.len() ==> final(self)@.depths[i] == NEG_INFINITY,
    {
        proof {
            use_type_invariant(&*self);
        }
        let n = self.pixels.len();
        let mut i: usize = 0;
        while i < n
            invariant
                i <= n,
                n == self.pixels@.len(),
                n == self.depths@.len(),
                self.inv(),
                self.w == old(self).w,
                self.h == old(self).h,
                self.depth_test == old(self).depth_test,
                forall|j: int| 0 <= j < i ==> self.pixels@[j] == BLACK,
                forall|j: int| 0 <= j < i ==> self.depths@[j] == NEG_INFINITY,
            decreases n - i,
        {
            self.pixels[i] = BLACK;
            self.depths[i] = NEG_INFINITY;
            i += 1;
        }
        assert(self@.colors =~= old(self)@.cleared().colors);
        assert(self@.depths =~= old(self)@.cleared().depths);
    }
}

} // verus!
