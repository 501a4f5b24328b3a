//! The pixels of a line segment, and what drawing a sequence of pixels
//! does to an image.

use vstd::prelude::*;
use vstd::arithmetic::div_mod::{lemma_fundamental_div_mod, lemma_fundamental_div_mod_converse};
use crate::pixel::Pixel;
use crate::texture::{lemma_cell_index, Grid};
use crate::types::{Depth, NEG_INFINITY};

verus! {

/// The distance between two coordinates.
pub open spec fn distance(a: int, b: int) -> int {
    if b >= a {
        b - a
    } else {
        a - b
    }
}

/// The coordinate `k` pixels away from `from`, in the direction of `to`
/// (towards smaller coordinates if the two are equal).
pub open spec fn advance(from: int, to: int, k: int) -> int {
    if to > from {
        from + k
    } else {
        from - k
    }
}

/// How far a line has moved along its minor axis when it has moved `k`
/// pixels along its major axis: the integer nearest to
/// `k * minor / major`, and the smaller one where two are equally near.
pub open spec fn minor_steps(k: int, minor: int, major: int) -> int {
    if major == 0 {
        0
    } else {
        (2 * k * minor + major - 1) / (2 * major)
    }
}

/// Whether the line moves by one pixel along x in every step. Lines that
/// are as wide as they are high do.
pub open spec fn x_major(x1: int, y1: int, x2: int, y2: int) -> bool {
    distance(x1, x2) >= distance(y1, y2)
}

/// The number of steps between the first and the last pixel of the line.
pub open spec fn line_steps(x1: int, y1: int, x2: int, y2: int) -> int {
    if x_major(x1, y1, x2, y2) {
        distance(x1, x2)
    } else {
        distance(y1, y2)
    }
}

/// Pixel `k` of the line from `(x1, y1)` to `(x2, y2)`.
pub open spec fn line_pixel(x1: int, y1: int, x2: int, y2: int, k: int) -> (int, int) {
    if x_major(x1, y1, x2, y2) {
        (advance(x1, x2, k), advance(y1, y2, minor_steps(k, distance(y1, y2), distance(x1, x2))))
    } else {
        (advance(x1, x2, minor_steps(k, distance(x1, x2), distance(y1, y2))), advance(y1, y2, k))
    }
}

/// The pixels of the line from `(x1, y1)` to `(x2, y2)`, in the order in
/// which they are drawn: one for each coordinate along the major axis.
pub open spec fn line_pixels(x1: int, y1: int, x2: int, y2: int) -> Seq<(int, int)> {
    Seq::new(
        (line_steps(x1, y1, x2, y2) + 1) as nat,
        |k: int| line_pixel(x1, y1, x2, y2, k),
    )
}

/// `minor_steps` is the one integer `s` for which twice the distance from
/// `s * major` to `k * minor` is more than `-major` and at most `major`.
pub proof fn lemma_minor_steps_nearest(k: int, minor: int, major: int, s: int)
    requires
        major > 0,
    ensures
        s == minor_steps(k, minor, major) <==> -major < 2 * (k * minor - s * major) <= major,
{
    let a = 2 * k * minor + major - 1;
    let d = 2 * major;
    let q = a / d;
    let r = a % d;
    lemma_fundamental_div_mod(a, d);
    assert(2 * k * minor == 2 * (k * minor)) by (nonlinear_arith);
    assert(d * q == 2 * (q * major)) by (nonlinear_arith)
        requires
            d == 2 * major,
    ;
    if -major < 2 * (k * minor - s * major) <= major {
        let rs = a - s * d;
        assert(s * d == 2 * (s * major)) by (nonlinear_arith)
            requires
                d == 2 * major,
        ;
        lemma_fundamental_div_mod_converse(a, d, s, rs);
    }
    if s == q {
        assert(-major < 2 * (k * minor - s * major) <= major);
    }
}

/// A line never moves farther along its minor axis than the minor
/// distance, and at its last pixel it has moved exactly that far.
pub proof fn lemma_minor_steps_range(k: int, minor: int, major: int)
    requires
        0 <= minor <= major,
        0 <= k <= major,
    ensures
        0 <= minor_steps(k, minor, major) <= minor,
        minor_steps(0, minor, major) == 0,
        minor_steps(major, minor, major) == minor,
{
    if major > 0 {
        let s = minor_steps(k, minor, major);
        lemma_minor_steps_nearest(k, minor, major, s);
        assert(0 <= s <= minor) by (nonlinear_arith)
            requires
                -major < 2 * (k * minor - s * major) <= major,
                0 <= minor <= major,
                0 <= k <= major,
                major > 0,
        ;
        lemma_minor_steps_nearest(0, minor, major, 0);
        assert(0 * minor - 0 * major == 0);
        lemma_minor_steps_nearest(major, minor, major, minor);
        assert(major * minor - minor * major == 0) by (nonlinear_arith);
    }
}

/// With each step along its major axis a line moves along its minor axis
/// by one pixel or not at all.
pub proof fn lemma_minor_steps_advance(k: int, minor: int, major: int)
    requires
        0 <= minor <= major,
        major > 0,
    ensures
        minor_steps(k + 1, minor, major) == minor_steps(k, minor, major) || minor_steps(
            k + 1,
            minor,
            major,
        ) == minor_steps(k, minor, major) + 1,
{
    let s = minor_steps(k, minor, major);
    lemma_minor_steps_nearest(k, minor, major, s);
    lemma_minor_steps_nearest(k + 1, minor, major, s);
    lemma_minor_steps_nearest(k + 1, minor, major, s + 1);
    assert((k + 1) * minor == k * minor + minor) by (nonlinear_arith);
    assert((s + 1) * major == s * major + major) by (nonlinear_arith);
}

/// Each pixel of a line touches the one before it: it lies one pixel
/// further along the major axis and at most one pixel further along the
/// minor axis, both in the direction of the second end.
pub proof fn lemma_line_connected(x1: int, y1: int, x2: int, y2: int, k: int)
    requires
        0 <= k < line_steps(x1, y1, x2, y2),
    ensures
        ({
            let p = line_pixel(x1, y1, x2, y2, k);
            let q = line_pixel(x1, y1, x2, y2, k + 1);
            if x_major(x1, y1, x2, y2) {
                &&& q.0 == advance(p.0, x2, 1)
                &&& q.1 == p.1 || q.1 == advance(p.1, y2, 1)
            } else {
                &&& q.1 == advance(p.1, y2, 1)
                &&& q.0 == p.0 || q.0 == advance(p.0, x2, 1)
            }
        }),
{
    if x_major(x1, y1, x2, y2) {
        lemma_minor_steps_advance(k, distance(y1, y2), distance(x1, x2));
        lemma_minor_steps_range(k, distance(y1, y2), distance(x1, x2));
        lemma_minor_steps_range(k + 1, distance(y1, y2), distance(x1, x2));
    } else {
        lemma_minor_steps_advance(k, distance(x1, x2), distance(y1, y2));
        lemma_minor_steps_range(k, distance(x1, x2), distance(y1, y2));
        lemma_minor_steps_range(k + 1, distance(x1, x2), distance(y1, y2));
    }
}

/// A line begins at its first end and finishes at its second.
pub proof fn lemma_line_ends(x1: int, y1: int, x2: int, y2: int)
    ensures
        line_pixels(x1, y1, x2, y2).len() == line_steps(x1, y1, x2, y2) + 1,
        line_pixels(x1, y1, x2, y2).first() == (x1, y1),
        line_pixels(x1, y1, x2, y2).last() == (x2, y2),
{
    let n = line_steps(x1, y1, x2, y2);
    if x_major(x1, y1, x2, y2) {
        lemma_minor_steps_range(n, distance(y1, y2), distance(x1, x2));
    } else {
        lemma_minor_steps_range(n, distance(x1, x2), distance(y1, y2));
    }
}

/// Each pixel of a line lies in the rectangle that its two ends span.
pub proof fn lemma_line_pixel_between(x1: int, y1: int, x2: int, y2: int, k: int)
    requires
        0 <= k <= line_steps(x1, y1, x2, y2),
    ensures
        x1 <= line_pixel(x1, y1, x2, y2, k).0 <= x2 || x2 <= line_pixel(x1, y1, x2, y2, k).0 <= x1,
        y1 <= line_pixel(x1, y1, x2, y2, k).1 <= y2 || y2 <= line_pixel(x1, y1, x2, y2, k).1 <= y1,
{
    if x_major(x1, y1, x2, y2) {
        lemma_minor_steps_range(k, distance(y1, y2), distance(x1, x2));
    } else {
        lemma_minor_steps_range(k, distance(x1, x2), distance(y1, y2));
    }
}

impl Grid {
    /// The image after writing `color` at `depth` to each of `pixels` in
    /// turn.
    pub open spec fn plot(self, pixels: Seq<(int, int)>, depth: Depth, color: Pixel) -> Grid
        decreases pixels.len(),
    {
        if pixels.len() == 0 {
            self
        } else {
            self.plot(pixels.drop_last(), depth, color).put(
                pixels.last().0,
                pixels.last().1,
                depth,
                color,
            )
        }
    }
}

/// Writing pixels keeps the size of the image and the setting of its depth
/// test.
pub proof fn lemma_plot_shape(g: Grid, pixels: Seq<(int, int)>, depth: Depth, color: Pixel)
    requires
        g.wf(),
    ensures
        g.plot(pixels, depth, color).same_shape(g),
        g.plot(pixels, depth, color).wf(),
    decreases pixels.len(),
{
    if pixels.len() > 0 {
        let mid = g.plot(pixels.drop_last(), depth, color);
        lemma_plot_shape(g, pixels.drop_last(), depth, color);
        if mid.in_bounds(pixels.last().0, pixels.last().1) {
            lemma_cell_index(mid, pixels.last().0, pixels.last().1);
        }
    }
}

/// Under the depth test no cell admits a write at the farthest depth:
/// writing pixels at that depth changes nothing.
pub proof fn lemma_plot_refused(g: Grid, pixels: Seq<(int, int)>, depth: Depth, color: Pixel)
    requires
        g.depth_test,
        depth == NEG_INFINITY,
    ensures
        g.plot(pixels, depth, color) == g,
    decreases pixels.len(),
{
    if pixels.len() > 0 {
        lemma_plot_refused(g, pixels.drop_last(), depth, color);
    }
}

/// Writing pixels one after the other leaves each cell either as it was
/// or with the color and the depth that were written. A cell is written
/// if it is one of the pixels and the image admits the write to it.
pub proof fn lemma_plot_cell(
    g: Grid,
    pixels: Seq<(int, int)>,
    depth: Depth,
    color: Pixel,
    x: int,
    y: int,
)
    requires
        g.wf(),
        g.in_bounds(x, y),
    ensures
        (g.plot(pixels, depth, color).color_at(x, y) == color && g.plot(
            pixels,
            depth,
            color,
        ).depth_at(x, y) == depth) || (g.plot(pixels, depth, color).color_at(x, y) == g.color_at(
            x,
            y,
        ) && g.plot(pixels, depth, color).depth_at(x, y) == g.depth_at(x, y)),
        pixels.contains((x, y)) && g.admits(g.index(x, y), depth) ==> g.plot(
            pixels,
            depth,
            color,
        ).color_at(x, y) == color && g.plot(pixels, depth, color).depth_at(x, y) == depth,
        !pixels.contains((x, y)) ==> g.plot(pixels, depth, color).color_at(x, y) == g.color_at(x, y)
            && g.plot(pixels, depth, color).depth_at(x, y) == g.depth_at(x, y),
    decreases pixels.len(),
{
    if pixels.len() > 0 {
        let init = pixels.drop_last();
        let (px, py) = pixels.last();
        let mid = g.plot(init, depth, color);
        lemma_plot_cell(g, init, depth, color, x, y);
        lemma_plot_shape(g, init, depth, color);
        lemma_cell_index(mid, x, y);
        if mid.in_bounds(px, py) {
            lemma_cell_index(mid, px, py);
        }
        assert(pixels[pixels.len() - 1] == (px, py));
        if pixels.contains((x, y)) && (x, y) != (px, py) {
            let j = choose|j: int| 0 <= j < pixels.len() && pixels[j] == (x, y);
            assert(init[j] == (x, y));
        }
        if init.contains((x, y)) {
            let j = choose|j: int| 0 <= j < init.len() && init[j] == (x, y);
            assert(pixels[j] == (x, y));
        }
    }
}

} // verus!
