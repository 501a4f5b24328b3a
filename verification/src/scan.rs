//! Scan conversion of triangles: the horizontal spans that fill a
//! triangle, row by row.

use vstd::prelude::*;
use crate::pixel::Pixel;
use crate::texture::Grid;
use crate::types::{Depth, PixCoord, Point, Triangle};
use crate::utils::{
    interpolate, lemma_interpolate_bounds, lemma_interpolate_monotone, spec_interpolate,
};

verus! {

/// A horizontal span of pixels: row `y`, from column `x1` at depth `d1`
/// to column `x2` at depth `d2`, both ends included.
pub struct Span {
    pub x1: int,
    pub x2: int,
    pub y: int,
    pub d1: Depth,
    pub d2: Depth,
}

impl Grid {
    /// The image after drawing `span` in `color`.
    pub open spec fn put_span(self, span: Span, color: Pixel) -> Grid {
        self.put_row(span.x1, span.x2, span.y, span.d1, span.d2, color)
    }

    /// The image after drawing each of `spans` in turn in `color`.
    pub open spec fn put_spans(self, spans: Seq<Span>, color: Pixel) -> Grid
        decreases spans.len(),
    {
        if spans.len() == 0 {
            self
        } else {
            self.put_spans(spans.drop_last(), color).put_span(spans.last(), color)
        }
    }
}

/// The column in which the edge from `a` to `b` crosses the row that lies
/// `k` of `n` rows from `a` towards `b`.
pub open spec fn edge_x(a: Point, b: Point, k: int, n: int) -> int {
    spec_interpolate(a.x as int, b.x as int, k, n)
}

/// The depth at which the edge from `a` to `b` crosses the row that lies
/// `k` of `n` rows from `a` towards `b`.
pub open spec fn edge_depth(a: Point, b: Point, k: int, n: int) -> Depth {
    spec_interpolate(a.depth(), b.depth(), k, n) as Depth
}

/// Of two points the one further to the left, and the first if neither
/// is.
pub open spec fn leftmost(a: Point, b: Point) -> Point {
    if a.x > b.x {
        b
    } else {
        a
    }
}

/// Of two points the one that `leftmost` does not choose.
pub open spec fn rightmost(a: Point, b: Point) -> Point {
    if a.x > b.x {
        a
    } else {
        b
    }
}

/// The spans that fill a triangle with the apex `top` above a horizontal
/// edge between `a` and `b`: one for each row from the apex down to the
/// row above that edge, between the two edges that leave the apex, and
/// then the horizontal edge itself.
pub open spec fn bottom_flat_spans(top: Point, a: Point, b: Point) -> Seq<Span>
    recommends
        a.y == b.y,
        top.y <= a.y,
{
    let l = leftmost(a, b);
    let r = rightmost(a, b);
    let n = l.y - top.y;
    Seq::new(
        (n + 1) as nat,
        |k: int|
            if k < n {
                Span {
                    x1: edge_x(top, l, k, n),
                    x2: edge_x(top, r, k, n),
                    y: top.y + k,
                    d1: edge_depth(top, l, k, n),
                    d2: edge_depth(top, r, k, n),
                }
            } else {
                Span {
                    x1: l.x as int,
                    x2: r.x as int,
                    y: l.y as int,
                    d1: l.depth() as Depth,
                    d2: r.depth() as Depth,
                }
            },
    )
}

/// The spans that fill a triangle with a horizontal edge between `a` and
/// `b` above the apex `bot`: one for each row from that edge down to the
/// apex, between the two edges that lead to the apex.
pub open spec fn top_flat_spans(a: Point, b: Point, bot: Point) -> Seq<Span>
    recommends
        a.y == b.y,
        a.y <= bot.y,
{
    let l = leftmost(a, b);
    let r = rightmost(a, b);
    let n = bot.y - l.y;
    Seq::new(
        (n + 1) as nat,
        |k: int|
            Span {
                x1: edge_x(l, bot, k, n),
                x2: edge_x(r, bot, k, n),
                y: l.y + k,
                d1: edge_depth(l, bot, k, n),
                d2: edge_depth(r, bot, k, n),
            },
    )
}

/// The place of the first corner among the three when they are ordered by
/// height: the number of corners that lie higher.
pub open spec fn place_of_first(t: Triangle) -> int {
    (if t.p2.y < t.p1.y { 1int } else { 0 }) + (if t.p3.y < t.p1.y { 1int } else { 0 })
}

/// The place of the second corner: the number of corners that lie higher,
/// or as high and earlier in the triangle.
pub open spec fn place_of_second(t: Triangle) -> int {
    (if t.p1.y <= t.p2.y { 1int } else { 0 }) + (if t.p3.y < t.p2.y { 1int } else { 0 })
}

/// The place of the third corner: the number of corners that lie higher
/// or as high.
pub open spec fn place_of_third(t: Triangle) -> int {
    (if t.p1.y <= t.p3.y { 1int } else { 0 }) + (if t.p2.y <= t.p3.y { 1int } else { 0 })
}

/// The corner of `t` whose place is `place`.
pub open spec fn corner_at(t: Triangle, place: int) -> Point {
    if place_of_first(t) == place {
        t.p1
    } else if place_of_second(t) == place {
        t.p2
    } else {
        t.p3
    }
}

/// The corners of `t` from the highest (smallest `y`) to the lowest.
/// Corners at the same height keep the order that they have in `t`.
pub open spec fn spec_sort_by_y(t: Triangle) -> (Point, Point, Point) {
    (corner_at(t, 0), corner_at(t, 1), corner_at(t, 2))
}

/// The point on the edge from `top` to `bot` in the row of `middle`.
pub open spec fn spec_split_point(top: Point, middle: Point, bot: Point) -> Point {
    Point {
        x: edge_x(top, bot, middle.y - top.y, bot.y - top.y) as PixCoord,
        y: middle.y,
        z: spec_interpolate(top.z as int, bot.z as int, middle.y - top.y, bot.y - top.y)
            as PixCoord,
    }
}

/// The spans that fill the triangle `t`. A triangle whose two highest
/// corners are level is filled from that edge down; one whose two lowest
/// corners are level is filled from its apex down; any other is cut in
/// two along the row of its middle corner, and the upper part is filled
/// before the lower.
pub open spec fn triangle_spans(t: Triangle) -> Seq<Span> {
    let (top, middle, bot) = spec_sort_by_y(t);
    if top.y == middle.y {
        top_flat_spans(top, middle, bot)
    } else if middle.y == bot.y {
        bottom_flat_spans(top, middle, bot)
    } else {
        let cut = spec_split_point(top, middle, bot);
        bottom_flat_spans(top, middle, cut) + top_flat_spans(middle, cut, bot)
    }
}

/// Sorting the corners by height gives each corner one place of three,
/// never puts a corner before a higher one, and keeps corners at the same
/// height in the order that they have in the triangle.
pub proof fn lemma_sort_by_y(t: Triangle)
    ensures
        0 <= place_of_first(t) <= 2,
        0 <= place_of_second(t) <= 2,
        0 <= place_of_third(t) <= 2,
        place_of_first(t) != place_of_second(t),
        place_of_first(t) != place_of_third(t),
        place_of_second(t) != place_of_third(t),
        t.p1.y <= t.p2.y <==> place_of_first(t) < place_of_second(t),
        t.p1.y <= t.p3.y <==> place_of_first(t) < place_of_third(t),
        t.p2.y <= t.p3.y <==> place_of_second(t) < place_of_third(t),
        spec_sort_by_y(t).0.y <= spec_sort_by_y(t).1.y <= spec_sort_by_y(t).2.y,
{
}

/// The spans of a triangle with its apex on top run from left to right,
/// between the leftmost and the rightmost of its corners.
pub proof fn lemma_bottom_flat_spans_ordered(top: Point, a: Point, b: Point, k: int)
    requires
        a.y == b.y,
        top.y <= a.y,
        0 <= k <= a.y - top.y,
    ensures
        bottom_flat_spans(top, a, b)[k].x1 <= bottom_flat_spans(top, a, b)[k].x2,
        top.x <= bottom_flat_spans(top, a, b)[k].x1 || leftmost(a, b).x <= bottom_flat_spans(
            top,
            a,
            b,
        )[k].x1,
        bottom_flat_spans(top, a, b)[k].x2 <= top.x || bottom_flat_spans(top, a, b)[k].x2
            <= rightmost(a, b).x,
{
    let l = leftmost(a, b);
    let r = rightmost(a, b);
    let n = l.y - top.y;
    lemma_interpolate_monotone(top.x as int, l.x as int, top.x as int, r.x as int, k, n);
    lemma_interpolate_bounds(top.x as int, l.x as int, k, n);
    lemma_interpolate_bounds(top.x as int, r.x as int, k, n);
}

/// The spans of a triangle with its apex at the bottom run from left to
/// right, between the leftmost and the rightmost of its corners.
pub proof fn lemma_top_flat_spans_ordered(a: Point, b: Point, bot: Point, k: int)
    requires
        a.y == b.y,
        a.y <= bot.y,
        0 <= k <= bot.y - a.y,
    ensures
        top_flat_spans(a, b, bot)[k].x1 <= top_flat_spans(a, b, bot)[k].x2,
        bot.x <= top_flat_spans(a, b, bot)[k].x1 || leftmost(a, b).x <= top_flat_spans(
            a,
            b,
            bot,
        )[k].x1,
        top_flat_spans(a, b, bot)[k].x2 <= bot.x || top_flat_spans(a, b, bot)[k].x2 <= rightmost(
            a,
            b,
        ).x,
{
    let l = leftmost(a, b);
    let r = rightmost(a, b);
    let n = bot.y - l.y;
    lemma_interpolate_monotone(l.x as int, bot.x as int, r.x as int, bot.x as int, k, n);
    lemma_interpolate_bounds(l.x as int, bot.x as int, k, n);
    lemma_interpolate_bounds(r.x as int, bot.x as int, k, n);
}

/// A triangle with its apex above a horizontal edge is filled with one
/// span for each row from the apex to that edge: as many rows as the edge
/// lies below the apex, and then the row of the edge.
pub proof fn lemma_bottom_flat_rows(top: Point, a: Point, b: Point)
    requires
        a.y == b.y,
        top.y <= a.y,
    ensures
        bottom_flat_spans(top, a, b).len() == (a.y - top.y) + 1,
        forall|k: int|
            0 <= k <= a.y - top.y ==> (#[trigger] bottom_flat_spans(top, a, b)[k]).y == top.y + k,
{
}

/// A triangle with a horizontal edge above its apex is filled with one
/// span for each row from that edge to the apex.
pub proof fn lemma_top_flat_rows(a: Point, b: Point, bot: Point)
    requires
        a.y == b.y,
        a.y <= bot.y,
    ensures
        top_flat_spans(a, b, bot).len() == (bot.y - a.y) + 1,
        forall|k: int|
            0 <= k <= bot.y - a.y ==> (#[trigger] top_flat_spans(a, b, bot)[k]).y == a.y + k,
{
}

/// Drawing spans keeps the size of the image and the setting of its depth
/// test.
pub proof fn lemma_put_spans_shape(g: Grid, spans: Seq<Span>, color: Pixel)
    ensures
        g.put_spans(spans, color).same_shape(g),
    decreases spans.len(),
{
    if spans.len() > 0 {
        lemma_put_spans_shape(g, spans.drop_last(), color);
    }
}

/// Drawing two sequences of spans one after the other is drawing their
/// concatenation.
pub proof fn lemma_put_spans_concat(g: Grid, first: Seq<Span>, second: Seq<Span>, color: Pixel)
    ensures
        g.put_spans(first + second, color) == g.put_spans(first, color).put_spans(second, color),
    decreases second.len(),
{
    if second.len() == 0 {
        assert(first + second =~= first);
    } else {
        lemma_put_spans_concat(g, first, second.drop_last(), color);
        assert((first + second).drop_last() =~= first + second.drop_last());
        assert((first + second).last() == second.last());
    }
}

/// Orders the corners of `t` from the highest to the lowest, keeping the
/// order of corners at the same height.
pub fn sort_by_y(t: Triangle) -> (sorted: (Point, Point, Point))
    ensures
        sorted == spec_sort_by_y(t),
{
    let (a, b, c) = (t.p1, t.p2, t.p3);
    if a.y <= b.y {
        if b.y <= c.y {
            (a, b, c)
        } else if a.y <= c.y {
            (a, c, b)
        } else {
            (c, a, b)
        }
    } else {
        if a.y <= c.y {
            (b, a, c)
        } else if b.y <= c.y {
            (b, c, a)
        } else {
            (c, b, a)
        }
    }
}

/// Computes the point on the edge from `top` to `bot` in the row of
/// `middle`.
pub fn split_point(top: Point, middle: Point, bot: Point) -> (cut: Point)
    requires
        top.y <= middle.y <= bot.y,
    ensures
        cut == spec_split_point(top, middle, bot),
{
    let k: u32 = (middle.y as i64 - top.y as i64) as u32;
    let n: u32 = (bot.y as i64 - top.y as i64) as u32;
    proof {
        lemma_interpolate_bounds(top.x as int, bot.x as int, k as int, n as int);
        lemma_interpolate_bounds(top.z as int, bot.z as int, k as int, n as int);
    }
    Point {
        x: interpolate(top.x as i64, bot.x as i64, k, n) as PixCoord,
        y: middle.y,
        z: interpolate(top.z as i64, bot.z as i64, k, n) as PixCoord,
    }
}

} // verus!
