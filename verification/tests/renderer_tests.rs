use softraster::pixel::{Pixel, BLACK, WHITE};
use softraster::renderer::{Renderer, POINT_SIZE};
use softraster::types::{Depth, Point, Sign, Triangle, NEG_INFINITY};

const RED: Pixel = (255, 0, 0);

fn pt(x: i32, y: i32, z: i32) -> Point {
    Point::new(x, y, z)
}

fn painted(r: &Renderer, color: Pixel) -> Vec<(i32, i32)> {
    let w = r.texture().width() as usize;
    let mut cells = Vec::new();
    for (i, p) in r.texture().pixels().iter().enumerate() {
        if *p == color {
            cells.push(((i % w) as i32, (i / w) as i32));
        }
    }
    cells
}

fn touched(r: &Renderer) -> Vec<(i32, i32)> {
    let w = r.texture().width() as usize;
    let mut cells = Vec::new();
    for (i, d) in r.texture().depths().iter().enumerate() {
        if *d != NEG_INFINITY {
            cells.push(((i % w) as i32, (i / w) as i32));
        }
    }
    cells
}

fn depth_of(r: &Renderer, x: i32, y: i32) -> Depth {
    r.texture().depths()[y as usize * r.texture().width() as usize + x as usize]
}

fn row(y: i32, x1: i32, x2: i32) -> Vec<(i32, i32)> {
    (x1..=x2).map(|x| (x, y)).collect()
}

#[test]
fn new_renderer_draws_in_white_on_a_blank_image() {
    let r = Renderer::new(20, 10);
    assert_eq!(r.color(), WHITE);
    assert_eq!(r.texture().width(), 20);
    assert_eq!(r.texture().height(), 10);
    assert!(r.texture().pixels().iter().all(|p| *p == BLACK));
    assert!(r.texture().depths().iter().all(|d| *d == NEG_INFINITY));
}

#[test]
fn set_color_changes_the_drawing_color_only() {
    let mut r = Renderer::new(4, 4);
    r.set_color(RED);
    assert_eq!(r.color(), RED);
    assert!(painted(&r, RED).is_empty());
    r.draw_line(pt(0, 0, 0), pt(0, 0, 0));
    assert_eq!(painted(&r, RED), vec![(0, 0)]);
}

#[test]
fn draw_line_bresenham() {
    let mut r = Renderer::new(20, 20);
    r.clear();
    r.draw_line(pt(0, 0, 0), pt(5, 3, 0));
    assert_eq!(painted(&r, WHITE), vec![(0, 0), (1, 1), (2, 1), (3, 2), (4, 2), (5, 3)]);
    assert_eq!(r.texture().pixels().iter().filter(|p| **p == BLACK).count(), 400 - 6);
    assert_eq!(r.texture().pixels().len(), 400);
}

#[test]
fn draw_line_writes_the_farthest_depth() {
    let mut r = Renderer::new(20, 20);
    r.draw_point(pt(3, 2, -8));
    assert_eq!(depth_of(&r, 3, 2), 8);
    r.set_color(RED);
    r.draw_line(pt(0, 0, 5), pt(5, 3, -5));
    assert_eq!(painted(&r, RED), vec![(0, 0), (1, 1), (2, 1), (3, 2), (4, 2), (5, 3)]);
    for (x, y) in painted(&r, RED) {
        assert_eq!(depth_of(&r, x, y), NEG_INFINITY);
    }
    assert_eq!(depth_of(&r, 4, 3), 8);
}

#[test]
fn draw_line_backwards() {
    let mut r = Renderer::new(20, 20);
    r.draw_line(pt(5, 3, 0), pt(0, 0, 0));
    assert_eq!(painted(&r, WHITE), vec![(0, 0), (1, 1), (2, 1), (3, 2), (4, 2), (5, 3)]);
}

#[test]
fn draw_line_steep() {
    let mut r = Renderer::new(20, 20);
    r.draw_line(pt(0, 0, 0), pt(3, 5, 0));
    assert_eq!(painted(&r, WHITE), vec![(0, 0), (1, 1), (1, 2), (2, 3), (2, 4), (3, 5)]);
}

#[test]
fn draw_line_steep_upwards_and_to_the_left() {
    let mut r = Renderer::new(20, 20);
    r.draw_line(pt(3, 5, 0), pt(0, 0, 0));
    assert_eq!(painted(&r, WHITE), vec![(0, 0), (1, 1), (1, 2), (2, 3), (2, 4), (3, 5)]);
}

#[test]
fn draw_line_down_and_to_the_left() {
    let mut r = Renderer::new(20, 20);
    r.draw_line(pt(5, 0, 0), pt(0, 3, 0));
    assert_eq!(painted(&r, WHITE), vec![(5, 0), (3, 1), (4, 1), (1, 2), (2, 2), (0, 3)]);
}

#[test]
fn draw_line_of_one_point() {
    let mut r = Renderer::new(20, 20);
    r.draw_line(pt(7, 8, 0), pt(7, 8, 0));
    assert_eq!(painted(&r, WHITE), vec![(7, 8)]);
}

#[test]
fn draw_line_horizontal_vertical_and_diagonal() {
    let mut r = Renderer::new(8, 8);
    r.draw_line(pt(1, 2, 0), pt(4, 2, 0));
    assert_eq!(painted(&r, WHITE), row(2, 1, 4));
    r.clear();
    r.draw_line(pt(3, 1, 0), pt(3, 4, 0));
    assert_eq!(painted(&r, WHITE), vec![(3, 1), (3, 2), (3, 3), (3, 4)]);
    r.clear();
    r.draw_line(pt(0, 0, 0), pt(2, 2, 0));
    assert_eq!(painted(&r, WHITE), vec![(0, 0), (1, 1), (2, 2)]);
    r.clear();
    r.draw_line(pt(2, 0, 0), pt(0, 2, 0));
    assert_eq!(painted(&r, WHITE), vec![(2, 0), (1, 1), (0, 2)]);
}

#[test]
fn draw_line_stays_in_the_row_at_half_a_pixel() {
    let mut r = Renderer::new(8, 8);
    r.draw_line(pt(0, 0, 0), pt(2, 1, 0));
    assert_eq!(painted(&r, WHITE), vec![(0, 0), (1, 0), (2, 1)]);
    r.clear();
    r.draw_line(pt(0, 0, 0), pt(4, 2, 0));
    assert_eq!(painted(&r, WHITE), vec![(0, 0), (1, 0), (2, 1), (3, 1), (4, 2)]);
}

#[test]
fn draw_line_paints_both_end_points() {
    let ends = [
        (pt(0, 0, 0), pt(19, 7, 0)),
        (pt(19, 19, 0), pt(0, 3, 0)),
        (pt(4, 18, 0), pt(5, 1, 0)),
        (pt(0, 19, 0), pt(19, 0, 0)),
        (pt(10, 10, 0), pt(11, 13, 0)),
    ];
    for (a, b) in ends {
        let mut r = Renderer::new(20, 20);
        r.set_color(RED);
        r.draw_line(a, b);
        let cells = painted(&r, RED);
        assert!(cells.contains(&(a.x, a.y)));
        assert!(cells.contains(&(b.x, b.y)));
        let steps = (b.x - a.x).abs().max((b.y - a.y).abs());
        assert_eq!(cells.len() as i32, steps + 1);
    }
}

#[test]
fn draw_line_skips_pixels_outside_the_image() {
    let mut r = Renderer::new(20, 20);
    r.draw_line(pt(-2, 0, 0), pt(2, 0, 0));
    assert_eq!(painted(&r, WHITE), vec![(0, 0), (1, 0), (2, 0)]);
    r.clear();
    r.draw_line(pt(17, 19, 0), pt(23, 19, 0));
    assert_eq!(painted(&r, WHITE), vec![(17, 19), (18, 19), (19, 19)]);
    r.clear();
    r.draw_line(pt(-5, -5, 0), pt(-1, -3, 0));
    assert!(painted(&r, WHITE).is_empty());
}

#[test]
fn draw_line_under_the_depth_test_is_never_nearer() {
    let mut r = Renderer::new(5, 1);
    r.set_depth_test(true);
    r.draw_line(pt(0, 0, 0), pt(2, 0, 0));
    assert!(painted(&r, WHITE).is_empty());
    r.set_color(RED);
    r.draw_point(pt(0, 0, 0));
    r.set_color(WHITE);
    r.draw_line(pt(0, 0, 0), pt(4, 0, 0));
    assert_eq!(painted(&r, RED), vec![(0, 0), (1, 0), (2, 0), (3, 0)]);
    assert!(painted(&r, WHITE).is_empty());
    r.set_depth_test(false);
    r.draw_line(pt(0, 0, 0), pt(4, 0, 0));
    assert_eq!(painted(&r, WHITE), vec![(0, 0), (1, 0), (2, 0), (3, 0), (4, 0)]);
}

#[test]
fn draw_point_paints_a_square_around_the_point() {
    let mut r = Renderer::new(20, 20);
    r.draw_point(pt(10, 9, 4));
    assert_eq!(POINT_SIZE, 7);
    let mut want = Vec::new();
    for y in 6..=12 {
        want.extend(row(y, 7, 13));
    }
    assert_eq!(painted(&r, WHITE), want);
    assert_eq!(want.len(), 49);
    for (x, y) in want {
        assert_eq!(depth_of(&r, x, y), -4);
    }
}

#[test]
fn draw_point_at_a_corner_is_cut_by_the_image() {
    let mut r = Renderer::new(20, 20);
    r.set_color(RED);
    r.draw_point(pt(0, 0, -9));
    let mut want = Vec::new();
    for y in 0..=3 {
        want.extend(row(y, 0, 3));
    }
    assert_eq!(painted(&r, RED), want);
    assert_eq!(depth_of(&r, 3, 3), 9);
    r.clear();
    r.draw_point(pt(22, 19, 0));
    let mut want = Vec::new();
    for y in 16..=19 {
        want.extend(row(y, 19, 19));
    }
    assert_eq!(painted(&r, RED), want);
}

#[test]
fn draw_point_far_outside_the_image_changes_nothing() {
    let mut r = Renderer::new(20, 20);
    r.draw_point(pt(i32::MAX, i32::MAX, i32::MIN));
    r.draw_point(pt(i32::MIN, i32::MIN, i32::MAX));
    r.draw_point(pt(23, 5, 0));
    r.draw_point(pt(5, -4, 0));
    assert!(painted(&r, WHITE).is_empty());
    assert!(touched(&r).is_empty());
}

#[test]
fn draw_point_at_the_deepest_coordinate() {
    let mut r = Renderer::new(1, 1);
    r.draw_point(pt(0, 0, i32::MIN));
    assert_eq!(depth_of(&r, 0, 0), 2147483648);
}

#[test]
fn fill_triangle_that_faces_away_writes_nothing() {
    let t = Triangle::new(pt(5, 0, 1), pt(2, 3, 1), pt(8, 3, 1));
    let mut r = Renderer::new(20, 20);
    r.fill_triangle(t, Sign::Positive, 255);
    assert!(painted(&r, WHITE).is_empty());
    assert!(touched(&r).is_empty());
    r.fill_triangle(t, Sign::Zero, 255);
    assert!(painted(&r, WHITE).is_empty());
    assert!(touched(&r).is_empty());
    r.fill_triangle(t, Sign::Negative, 255);
    assert_eq!(painted(&r, WHITE).len(), 16);
}

#[test]
fn fill_bottom_flat_triangle_writes_a_row_for_each_scanline() {
    let mut r = Renderer::new(20, 20);
    r.fill_bottom_flat_triangle(Triangle::new(pt(5, 0, 0), pt(2, 3, 0), pt(8, 3, 0)));
    let mut want = row(0, 5, 5);
    want.extend(row(1, 4, 6));
    want.extend(row(2, 3, 7));
    want.extend(row(3, 2, 8));
    assert_eq!(painted(&r, WHITE), want);
    let rows_from_apex = (0..3).filter(|y| painted(&r, WHITE).iter().any(|c| c.1 == *y)).count();
    assert_eq!(rows_from_apex, 3);
}

#[test]
fn fill_bottom_flat_triangle_swaps_the_level_corners() {
    let mut a = Renderer::new(20, 20);
    a.fill_bottom_flat_triangle(Triangle::new(pt(5, 0, 0), pt(2, 3, 7), pt(8, 3, -7)));
    let mut b = Renderer::new(20, 20);
    b.fill_bottom_flat_triangle(Triangle::new(pt(5, 0, 0), pt(8, 3, -7), pt(2, 3, 7)));
    assert_eq!(a.texture().pixels(), b.texture().pixels());
    assert_eq!(a.texture().depths(), b.texture().depths());
    assert_eq!(depth_of(&a, 2, 3), -7);
    assert_eq!(depth_of(&a, 8, 3), 7);
}

#[test]
fn fill_bottom_flat_triangle_of_one_row() {
    let mut r = Renderer::new(20, 20);
    r.fill_bottom_flat_triangle(Triangle::new(pt(9, 4, 0), pt(2, 4, 0), pt(6, 4, 0)));
    assert_eq!(painted(&r, WHITE), row(4, 2, 6));
}

#[test]
fn fill_top_flat_triangle_writes_a_row_for_each_scanline() {
    let mut r = Renderer::new(20, 20);
    r.fill_top_flat_triangle(Triangle::new(pt(8, 0, 0), pt(2, 0, 0), pt(5, 3, 0)));
    let mut want = row(0, 2, 8);
    want.extend(row(1, 3, 7));
    want.extend(row(2, 4, 6));
    want.extend(row(3, 5, 5));
    assert_eq!(painted(&r, WHITE), want);
}

#[test]
fn fill_top_flat_triangle_interpolates_depth_along_its_edges() {
    let mut r = Renderer::new(20, 20);
    r.fill_top_flat_triangle(Triangle::new(pt(0, 0, 0), pt(8, 0, -8), pt(4, 4, -40)));
    assert_eq!(depth_of(&r, 0, 0), 0);
    assert_eq!(depth_of(&r, 8, 0), 8);
    assert_eq!(depth_of(&r, 4, 0), 4);
    assert_eq!(depth_of(&r, 1, 1), 10);
    assert_eq!(depth_of(&r, 7, 1), 16);
    assert_eq!(depth_of(&r, 4, 1), 13);
    assert_eq!(depth_of(&r, 4, 4), 40);
}

#[test]
fn fill_triangle_cuts_a_general_triangle_at_its_middle_corner() {
    let mut r = Renderer::new(20, 20);
    r.fill_triangle(Triangle::new(pt(9, 6, 0), pt(5, 0, 0), pt(2, 3, 0)), Sign::Negative, 255);
    let mut want = row(0, 5, 5);
    want.extend(row(1, 4, 5));
    want.extend(row(2, 3, 6));
    want.extend(row(3, 2, 7));
    want.extend(row(4, 4, 7));
    want.extend(row(5, 6, 8));
    want.extend(row(6, 9, 9));
    assert_eq!(painted(&r, WHITE), want);
}

#[test]
fn fill_triangle_with_a_level_edge_on_top() {
    let mut r = Renderer::new(20, 20);
    r.fill_triangle(Triangle::new(pt(5, 3, 0), pt(8, 0, 0), pt(2, 0, 0)), Sign::Negative, 255);
    let mut want = row(0, 2, 8);
    want.extend(row(1, 3, 7));
    want.extend(row(2, 4, 6));
    want.extend(row(3, 5, 5));
    assert_eq!(painted(&r, WHITE), want);
}

#[test]
fn fill_triangle_with_a_level_edge_at_the_bottom() {
    let mut r = Renderer::new(20, 20);
    r.fill_triangle(Triangle::new(pt(8, 3, 0), pt(5, 0, 0), pt(2, 3, 0)), Sign::Negative, 255);
    let mut want = row(0, 5, 5);
    want.extend(row(1, 4, 6));
    want.extend(row(2, 3, 7));
    want.extend(row(3, 2, 8));
    assert_eq!(painted(&r, WHITE), want);
}

#[test]
fn fill_triangle_with_all_corners_level() {
    let mut r = Renderer::new(20, 20);
    r.fill_triangle(Triangle::new(pt(1, 2, 0), pt(5, 2, 0), pt(3, 2, 0)), Sign::Negative, 255);
    assert_eq!(painted(&r, WHITE), row(2, 1, 5));
}

#[test]
fn fill_triangle_scales_the_color_by_the_light() {
    let mut r = Renderer::new(20, 20);
    r.set_color((200, 100, 50));
    let t = Triangle::new(pt(5, 0, 0), pt(2, 3, 0), pt(8, 3, 0));
    r.fill_triangle(t, Sign::Negative, 128);
    assert_eq!(painted(&r, (100, 50, 25)).len(), 16);
    assert!(painted(&r, (200, 100, 50)).is_empty());
    assert_eq!(r.color(), (200, 100, 50));
    r.fill_triangle(t, Sign::Negative, 255);
    assert_eq!(painted(&r, (200, 100, 50)).len(), 16);
}

#[test]
fn fill_triangle_is_cut_by_the_image() {
    let mut r = Renderer::new(4, 3);
    r.fill_triangle(Triangle::new(pt(2, -2, 0), pt(-3, 3, 0), pt(7, 3, 0)), Sign::Negative, 255);
    let mut want = row(0, 0, 3);
    want.extend(row(1, 0, 3));
    want.extend(row(2, 0, 3));
    assert_eq!(painted(&r, WHITE), want);
}

#[test]
fn clear_between_frames_resets_the_image() {
    let mut r = Renderer::new(20, 20);
    r.set_color(RED);
    r.draw_point(pt(5, 5, 0));
    r.draw_line(pt(0, 0, 0), pt(19, 19, 0));
    r.clear();
    assert!(r.texture().pixels().iter().all(|p| *p == BLACK));
    assert!(r.texture().depths().iter().all(|d| *d == NEG_INFINITY));
    assert_eq!(r.color(), RED);
}
