use rasterizer::color::Color;
use rasterizer::drawable::{barycentric, intersect_y, triangle_line_sweep, Image, Point3q, ScreenPoint};

const ONE: i64 = 65536;

fn close_enough(res: (f64, f64, f64), ref_vals: (f64, f64, f64)) -> bool {
    const EPS: f64 = 1e-6;
    (res.0 - ref_vals.0).abs() <= EPS
        && (res.1 - ref_vals.1).abs() <= EPS
        && (res.2 - ref_vals.2).abs() <= EPS
}

fn weights(p1: &Point3q, p2: &Point3q, p3: &Point3q, p: &Point3q) -> (f64, f64, f64) {
    let (a, b, c) = barycentric(p1, p2, p3, p);
    (a as f64 / 65536.0, b as f64 / 65536.0, c as f64 / 65536.0)
}

#[test]
fn test_barycentric() {
    let p1 = Point3q::new(5 * ONE, 5 * ONE, 0);
    let p2 = Point3q::new(10 * ONE, 5 * ONE, 0);
    let p3 = Point3q::new(10 * ONE, 7 * ONE, 0);

    assert!(close_enough(weights(&p1, &p2, &p3, &p1), (1.0, 0.0, 0.0)));
    assert!(close_enough(weights(&p1, &p2, &p3, &p2), (0.0, 1.0, 0.0)));
    assert!(close_enough(weights(&p1, &p2, &p3, &p3), (0.0, 0.0, 1.0)));

    let outside = Point3q::new(100 * ONE, 100 * ONE, 0);
    let (a, b, c) = weights(&p1, &p2, &p3, &outside);
    assert!([a, b, c].iter().any(|&x| x < 0.0));
}

#[test]
fn test_intersect_y() {
    let p1 = ScreenPoint::new(5, 10, 0);
    let p2 = ScreenPoint::new(5, 20, 0);
    assert_eq!(intersect_y(&p1, &p2, 15) as f64 / 65536.0, 5.0);

    let p1 = ScreenPoint::new(5, 10, 0);
    let p2 = ScreenPoint::new(20, 20, 0);
    assert_eq!(intersect_y(&p1, &p2, 15) as f64 / 65536.0, 12.5);
}

#[test]
fn line_is_symmetric() {
    let red = Color(255, 0, 0);
    let mut a = Image::new(20, 20);
    let mut b = Image::new(20, 20);
    a.line(2, 3, 15, 9, red);
    b.line(15, 9, 2, 3, red);
    for y in 0..20 {
        for x in 0..20 {
            assert_eq!(a.get_pixel(x, y), b.get_pixel(x, y));
        }
    }
}

#[test]
fn line_steep_is_symmetric() {
    let red = Color(255, 0, 0);
    let mut a = Image::new(20, 20);
    let mut b = Image::new(20, 20);
    a.line(3, 1, 7, 18, red);
    b.line(7, 18, 3, 1, red);
    for y in 0..20 {
        for x in 0..20 {
            assert_eq!(a.get_pixel(x, y), b.get_pixel(x, y));
        }
    }
}

fn count_colored(im: &Image, color: Color) -> u32 {
    let mut count = 0;
    for y in 0..im.height() {
        for x in 0..im.width() {
            if im.get_pixel(x, y) == color {
                count += 1;
            }
        }
    }
    count
}

#[test]
fn line_pixel_count_shallow() {
    let c = Color(9, 9, 9);
    let mut a = Image::new(30, 30);
    a.line(2, 3, 20, 10, c);
    assert_eq!(count_colored(&a, c), 18 + 1);
}

#[test]
fn line_pixel_count_steep() {
    let c = Color(9, 9, 9);
    let mut a = Image::new(30, 30);
    a.line(4, 25, 9, 2, c);
    assert_eq!(count_colored(&a, c), 23 + 1);
}

#[test]
fn line_pixel_count_degenerate_point() {
    let c = Color(9, 9, 9);
    let mut a = Image::new(30, 30);
    a.line(7, 7, 7, 7, c);
    assert_eq!(count_colored(&a, c), 1);
}

#[test]
fn depth_test_is_idempotent_and_monotonic() {
    let mut im = Image::new(4, 4);
    im.clear(Color(50, 50, 50));
    assert!(im.check_and_set_zbuf(1, 2, 5));
    assert!(!im.check_and_set_zbuf(1, 2, 5));
    assert!(!im.check_and_set_zbuf(1, 2, 3));
    assert!(im.check_and_set_zbuf(1, 2, 7));
    assert_eq!(im.get_pixel(1, 2), Color(50, 50, 50));
}

#[test]
fn scale_half_truncates() {
    assert_eq!(Color(255, 255, 255).scale(ONE / 2), Color(127, 127, 127));
}

#[test]
fn scale_one_keeps_and_zero_blacks() {
    assert_eq!(Color(10, 200, 255).scale(ONE), Color(10, 200, 255));
    assert_eq!(Color(10, 200, 255).scale(0), Color(0, 0, 0));
    assert_eq!(Color(10, 200, 255).scale(-7), Color(0, 0, 0));
}

#[test]
fn scale_overflow_truncates_not_saturates() {
    assert_eq!(Color(200, 0, 0).scale(2 * ONE), Color(144, 0, 0));
}

#[test]
fn point_and_clear() {
    let mut im = Image::new(8, 8);
    im.clear(Color(1, 2, 3));
    assert_eq!(im.get_pixel(5, 5), Color(1, 2, 3));
    im.point(5, 5, Color(9, 9, 9));
    assert_eq!(im.get_pixel(5, 5), Color(9, 9, 9));
    assert_eq!(im.get_pixel(4, 5), Color(1, 2, 3));
}

#[test]
fn snap_truncates_and_clamps() {
    let p = Point3q::new(5 * ONE + 40000, -3 * ONE, 2 * ONE);
    let s = p.to_screen();
    assert_eq!(s.x, 5);
    assert_eq!(s.y, 0);
    assert_eq!(s.z, 2);
}

#[test]
fn line_sweep_paints_rows() {
    let mut im = Image::new(16, 16);
    let u = ScreenPoint::new(2, 2, 0);
    let v = ScreenPoint::new(10, 2, 0);
    let w = ScreenPoint::new(2, 10, 0);
    triangle_line_sweep(&mut im, &u, &v, &w, Color(7, 7, 7));
    assert_eq!(im.get_pixel(3, 3), Color(7, 7, 7));
    assert_eq!(im.get_pixel(2, 9), Color(7, 7, 7));
    assert_eq!(im.get_pixel(15, 15), Color(0, 0, 0));
}

#[test]
fn export_flips_vertically() {
    let mut im = Image::new(2, 2);
    im.point(0, 0, Color(1, 1, 1));
    im.point(1, 1, Color(2, 2, 2));
    let rows = im.export();
    assert_eq!(rows.len(), 4);
    assert_eq!(rows[0], Color(0, 0, 0));
    assert_eq!(rows[1], Color(2, 2, 2));
    assert_eq!(rows[2], Color(1, 1, 1));
    assert_eq!(rows[3], Color(0, 0, 0));
}

#[test]
fn barycentric_outside_sliver_is_negative() {
    // a point a fraction of a pixel outside the triangle: the exact
    // second weight is tiny and negative, and flooring keeps it negative
    let p1 = Point3q::new(0, 0, 0);
    let p2 = Point3q::new(2 * ONE, 0, 0);
    let p3 = Point3q::new(0, 2 * ONE, 0);
    let outside = Point3q::new(-1, 0, 0);
    let (a, b, c) = barycentric(&p1, &p2, &p3, &outside);
    assert!(a < 0 || b < 0 || c < 0);
    assert_eq!(b, -1);
    assert_eq!(a + b + c, 65536);
}

#[test]
fn barycentric_weights_sum_to_one() {
    // denominator 3: the three floored thirds sum short by one, and the
    // loss lands on the first (non-negative) component
    let p1 = Point3q::new(0, 0, 0);
    let p2 = Point3q::new(3, 0, 0);
    let p3 = Point3q::new(0, 3, 0);
    let p = Point3q::new(1, 1, 0);
    let (a, b, c) = barycentric(&p1, &p2, &p3, &p);
    assert_eq!((a, b, c), (21846, 21845, 21845));
    assert_eq!(a + b + c, 65536);
}

#[test]
fn barycentric_outside_third_weight_is_negative() {
    // a point a 65536th of a pixel below the base edge: only the exact
    // third weight is negative (by half a Q16 step), and it comes back
    // as -1 while the sum correction lands on the first component
    let p1 = Point3q::new(0, 0, 0);
    let p2 = Point3q::new(2 * ONE, 0, 0);
    let p3 = Point3q::new(0, 2 * ONE, 0);
    let outside = Point3q::new(ONE, -1, 0);
    let (a, b, c) = barycentric(&p1, &p2, &p3, &outside);
    assert_eq!((a, b, c), (32769, 32768, -1));
    assert!(a < 0 || b < 0 || c < 0);
    assert_eq!(a + b + c, 65536);
}
