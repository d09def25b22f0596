use rasterizer::color::Color;
use rasterizer::drawable::{Image, Point3q, Texture};
use rasterizer::math::Vec3;
use rasterizer::{calculate_intensity, draw_obj, DrawStyle, Mesh, Primitive};

const ONE: i64 = 65536;

fn small_triangle() -> (Point3q, Point3q, Point3q) {
    (
        Point3q::new(5 * ONE, 5 * ONE, 0),
        Point3q::new(10 * ONE, 5 * ONE, 0),
        Point3q::new(10 * ONE, 7 * ONE, 0),
    )
}

#[test]
fn filled_full_intensity_colors_interior() {
    let mut im = Image::new(16, 16);
    let (p1, p2, p3) = small_triangle();
    let style = DrawStyle::Filled(Color(255, 255, 255));
    im.triangle(&p1, &p2, &p3, &style, ONE);
    assert_eq!(im.get_pixel(8, 6), Color(255, 255, 255));
    assert_eq!(im.get_pixel(10, 7), Color(255, 255, 255));
    assert_eq!(im.get_pixel(0, 0), Color(0, 0, 0));
    assert_eq!(im.get_pixel(5, 7), Color(0, 0, 0));
}

#[test]
fn filled_zero_intensity_blacks_interior() {
    let mut im = Image::new(16, 16);
    im.clear(Color(50, 50, 50));
    let (p1, p2, p3) = small_triangle();
    let style = DrawStyle::Filled(Color(255, 255, 255));
    im.triangle(&p1, &p2, &p3, &style, 0);
    assert_eq!(im.get_pixel(8, 6), Color(0, 0, 0));
    assert_eq!(im.get_pixel(0, 0), Color(50, 50, 50));
}

#[test]
fn degenerate_triangle_fills_nothing() {
    let mut im = Image::new(16, 16);
    im.clear(Color(50, 50, 50));
    let p1 = Point3q::new(2 * ONE, 2 * ONE, 0);
    let p2 = Point3q::new(6 * ONE, 6 * ONE, 0);
    let p3 = Point3q::new(10 * ONE, 10 * ONE, 0);
    let style = DrawStyle::Filled(Color(255, 255, 255));
    im.triangle(&p1, &p2, &p3, &style, ONE);
    for y in 0..16 {
        for x in 0..16 {
            assert_eq!(im.get_pixel(x, y), Color(50, 50, 50));
        }
    }
}

#[test]
fn nearer_triangle_wins_depth_test() {
    let mut im = Image::new(16, 16);
    let (p1, p2, p3) = small_triangle();
    let far = (
        Point3q::new(p1.x, p1.y, -ONE),
        Point3q::new(p2.x, p2.y, -ONE),
        Point3q::new(p3.x, p3.y, -ONE),
    );
    let near = (
        Point3q::new(p1.x, p1.y, ONE),
        Point3q::new(p2.x, p2.y, ONE),
        Point3q::new(p3.x, p3.y, ONE),
    );
    im.triangle(&near.0, &near.1, &near.2, &DrawStyle::Filled(Color(255, 0, 0)), ONE);
    im.triangle(&far.0, &far.1, &far.2, &DrawStyle::Filled(Color(0, 255, 0)), ONE);
    assert_eq!(im.get_pixel(8, 6), Color(255, 0, 0));
}

#[test]
fn equal_depth_keeps_first_drawn() {
    let mut im = Image::new(16, 16);
    let (p1, p2, p3) = small_triangle();
    im.triangle(&p1, &p2, &p3, &DrawStyle::Filled(Color(255, 0, 0)), ONE);
    im.triangle(&p1, &p2, &p3, &DrawStyle::Filled(Color(0, 255, 0)), ONE);
    assert_eq!(im.get_pixel(8, 6), Color(255, 0, 0));
}

#[test]
fn random_fill_reuses_one_color_per_triangle() {
    let mut im = Image::new(16, 16);
    let (p1, p2, p3) = small_triangle();
    im.triangle(&p1, &p2, &p3, &DrawStyle::FilledRandom, ONE);
    let c = im.get_pixel(8, 6);
    assert_eq!(im.get_pixel(9, 6), c);
    assert_eq!(im.get_pixel(10, 7), c);
    assert_eq!(im.get_pixel(7, 5), c);
}

#[test]
fn textured_fill_samples_texture() {
    let mut im = Image::new(16, 16);
    let tex = Texture { width: 1, height: 1, pixels: vec![Color(10, 20, 30)] };
    let (p1, p2, p3) = small_triangle();
    let t = Point3q::new(0, 0, 0);
    let style = DrawStyle::Textured(&tex, (t, t, t));
    im.triangle(&p1, &p2, &p3, &style, ONE);
    assert_eq!(im.get_pixel(8, 6), Color(10, 20, 30));
    assert_eq!(im.get_pixel(0, 0), Color(0, 0, 0));
}

#[test]
fn wireframe_draws_edges_only() {
    let mut im = Image::new(16, 16);
    let p1 = Point3q::new(2 * ONE, 2 * ONE, 0);
    let p2 = Point3q::new(10 * ONE, 2 * ONE, 0);
    let p3 = Point3q::new(2 * ONE, 10 * ONE, 0);
    im.triangle(&p1, &p2, &p3, &DrawStyle::Wireframe(Color(255, 255, 255)), ONE);
    assert_eq!(im.get_pixel(5, 2), Color(255, 255, 255));
    assert_eq!(im.get_pixel(2, 5), Color(255, 255, 255));
    assert_eq!(im.get_pixel(5, 5), Color(0, 0, 0));
}

#[test]
fn intensity_of_flat_facing_triangle_is_one() {
    let v1 = Vec3::new(0, 0, 0);
    let v2 = Vec3::new(ONE, 0, 0);
    let v3 = Vec3::new(0, ONE, 0);
    let light = Vec3::new(0, 0, -ONE);
    assert_eq!(calculate_intensity(&v1, &v2, &v3, &light), ONE);
    assert_eq!(calculate_intensity(&v1, &v3, &v2, &light), -ONE);
}

#[test]
fn front_facing_triangle_is_drawn() {
    let mut im = Image::new(32, 32);
    im.clear(Color(50, 50, 50));
    let mesh = Mesh {
        vertices: vec![Vec3::new(0, 0, 0), Vec3::new(ONE, 0, 0), Vec3::new(0, ONE, 0)],
        tex_vertices: vec![],
        shapes: vec![Primitive::Triangle((0, None), (1, None), (2, None))],
    };
    assert!(mesh.check());
    let skipped = draw_obj(&mut im, &mesh, &DrawStyle::Filled(Color(255, 255, 255)));
    assert_eq!(skipped, 0);
    assert_eq!(im.get_pixel(17, 17), Color(255, 255, 255));
    assert_eq!(im.get_pixel(0, 0), Color(50, 50, 50));
}

#[test]
fn back_facing_triangle_contributes_nothing() {
    let mut im = Image::new(32, 32);
    im.clear(Color(50, 50, 50));
    let mesh = Mesh {
        vertices: vec![Vec3::new(0, 0, 0), Vec3::new(0, ONE, 0), Vec3::new(ONE, 0, 0)],
        tex_vertices: vec![],
        shapes: vec![Primitive::Triangle((0, None), (1, None), (2, None))],
    };
    assert!(mesh.check());
    let skipped = draw_obj(&mut im, &mesh, &DrawStyle::Filled(Color(255, 255, 255)));
    assert_eq!(skipped, 0);
    for y in 0..32 {
        for x in 0..32 {
            assert_eq!(im.get_pixel(x, y), Color(50, 50, 50));
        }
    }
}

#[test]
fn non_triangle_primitives_are_skipped() {
    let mut im = Image::new(16, 16);
    let mesh = Mesh {
        vertices: vec![Vec3::new(0, 0, 0), Vec3::new(ONE, 0, 0), Vec3::new(0, ONE, 0)],
        tex_vertices: vec![],
        shapes: vec![
            Primitive::Point(0),
            Primitive::Line(0, 1),
            Primitive::Triangle((0, None), (1, None), (2, None)),
        ],
    };
    assert!(mesh.check());
    let skipped = draw_obj(&mut im, &mesh, &DrawStyle::Filled(Color(255, 255, 255)));
    assert_eq!(skipped, 2);
}

#[test]
fn mesh_check_rejects_bad_index() {
    let mesh = Mesh {
        vertices: vec![Vec3::new(0, 0, 0), Vec3::new(ONE, 0, 0)],
        tex_vertices: vec![],
        shapes: vec![Primitive::Triangle((0, None), (1, None), (2, None))],
    };
    assert!(!mesh.check());
    let coords = Mesh {
        vertices: vec![Vec3::new(5 * ONE, 0, 0)],
        tex_vertices: vec![],
        shapes: vec![],
    };
    assert!(!coords.check());
}

#[test]
fn mesh_check_textured_wants_tex_indices() {
    let mesh = Mesh {
        vertices: vec![Vec3::new(0, 0, 0), Vec3::new(ONE, 0, 0), Vec3::new(0, ONE, 0)],
        tex_vertices: vec![Point3q::new(0, 0, 0)],
        shapes: vec![Primitive::Triangle((0, Some(0)), (1, Some(0)), (2, None))],
    };
    assert!(mesh.check());
    assert!(!mesh.check_textured());
}

#[test]
fn mixed_mesh_back_face_contributes_nothing() {
    let front = Primitive::Triangle((0, None), (1, None), (2, None));
    let back = Primitive::Triangle((0, None), (2, None), (1, None));
    let vertices = vec![Vec3::new(0, 0, 0), Vec3::new(ONE, 0, 0), Vec3::new(0, ONE, 0)];

    let mut with_back = Image::new(32, 32);
    with_back.clear(Color(50, 50, 50));
    let mesh_both = Mesh {
        vertices: vertices.clone(),
        tex_vertices: vec![],
        shapes: vec![back, front, back],
    };
    assert!(mesh_both.check());
    draw_obj(&mut with_back, &mesh_both, &DrawStyle::Filled(Color(255, 255, 255)));

    let mut without_back = Image::new(32, 32);
    without_back.clear(Color(50, 50, 50));
    let mesh_front = Mesh { vertices, tex_vertices: vec![], shapes: vec![front] };
    assert!(mesh_front.check());
    draw_obj(&mut without_back, &mesh_front, &DrawStyle::Filled(Color(255, 255, 255)));

    for y in 0..32 {
        for x in 0..32 {
            assert_eq!(with_back.get_pixel(x, y), without_back.get_pixel(x, y));
        }
    }
}
