//! A software rasterizer: projects triangle meshes to screen space and
//! renders them into an in-memory canvas with a per-pixel depth test.
//!
//! All geometry is carried in Q16 fixed-point integers: a coordinate value
//! `v` stands for the real number `v / 65536`. This keeps the whole pipeline
//! in exact integer arithmetic, so barycentric inside tests, depth
//! comparisons and color scaling are all verified exactly.

use vstd::prelude::*;

pub mod color;
pub mod drawable;
pub mod math;

use crate::color::Color;
use crate::drawable::{
    coord_ok, fill_outcome, is_random, is_textured, style_fill_ok, Image, Point, Point3q, Texture,
    COORD_LIMIT,
};
use crate::math::{cross, sqrt_floor, Vec3};

verus! {

/// The Q16 fixed-point unit: the integer 65536 stands for the real 1.0.
pub const FX_ONE: i64 = 65536;

/// How a triangle is shaded. Exactly one variant is active per draw call.
/// `Wireframe` bypasses the shader entirely and draws only the three
/// edges; the other styles fill the triangle through the depth test.
#[derive(Clone, Copy)]
pub enum DrawStyle<'a> {
    Wireframe(Color),
    Filled(Color),
    FilledRandom,
    Textured(&'a Texture, (Point3q, Point3q, Point3q)),
}

/// A face primitive as a mesh parser delivers it: vertex indices, with
/// optional texture-coordinate indices on triangles. The rasterizer fills
/// only triangles; points and lines are reported back to the caller.
#[derive(Clone, Copy, Debug, PartialEq, Eq)]
pub enum Primitive {
    Point(usize),
    Line(usize, usize),
    Triangle((usize, Option<usize>), (usize, Option<usize>), (usize, Option<usize>)),
}

/// Model-space coordinates are assumed pre-normalized to roughly
/// [-1, 1]; the projector accepts up to [-2, 2] in Q16.
pub open spec fn model_coord_ok(v: Vec3) -> bool {
    &&& -2 * (FX_ONE as int) <= v.x <= 2 * (FX_ONE as int)
    &&& -2 * (FX_ONE as int) <= v.y <= 2 * (FX_ONE as int)
    &&& -2 * (FX_ONE as int) <= v.z <= 2 * (FX_ONE as int)
}

/// A face's indices stay inside the mesh's vertex and texture tables.
pub open spec fn shape_ok(s: Primitive, nv: int, nt: int) -> bool {
    match s {
        Primitive::Triangle(a, b, c) => {
            &&& a.0 < nv && b.0 < nv && c.0 < nv
            &&& (match a.1 { Some(t) => t < nt, None => true })
            &&& (match b.1 { Some(t) => t < nt, None => true })
            &&& (match c.1 { Some(t) => t < nt, None => true })
        },
        _ => true,
    }
}

/// A triangle mesh in model space: Q16 vertex positions, optional Q16
/// texture coordinates, and a list of faces over them.
pub struct Mesh {
    pub vertices: Vec<Vec3>,
    pub tex_vertices: Vec<Point3q>,
    pub shapes: Vec<Primitive>,
}

impl Mesh {
    /// Coordinates bounded, every face's indices in range.
    pub open spec fn wf(&self) -> bool {
        &&& forall|i: int| 0 <= i < self.vertices@.len()
            ==> model_coord_ok(#[trigger] self.vertices@[i])
        &&& forall|i: int| 0 <= i < self.tex_vertices@.len()
            ==> coord_ok(#[trigger] self.tex_vertices@[i])
        &&& forall|i: int| 0 <= i < self.shapes@.len()
            ==> shape_ok(
                #[trigger] self.shapes@[i],
                self.vertices@.len() as int,
                self.tex_vertices@.len() as int,
            )
    }

    /// Every triangle face carries all three texture-coordinate indices,
    /// as texture-mapped rendering needs.
    pub open spec fn textured_wf(&self) -> bool {
        forall|i: int| 0 <= i < self.shapes@.len() ==> (match #[trigger] self.shapes@[i] {
            Primitive::Triangle(a, b, c) => {
                a.1 is Some && b.1 is Some && c.1 is Some
            },
            _ => true,
        })
    }

    /// Whether the mesh is well-formed; callers outside the library
    /// validate with this before rendering.
    pub fn check(&self) -> (r: bool)
        ensures
            r == self.wf(),
    {
        let mut i: usize = 0;
        let nv = self.vertices.len();
        while i < nv
            invariant
                i <= nv,
                nv == self.vertices@.len(),
                forall|j: int| 0 <= j < i ==> model_coord_ok(#[trigger] self.vertices@[j]),
            decreases nv - i,
        {
            let v = self.vertices[i];
            if v.x < -131072 || v.x > 131072 || v.y < -131072 || v.y > 131072 || v.z < -131072
                || v.z > 131072 {
                return false;
            }
            i = i + 1;
        }
        let mut i: usize = 0;
        let nt = self.tex_vertices.len();
        while i < nt
            invariant
                i <= nt,
                nt == self.tex_vertices@.len(),
                forall|j: int| 0 <= j < i ==> coord_ok(#[trigger] self.tex_vertices@[j]),
            decreases nt - i,
        {
            let t = self.tex_vertices[i];
            if t.x < -COORD_LIMIT || t.x > COORD_LIMIT || t.y < -COORD_LIMIT || t.y > COORD_LIMIT
                || t.z < -COORD_LIMIT || t.z > COORD_LIMIT {
                return false;
            }
            i = i + 1;
        }
        let mut i: usize = 0;
        let ns = self.shapes.len();
        while i < ns
            invariant
                i <= ns,
                ns == self.shapes@.len(),
                nv == self.vertices@.len(),
                nt == self.tex_vertices@.len(),
                forall|j: int| 0 <= j < i
                    ==> shape_ok(#[trigger] self.shapes@[j], nv as int, nt as int),
            decreases ns - i,
        {
            match self.shapes[i] {
                Primitive::Triangle(a, b, c) => {
                    if a.0 >= nv || b.0 >= nv || c.0 >= nv {
                        return false;
                    }
                    match a.1 {
                        Some(t) => if t >= nt { return false; },
                        None => {},
                    }
                    match b.1 {
                        Some(t) => if t >= nt { return false; },
                        None => {},
                    }
                    match c.1 {
                        Some(t) => if t >= nt { return false; },
                        None => {},
                    }
                },
                _ => {},
            }
            i = i + 1;
        }
        true
    }

    /// Whether every triangle face carries texture indices.
    pub fn check_textured(&self) -> (r: bool)
        ensures
            r == self.textured_wf(),
    {
        let mut i: usize = 0;
        let ns = self.shapes.len();
        while i < ns
            invariant
                i <= ns,
                ns == self.shapes@.len(),
                forall|j: int| 0 <= j < i ==> (match #[trigger] self.shapes@[j] {
                    Primitive::Triangle(a, b, c) => {
                        a.1 is Some && b.1 is Some && c.1 is Some
                    },
                    _ => true,
                }),
            decreases ns - i,
        {
            match self.shapes[i] {
                Primitive::Triangle(a, b, c) => {
                    if a.1.is_none() || b.1.is_none() || c.1.is_none() {
                        return false;
                    }
                },
                _ => {},
            }
            i = i + 1;
        }
        true
    }
}

/// The fixed light direction: along the negative depth axis, unit length
/// in Q16.
pub open spec fn light_dir_spec() -> Vec3 {
    Vec3 { x: 0i64, y: 0i64, z: -65536i64 }
}

/// What `calculate_intensity` answers, over the exact integer geometry:
/// the dot of the face normal `cross(v3 - v1, v2 - v1)` with the light,
/// divided by the integer square root of the normal's squared length,
/// all in Q16. A degenerate face (zero normal) answers 0.
pub open spec fn intensity_spec(v1: Vec3, v2: Vec3, v3: Vec3, light: Vec3) -> int {
    let ux = v3.x - v1.x;
    let uy = v3.y - v1.y;
    let uz = v3.z - v1.z;
    let vx = v2.x - v1.x;
    let vy = v2.y - v1.y;
    let vz = v2.z - v1.z;
    let nx = uy * vz - vy * uz;
    let ny = vx * uz - ux * vz;
    let nz = ux * vy - vx * uy;
    let l = sqrt_floor((nx * nx + ny * ny + nz * nz) as nat);
    if l == 0 {
        0
    } else {
        crate::math::tdiv(nx * light.x + ny * light.y + nz * light.z, l as int)
    }
}

/// Light directions the projector accepts: each component within
/// [-2, 2] in Q16.
pub open spec fn light_ok(light: Vec3) -> bool {
    &&& -2 * (FX_ONE as int) <= light.x <= 2 * (FX_ONE as int)
    &&& -2 * (FX_ONE as int) <= light.y <= 2 * (FX_ONE as int)
    &&& -2 * (FX_ONE as int) <= light.z <= 2 * (FX_ONE as int)
}

/// The light intensity of a face: the dot product of the normalized face
/// normal with the light direction, in Q16. Negative intensity means the
/// face points away from the viewer and is culled.
pub fn calculate_intensity(v1: &Vec3, v2: &Vec3, v3: &Vec3, light_dir: &Vec3) -> (r: i64)
    requires
        model_coord_ok(*v1),
        model_coord_ok(*v2),
        model_coord_ok(*v3),
        light_ok(*light_dir),
    ensures
        r == intensity_spec(*v1, *v2, *v3, *light_dir),
{
    let u = v3.sub(v1);
    let v = v2.sub(v1);
    proof {
        assert(u.x * v.z <= 0x1_0000_0000_0000 && u.x * v.z >= -0x1_0000_0000_0000)
            by (nonlinear_arith)
            requires -0x80000 <= u.x <= 0x80000, -0x80000 <= v.z <= 0x80000;
        assert(u.y * v.z <= 0x1_0000_0000_0000 && u.y * v.z >= -0x1_0000_0000_0000)
            by (nonlinear_arith)
            requires -0x80000 <= u.y <= 0x80000, -0x80000 <= v.z <= 0x80000;
        assert(u.z * v.x <= 0x1_0000_0000_0000 && u.z * v.x >= -0x1_0000_0000_0000)
            by (nonlinear_arith)
            requires -0x80000 <= u.z <= 0x80000, -0x80000 <= v.x <= 0x80000;
        assert(u.z * v.y <= 0x1_0000_0000_0000 && u.z * v.y >= -0x1_0000_0000_0000)
            by (nonlinear_arith)
            requires -0x80000 <= u.z <= 0x80000, -0x80000 <= v.y <= 0x80000;
        assert(u.x * v.y <= 0x1_0000_0000_0000 && u.x * v.y >= -0x1_0000_0000_0000)
            by (nonlinear_arith)
            requires -0x80000 <= u.x <= 0x80000, -0x80000 <= v.y <= 0x80000;
        assert(u.y * v.x <= 0x1_0000_0000_0000 && u.y * v.x >= -0x1_0000_0000_0000)
            by (nonlinear_arith)
            requires -0x80000 <= u.y <= 0x80000, -0x80000 <= v.x <= 0x80000;
    }
    let n = cross(&u, &v);
    let nx = n.x as i128;
    let ny = n.y as i128;
    let nz = n.z as i128;
    proof {
        assert(nx * nx <= 0x10_0000_0000_0000_0000_0000_0000 && nx * nx >= 0)
            by (nonlinear_arith)
            requires -0x2_0000_0000_0000 <= nx <= 0x2_0000_0000_0000;
        assert(ny * ny <= 0x10_0000_0000_0000_0000_0000_0000 && ny * ny >= 0)
            by (nonlinear_arith)
            requires -0x2_0000_0000_0000 <= ny <= 0x2_0000_0000_0000;
        assert(nz * nz <= 0x10_0000_0000_0000_0000_0000_0000 && nz * nz >= 0)
            by (nonlinear_arith)
            requires -0x2_0000_0000_0000 <= nz <= 0x2_0000_0000_0000;
    }
    let len2: u128 = (nx * nx + ny * ny + nz * nz) as u128;
    let l: u128 = crate::math::isqrt(len2);
    if l == 0 {
        0
    } else {
        let ghost anx = crate::math::iabs(nx as int);
        let ghost any = crate::math::iabs(ny as int);
        let ghost anz = crate::math::iabs(nz as int);
        let ghost m: int = if anx >= any && anx >= anz {
            anx
        } else if any >= anz {
            any
        } else {
            anz
        };
        proof {
            assert(anx * anx == nx * nx) by (nonlinear_arith)
                requires (nx >= 0 && anx == nx) || (nx < 0 && anx == -nx);
            assert(any * any == ny * ny) by (nonlinear_arith)
                requires (ny >= 0 && any == ny) || (ny < 0 && any == -ny);
            assert(anz * anz == nz * nz) by (nonlinear_arith)
                requires (nz >= 0 && anz == nz) || (nz < 0 && anz == -nz);
            assert(m * m <= len2 as int);
            crate::math::lemma_sqrt_floor_bounds(len2 as nat);
            assert(len2 as int <= 0x30_0000_0000_0000_0000_0000_0000);
            assert((l as int) * (l as int) <= len2 as int);
            assert(l as int <= 0x8_0000_0000_0000) by (nonlinear_arith)
                requires
                    (l as int) * (l as int) <= 0x30_0000_0000_0000_0000_0000_0000,
                    l >= 0;
            assert((l as i128) as int == l as int);
            if (l as int) < m {
                assert((l as int + 1) * (l as int + 1) <= m * m) by (nonlinear_arith)
                    requires l as int + 1 <= m, l >= 0;
                assert(false);
            }
            assert(nx * (light_dir.x as i128) <= m * 0x20000
                && nx * (light_dir.x as i128) >= -(m * 0x20000)) by (nonlinear_arith)
                requires -m <= nx <= m, -0x20000 <= light_dir.x <= 0x20000, m >= 0;
            assert(ny * (light_dir.y as i128) <= m * 0x20000
                && ny * (light_dir.y as i128) >= -(m * 0x20000)) by (nonlinear_arith)
                requires -m <= ny <= m, -0x20000 <= light_dir.y <= 0x20000, m >= 0;
            assert(nz * (light_dir.z as i128) <= m * 0x20000
                && nz * (light_dir.z as i128) >= -(m * 0x20000)) by (nonlinear_arith)
                requires -m <= nz <= m, -0x20000 <= light_dir.z <= 0x20000, m >= 0;
        }
        let dsum: i128 = nx * (light_dir.x as i128) + ny * (light_dir.y as i128)
            + nz * (light_dir.z as i128);
        let q = crate::math::div_trunc(dsum, l as i128);
        proof {
            let ad = crate::math::iabs(dsum as int);
            assert(ad <= m * 0x20000 + m * 0x20000 + m * 0x20000);
            assert(m * 0x20000 + m * 0x20000 + m * 0x20000 == m * 0x60000)
                by (nonlinear_arith);
            vstd::arithmetic::div_mod::lemma_div_pos_is_pos(ad, l as int);
            vstd::arithmetic::div_mod::lemma_div_is_ordered(ad, m * 0x60000, l as int);
            assert(m * 0x60000 <= (l as int) * 0x60000) by (nonlinear_arith)
                requires m <= l as int;
            vstd::arithmetic::div_mod::lemma_div_is_ordered(
                m * 0x60000, (l as int) * 0x60000, l as int);
            vstd::arithmetic::div_mod::lemma_div_multiples_vanish(0x60000, l as int);
            assert(((l as int) * 0x60000) / (l as int) == 0x60000);
            assert(ad / (l as int) <= 0x60000);
            assert(crate::math::iabs(q as int) == ad / (l as int));
        }
        q as i64
    }
}

/// How many primitives of the list are not triangles: those the renderer
/// skips and reports.
pub open spec fn n_skipped(shapes: Seq<Primitive>) -> int
    decreases shapes.len(),
{
    if shapes.len() == 0 {
        0
    } else {
        n_skipped(shapes.drop_last()) + (match shapes.last() {
            Primitive::Triangle(_, _, _) => 0int,
            _ => 1int,
        })
    }
}

/// Every triangle face of the mesh faces away from the light: none will
/// contribute a pixel.
pub open spec fn all_culled(m: Mesh) -> bool {
    forall|i: int| 0 <= i < m.shapes@.len() ==> (match #[trigger] m.shapes@[i] {
        Primitive::Triangle(a, b, c) => intensity_spec(
            m.vertices@[a.0 as int],
            m.vertices@[b.0 as int],
            m.vertices@[c.0 as int],
            light_dir_spec(),
        ) < 0,
        _ => true,
    })
}

/// What projecting one model coordinate onto an axis of the given pixel
/// extent yields: `(coord + 1) * extent / 2` in Q16, truncating toward
/// zero.
pub open spec fn project_coord(coord: int, extent: int) -> int {
    crate::math::tdiv((coord + 65536) * extent, 2)
}

/// The projected screen point of a model vertex on a w-by-h canvas: x and
/// y scaled into pixel space, the model depth kept unscaled.
pub open spec fn project_vertex(v: Vec3, w: int, h: int) -> Point3q {
    Point { x: project_coord(v.x as int, w) as i64, y: project_coord(v.y as int, h) as i64, z: v.z }
}

/// Projects one model coordinate into canvas space, staying in Q16:
/// `(coord + 1) * extent / 2`, truncating toward zero.
fn project(coord: i64, extent: u32) -> (r: i64)
    requires
        -0x20000 <= coord <= 0x20000,
        extent <= 8192,
    ensures
        r as int == project_coord(coord as int, extent as int),
        -COORD_LIMIT <= r <= COORD_LIMIT,
{
    proof {
        assert((coord + 65536) * extent <= 0x6000_0000
            && (coord + 65536) * extent >= -0x6000_0000) by (nonlinear_arith)
            requires -0x10000 <= coord + 65536 <= 0x30000, 0 <= extent <= 8192;
    }
    let t: i128 = (coord as i128 + 65536) * (extent as i128);
    let r = crate::math::div_trunc(t, 2);
    proof {
        let at = crate::math::iabs(t as int);
        vstd::arithmetic::div_mod::lemma_div_pos_is_pos(at, 2);
        vstd::arithmetic::div_mod::lemma_div_is_ordered(at, 0x6000_0000, 2);
        assert(0x6000_0000int / 2 == 0x3000_0000);
        assert(crate::math::iabs(r as int) == at / 2);
    }
    r as i64
}

/// The texture coordinate an optional index names; a missing index,
/// ruled out for textured meshes, reads as the origin.
pub open spec fn tex_of(obj: Mesh, idx: Option<usize>) -> Point3q {
    match idx {
        Some(t) => obj.tex_vertices@[t as int],
        None => Point { x: 0i64, y: 0i64, z: 0i64 },
    }
}

/// The style one face is filled with: a textured style carries that
/// face's own texture coordinates; any other style is used as given.
pub open spec fn face_style(style: DrawStyle, obj: Mesh, a: (usize, Option<usize>), b: (usize, Option<usize>), c: (usize, Option<usize>)) -> DrawStyle {
    match style {
        DrawStyle::Textured(tex, _) => DrawStyle::Textured(
            tex,
            (tex_of(obj, a.1), tex_of(obj, b.1), tex_of(obj, c.1)),
        ),
        _ => style,
    }
}

/// What rendering face `k` of the mesh does to the canvas: a non-triangle
/// or back-facing face leaves it untouched; a visible triangle face fills
/// its projection exactly, with one rolled color for a random style and
/// deterministically for every other.
pub open spec fn face_step(pre: Image, post: Image, obj: Mesh, style: DrawStyle, k: int) -> bool {
    match obj.shapes@[k] {
        Primitive::Triangle(a, b, c) => {
            let v1 = obj.vertices@[a.0 as int];
            let v2 = obj.vertices@[b.0 as int];
            let v3 = obj.vertices@[c.0 as int];
            let inten = intensity_spec(v1, v2, v3, light_dir_spec());
            if inten >= 0 {
                let q1 = project_vertex(v1, pre.spec_width(), pre.spec_height());
                let q2 = project_vertex(v2, pre.spec_width(), pre.spec_height());
                let q3 = project_vertex(v3, pre.spec_width(), pre.spec_height());
                let st = face_style(style, obj, a, b, c);
                &&& post.wf()
                &&& post.same_shape(&pre)
                &&& (if is_random(style) {
                    exists|rc: Color|
                        #![trigger fill_outcome(pre, post, q1, q2, q3, st, rc, inten as i64)]
                        fill_outcome(pre, post, q1, q2, q3, st, rc, inten as i64)
                } else {
                    fill_outcome(pre, post, q1, q2, q3, st, Color(0, 0, 0), inten as i64)
                })
            } else {
                post == pre
            }
        },
        _ => post == pre,
    }
}

/// The canvas after rendering the first `n` faces in source mesh order:
/// some trail of canvases leads from `pre` to `post` by one per-face step
/// at a time. Source order is the observable tie-break for overlapping
/// geometry of equal depth.
pub open spec fn render_chain(pre: Image, post: Image, obj: Mesh, style: DrawStyle, n: int) -> bool {
    exists|trail: Seq<Image>|
        #![trigger trail.len()]
        {
            &&& trail.len() == n + 1
            &&& trail[0] == pre
            &&& trail[n] == post
            &&& forall|k: int| 0 <= k < n
                ==> face_step(#[trigger] trail[k], trail[k + 1], obj, style, k)
        }
}

/// Renders every triangle face of the mesh: computes the face intensity
/// against the fixed light along the negative depth axis, culls
/// back-facing triangles (negative intensity), projects the vertices to
/// canvas space keeping the model depth, and fills them in the active
/// style. Non-triangle primitives are skipped; their count is returned so
/// the caller can report them.
#[verifier::loop_isolation(false)]
pub fn draw_obj(image: &mut Image, obj: &Mesh, draw_style: &DrawStyle) -> (skipped: usize)
    requires
        old(image).wf(),
        obj.wf(),
        style_fill_ok(*draw_style),
        is_textured(*draw_style) ==> obj.textured_wf(),
    ensures
        final(image).wf(),
        final(image).same_shape(old(image)),
        skipped as int == n_skipped(obj.shapes@),
        all_culled(*obj) ==> final(image).colors() == old(image).colors()
            && final(image).depths() == old(image).depths(),
        forall|px: int, py: int| old(image).in_bounds(px, py)
            ==> final(image).depths()[old(image).idx(px, py)] as int
                >= old(image).depths()[old(image).idx(px, py)] as int,
        render_chain(*old(image), *final(image), *obj, *draw_style, obj.shapes@.len() as int),
{
    let light = Vec3::new(0, 0, -65536);
    let width = image.width();
    let height = image.height();
    let mut skipped: usize = 0;
    let mut i: usize = 0;
    let n = obj.shapes.len();
    let ghost mut trail: Seq<Image> = seq![*image];
    while i < n
        invariant
            i <= n,
            image.wf(),
            image.same_shape(old(image)),
            skipped as int == n_skipped(obj.shapes@.take(i as int)),
            skipped <= i,
            all_culled(*obj) ==> image.colors() == old(image).colors()
                && image.depths() == old(image).depths(),
            forall|px: int, py: int| old(image).in_bounds(px, py)
                ==> image.depths()[old(image).idx(px, py)] as int
                    >= old(image).depths()[old(image).idx(px, py)] as int,
            trail.len() == i + 1,
            trail[0] == *old(image),
            trail[i as int] == *image,
            forall|k: int| 0 <= k < i
                ==> face_step(#[trigger] trail[k], trail[k + 1], *obj, *draw_style, k),
        decreases n - i,
    {
        let ghost prefix = obj.shapes@.take(i as int);
        let ghost pre = *image;
        let shape = obj.shapes[i];
        match shape {
            Primitive::Triangle(ia, ib, ic) => {
                let v1 = obj.vertices[ia.0];
                let v2 = obj.vertices[ib.0];
                let v3 = obj.vertices[ic.0];
                let intensity = calculate_intensity(&v1, &v2, &v3, &light);
                if intensity >= 0 {
                    proof {
                        if all_culled(*obj) {
                            assert(match obj.shapes@[i as int] {
                                Primitive::Triangle(a, b, c) => intensity_spec(
                                    obj.vertices@[a.0 as int],
                                    obj.vertices@[b.0 as int],
                                    obj.vertices@[c.0 as int],
                                    light_dir_spec(),
                                ) < 0,
                                _ => true,
                            });
                            assert(false);
                        }
                    }
                    let p1 = Point::new(project(v1.x, width), project(v1.y, height), v1.z);
                    let p2 = Point::new(project(v2.x, width), project(v2.y, height), v2.z);
                    let p3 = Point::new(project(v3.x, width), project(v3.y, height), v3.z);
                    match draw_style {
                        DrawStyle::Textured(tex, _) => {
                            let t1 = tex_at(obj, ia.1);
                            let t2 = tex_at(obj, ib.1);
                            let t3 = tex_at(obj, ic.1);
                            let style2 = DrawStyle::Textured(*tex, (t1, t2, t3));
                            image.triangle(&p1, &p2, &p3, &style2, intensity);
                            proof {
                                let rcw = choose|rcol: Color| fill_outcome(
                                    pre, *image, p1, p2, p3, style2, rcol, intensity);
                                assert(fill_outcome(
                                    pre, *image, p1, p2, p3, style2, rcw, intensity));
                                assert(t1 == tex_of(*obj, ia.1));
                                assert(t2 == tex_of(*obj, ib.1));
                                assert(t3 == tex_of(*obj, ic.1));
                                assert(style2 == face_style(*draw_style, *obj, ia, ib, ic));
                                assert(intensity_spec(v1, v2, v3, light_dir_spec())
                                    == intensity as int);
                                assert(intensity_spec(v1, v2, v3, light_dir_spec()) as i64
                                    == intensity);
                                assert(p1 == project_vertex(
                                    v1, pre.spec_width(), pre.spec_height()));
                                assert(p2 == project_vertex(
                                    v2, pre.spec_width(), pre.spec_height()));
                                assert(p3 == project_vertex(
                                    v3, pre.spec_width(), pre.spec_height()));
                                assert(face_step(pre, *image, *obj, *draw_style, i as int));
                            }
                        },
                        _ => {
                            image.triangle(&p1, &p2, &p3, draw_style, intensity);
                            proof {
                                let rcw = choose|rcol: Color| fill_outcome(
                                    pre, *image, p1, p2, p3, *draw_style, rcol, intensity);
                                assert(fill_outcome(
                                    pre, *image, p1, p2, p3, *draw_style, rcw, intensity));
                                assert(face_style(*draw_style, *obj, ia, ib, ic)
                                    == *draw_style);
                                assert(intensity_spec(v1, v2, v3, light_dir_spec())
                                    == intensity as int);
                                assert(intensity_spec(v1, v2, v3, light_dir_spec()) as i64
                                    == intensity);
                                assert(p1 == project_vertex(
                                    v1, pre.spec_width(), pre.spec_height()));
                                assert(p2 == project_vertex(
                                    v2, pre.spec_width(), pre.spec_height()));
                                assert(p3 == project_vertex(
                                    v3, pre.spec_width(), pre.spec_height()));
                                assert(face_step(pre, *image, *obj, *draw_style, i as int));
                            }
                        },
                    }
                } else {
                    proof {
                        assert(face_step(pre, *image, *obj, *draw_style, i as int));
                    }
                }
            },
            _ => {
                skipped = skipped + 1;
                proof {
                    assert(face_step(pre, *image, *obj, *draw_style, i as int));
                }
            },
        }
        proof {
            assert forall|px: int, py: int| old(image).in_bounds(px, py)
                implies image.depths()[old(image).idx(px, py)] as int
                    >= old(image).depths()[old(image).idx(px, py)] as int by {
                assert(pre.in_bounds(px, py) == old(image).in_bounds(px, py));
                assert(pre.idx(px, py) == old(image).idx(px, py));
            }
            assert(face_step(pre, *image, *obj, *draw_style, i as int));
            trail = trail.push(*image);
            assert(trail[i as int] == pre);
            assert(trail[i as int + 1] == *image);
            assert(obj.shapes@.take(i as int + 1).drop_last() =~= prefix);
            assert(obj.shapes@.take(i as int + 1).last() == obj.shapes@[i as int]);
        }
        i = i + 1;
    }
    proof {
        assert(obj.shapes@.take(n as int) =~= obj.shapes@);
        assert(trail.len() == n + 1);
        assert(trail[0] == *old(image));
        assert(trail[n as int] == *image);
        assert(render_chain(*old(image), *image, *obj, *draw_style, n as int));
    }
    skipped
}

/// One texture coordinate of the mesh, by its (present) index.
fn tex_at(obj: &Mesh, idx: Option<usize>) -> (t: Point3q)
    requires
        idx is Some,
        idx matches Some(j) ==> j < obj.tex_vertices@.len(),
    ensures
        idx matches Some(j) ==> t == obj.tex_vertices@[j as int],
{
    match idx {
        Some(j) => obj.tex_vertices[j],
        None => {
            proof {
                assert(false);
            }
            Point::new(0, 0, 0)
        },
    }
}

} // verus!
