//! The canvas and the rasterization primitives: a color grid paired with a
//! same-sized depth grid, Bresenham line drawing, and barycentric triangle
//! filling with a per-pixel depth test.

use vstd::prelude::*;
use vstd::arithmetic::div_mod::{
    lemma_fundamental_div_mod_converse_div, lemma_div_is_ordered, lemma_div_nonincreasing,
    lemma_div_pos_is_pos, lemma_div_multiples_vanish,
};
use crate::color::{Color, scale_spec};
use crate::math::{div_floor, div_trunc, fdiv, iabs, lemma_fdiv_neg, lemma_tdiv_bounds, tdiv};
use crate::DrawStyle;

verus! {

/// A point with three like-typed components.
#[derive(Clone, Copy, Debug, PartialEq, Eq, Structural)]
pub struct Point<T> {
    pub x: T,
    pub y: T,
    pub z: T,
}

/// A point snapped to whole pixels.
pub type ScreenPoint = Point<u32>;

/// A screen-space point in Q16 fixed-point: x and y are sub-pixel
/// positions, z is the interpolation-space depth (larger = nearer).
pub type Point3q = Point<i64>;

impl<T> Point<T> {
    pub fn new(x: T, y: T, z: T) -> (r: Point<T>)
        ensures
            r == (Point { x, y, z }),
    {
        Point { x, y, z }
    }
}

fn min(a: i64, b: i64) -> (r: i64)
    ensures
        r == if a < b { a } else { b },
{
    if a < b {
        a
    } else {
        b
    }
}

fn max(a: i64, b: i64) -> (r: i64)
    ensures
        r == if a > b { a } else { b },
{
    if a > b {
        a
    } else {
        b
    }
}

impl Point<i64> {
    /// The component-wise minimum of two points.
    pub fn min(&self, other: &Point<i64>) -> (r: Point<i64>)
        ensures
            r.x == if self.x < other.x { self.x } else { other.x },
            r.y == if self.y < other.y { self.y } else { other.y },
            r.z == if self.z < other.z { self.z } else { other.z },
    {
        Point { x: min(self.x, other.x), y: min(self.y, other.y), z: min(self.z, other.z) }
    }

    /// The component-wise maximum of two points.
    pub fn max(&self, other: &Point<i64>) -> (r: Point<i64>)
        ensures
            r.x == if self.x > other.x { self.x } else { other.x },
            r.y == if self.y > other.y { self.y } else { other.y },
            r.z == if self.z > other.z { self.z } else { other.z },
    {
        Point { x: max(self.x, other.x), y: max(self.y, other.y), z: max(self.z, other.z) }
    }

    /// Snaps a Q16 point to whole pixels: each component is divided by the
    /// fixed-point unit, rounding down, and clamped into `u32` range.
    pub fn to_screen(&self) -> (r: ScreenPoint)
        ensures
            r.x as int == snap_coord(self.x as int),
            r.y as int == snap_coord(self.y as int),
            r.z as int == snap_coord(self.z as int),
    {
        Point { x: snap_u32(self.x), y: snap_u32(self.y), z: snap_u32(self.z) }
    }
}

/// What snapping one Q16 coordinate to a pixel index yields: negative
/// coordinates clamp to 0, large ones to `u32::MAX`.
pub open spec fn snap_coord(v: int) -> int {
    if v < 0 {
        0
    } else if v / 65536 > u32::MAX {
        u32::MAX as int
    } else {
        v / 65536
    }
}

fn snap_u32(v: i64) -> (r: u32)
    ensures
        r as int == snap_coord(v as int),
{
    if v < 0 {
        0
    } else {
        let q: u64 = (v as u64) / 65536;
        if q > 0xFFFF_FFFF {
            0xFFFF_FFFF
        } else {
            q as u32
        }
    }
}

/// Whether a line is steep: taller than it is wide. A steep line is walked
/// along y instead of x.
pub open spec fn line_steep(x0: int, y0: int, x1: int, y1: int) -> bool {
    iabs(x1 - x0) < iabs(y1 - y0)
}

/// The endpoint-order-independent normal form `(a0, b0, a1, b1)` of a
/// line: for a steep line the x and y roles are swapped, and the endpoints
/// are ordered so the major axis `a` runs low to high.
pub open spec fn line_norm(x0: int, y0: int, x1: int, y1: int) -> (int, int, int, int) {
    let (a0, b0, a1, b1) = if line_steep(x0, y0, x1, y1) {
        (y0, x0, y1, x1)
    } else {
        (x0, y0, x1, y1)
    };
    if a0 > a1 {
        (a1, b1, a0, b0)
    } else {
        (a0, b0, a1, b1)
    }
}

/// The Bresenham error accumulation in closed form: after `k` major-axis
/// steps of a normalized line (`dx >= 1`, `0 <= ady <= dx`), the walk has
/// taken this many minor-axis steps.
pub open spec fn bres_steps(dx: int, ady: int, k: int) -> int {
    (2 * ady * k + dx - 1) / (2 * dx)
}

/// The minor coordinate of the k-th pixel of a normalized line starting at
/// minor coordinate `b0` with major extent `dx` and minor delta `dy`.
pub open spec fn line_minor(dx: int, dy: int, b0: int, k: int) -> int {
    if dx == 0 {
        b0
    } else if dy >= 0 {
        b0 + bres_steps(dx, dy, k)
    } else {
        b0 - bres_steps(dx, -dy, k)
    }
}

/// The pixels of the line from `(x0, y0)` to `(x1, y1)`, in the order the
/// normalized walk visits them: one pixel per major-axis position.
pub open spec fn line_points(x0: int, y0: int, x1: int, y1: int) -> Seq<(int, int)> {
    let steep = line_steep(x0, y0, x1, y1);
    let (a0, b0, a1, b1) = line_norm(x0, y0, x1, y1);
    Seq::new(
        (a1 - a0 + 1) as nat,
        |k: int|
            if steep {
                (line_minor(a1 - a0, b1 - b0, b0, k), a0 + k)
            } else {
                (a0 + k, line_minor(a1 - a0, b1 - b0, b0, k))
            },
    )
}

/// Whether the line from `(x0, y0)` to `(x1, y1)` writes pixel `(px, py)`.
pub open spec fn line_covers(x0: int, y0: int, x1: int, y1: int, px: int, py: int) -> bool {
    let steep = line_steep(x0, y0, x1, y1);
    let (a0, b0, a1, b1) = line_norm(x0, y0, x1, y1);
    let ma = if steep { py } else { px };
    let mi = if steep { px } else { py };
    a0 <= ma <= a1 && mi == line_minor(a1 - a0, b1 - b0, b0, ma - a0)
}

/// The minor-axis step count stays between 0 and the full minor extent.
pub proof fn lemma_bres_steps_bounds(dx: int, ady: int, k: int)
    requires
        1 <= dx,
        0 <= ady <= dx,
        0 <= k <= dx,
    ensures
        0 <= bres_steps(dx, ady, k) <= ady,
{
    let num = 2 * ady * k + dx - 1;
    assert(2 * ady * k >= 0) by (nonlinear_arith)
        requires ady >= 0, k >= 0;
    lemma_div_pos_is_pos(num, 2 * dx);
    assert(2 * ady * k <= ady * (2 * dx)) by (nonlinear_arith)
        requires 0 <= k <= dx, ady >= 0;
    let top = ady * (2 * dx) + (2 * dx - 1);
    lemma_fundamental_div_mod_converse_div(top, 2 * dx, ady, 2 * dx - 1);
    lemma_div_is_ordered(num, top, 2 * dx);
}

/// The machine invariant of the error accumulator pins the step count:
/// any `s` with `-dx < 2*ady*k - 2*dx*s <= dx` is the closed form.
pub proof fn lemma_bres_steps_unique(dx: int, ady: int, k: int, s: int, e: int)
    requires
        1 <= dx,
        0 <= ady,
        e == 2 * ady * k - 2 * dx * s,
        -dx < e <= dx,
    ensures
        s == bres_steps(dx, ady, k),
{
    let num = 2 * ady * k + dx - 1;
    let r = e + dx - 1;
    assert(num == s * (2 * dx) + r) by (nonlinear_arith)
        requires
            e == 2 * ady * k - 2 * dx * s,
            num == 2 * ady * k + dx - 1,
            r == e + dx - 1;
    lemma_fundamental_div_mod_converse_div(num, 2 * dx, s, r);
}

/// Line drawing is symmetric in its endpoints: the walk from `(x0, y0)` to
/// `(x1, y1)` visits exactly the pixels of the walk from `(x1, y1)` to
/// `(x0, y0)`, and a canvas sees the same covered set either way.
pub proof fn lemma_line_symmetric(x0: int, y0: int, x1: int, y1: int)
    ensures
        line_points(x0, y0, x1, y1) == line_points(x1, y1, x0, y0),
        forall|px: int, py: int| line_covers(x0, y0, x1, y1, px, py)
            == line_covers(x1, y1, x0, y0, px, py),
{
    assert(line_norm(x0, y0, x1, y1) == line_norm(x1, y1, x0, y0));
    assert(line_points(x0, y0, x1, y1) =~= line_points(x1, y1, x0, y0));
}

/// A line writes exactly `max(|x1 - x0|, |y1 - y0|) + 1` pixels: its walk
/// has that many positions and no position repeats.
pub proof fn lemma_line_pixel_count(x0: int, y0: int, x1: int, y1: int)
    ensures
        line_points(x0, y0, x1, y1).len()
            == (if iabs(x1 - x0) > iabs(y1 - y0) { iabs(x1 - x0) } else { iabs(y1 - y0) }) + 1,
        forall|i: int, j: int|
            0 <= i < j < line_points(x0, y0, x1, y1).len()
                ==> line_points(x0, y0, x1, y1)[i] != line_points(x0, y0, x1, y1)[j],
{
}

/// A pixel is covered by a line exactly when it is one of the line's walk
/// positions.
pub proof fn lemma_line_covers_is_points(x0: int, y0: int, x1: int, y1: int, px: int, py: int)
    ensures
        line_covers(x0, y0, x1, y1, px, py)
            <==> line_points(x0, y0, x1, y1).contains((px, py)),
{
    let pts = line_points(x0, y0, x1, y1);
    let steep = line_steep(x0, y0, x1, y1);
    let (a0, b0, a1, b1) = line_norm(x0, y0, x1, y1);
    if line_covers(x0, y0, x1, y1, px, py) {
        let ma = if steep { py } else { px };
        assert(pts[ma - a0] == (px, py));
        assert(pts.contains((px, py)));
    }
    if pts.contains((px, py)) {
        let i = choose|i: int| 0 <= i < pts.len() && pts[i] == (px, py);
        assert(pts[i] == (px, py));
    }
}

/// Distinct in-bounds pixels have distinct row-major indices.
pub proof fn lemma_idx_injective(w: int, x1: int, y1: int, x2: int, y2: int)
    requires
        0 <= x1 < w,
        0 <= x2 < w,
        y1 * w + x1 == y2 * w + x2,
    ensures
        x1 == x2 && y1 == y2,
{
    assert(x1 == x2 && y1 == y2) by (nonlinear_arith)
        requires
            0 <= x1 < w,
            0 <= x2 < w,
            y1 * w + x1 == y2 * w + x2;
}

/// The largest coordinate magnitude the rasterizer accepts, in Q16: keeps
/// every barycentric product inside the machine integers.
pub const COORD_LIMIT: i64 = 0x4000_0000;

/// A Q16 point whose components the rasterizer's arithmetic can hold.
pub open spec fn coord_ok(p: Point3q) -> bool {
    &&& -COORD_LIMIT <= p.x <= COORD_LIMIT
    &&& -COORD_LIMIT <= p.y <= COORD_LIMIT
    &&& -COORD_LIMIT <= p.z <= COORD_LIMIT
}

/// The doubled signed area of the projected triangle: the common
/// denominator of the barycentric weights. Zero exactly for degenerate
/// (collinear) triangles.
pub open spec fn bary_denom(p1: Point3q, p2: Point3q, p3: Point3q) -> int {
    (p1.x - p3.x) * (p2.y - p3.y) - (p1.y - p3.y) * (p2.x - p3.x)
}

/// The numerator of the first barycentric weight of `(px, py)`: the weight
/// itself is this over `bary_denom`.
pub open spec fn bary_n1(p1: Point3q, p2: Point3q, p3: Point3q, px: int, py: int) -> int {
    (px - p3.x) * (p2.y - p3.y) + (p3.x - p2.x) * (py - p3.y)
}

/// The numerator of the second barycentric weight.
pub open spec fn bary_n2(p1: Point3q, p2: Point3q, p3: Point3q, px: int, py: int) -> int {
    (p3.x - px) * (p1.y - p3.y) + (p3.x - p1.x) * (p3.y - py)
}

/// The numerator of the third barycentric weight: the three weights sum
/// to one.
pub open spec fn bary_n3(p1: Point3q, p2: Point3q, p3: Point3q, px: int, py: int) -> int {
    bary_denom(p1, p2, p3) - bary_n1(p1, p2, p3, px, py) - bary_n2(p1, p2, p3, px, py)
}

/// Inside or on the boundary: all three weights are at least zero, i.e.
/// every numerator carries the sign of the (non-zero) denominator. No
/// pixel of a degenerate triangle is inside.
pub open spec fn inside_triangle(p1: Point3q, p2: Point3q, p3: Point3q, px: int, py: int) -> bool {
    let d = bary_denom(p1, p2, p3);
    let n1 = bary_n1(p1, p2, p3, px, py);
    let n2 = bary_n2(p1, p2, p3, px, py);
    let n3 = bary_n3(p1, p2, p3, px, py);
    ||| (d > 0 && n1 >= 0 && n2 >= 0 && n3 >= 0)
    ||| (d < 0 && n1 <= 0 && n2 <= 0 && n3 <= 0)
}

/// The depth the rasterizer stores at `(px, py)`: the barycentric
/// combination of the vertex depths, divided last, truncating toward zero.
pub open spec fn interp_depth(p1: Point3q, p2: Point3q, p3: Point3q, px: int, py: int) -> int {
    tdiv(
        bary_n1(p1, p2, p3, px, py) * p1.z + bary_n2(p1, p2, p3, px, py) * p2.z
            + bary_n3(p1, p2, p3, px, py) * p3.z,
        bary_denom(p1, p2, p3),
    )
}

/// At each vertex of a non-degenerate triangle the barycentric weights are
/// exactly (1, 0, 0), (0, 1, 0) and (0, 0, 1) in the matching position:
/// the numerators there are (denom, 0, 0), (0, denom, 0), (0, 0, denom).
pub proof fn lemma_barycentric_at_vertices(p1: Point3q, p2: Point3q, p3: Point3q)
    ensures
        bary_n1(p1, p2, p3, p1.x as int, p1.y as int) == bary_denom(p1, p2, p3),
        bary_n2(p1, p2, p3, p1.x as int, p1.y as int) == 0,
        bary_n3(p1, p2, p3, p1.x as int, p1.y as int) == 0,
        bary_n1(p1, p2, p3, p2.x as int, p2.y as int) == 0,
        bary_n2(p1, p2, p3, p2.x as int, p2.y as int) == bary_denom(p1, p2, p3),
        bary_n3(p1, p2, p3, p2.x as int, p2.y as int) == 0,
        bary_n1(p1, p2, p3, p3.x as int, p3.y as int) == 0,
        bary_n2(p1, p2, p3, p3.x as int, p3.y as int) == 0,
        bary_n3(p1, p2, p3, p3.x as int, p3.y as int) == bary_denom(p1, p2, p3),
{
    let x1 = p1.x as int; let y1 = p1.y as int;
    let x2 = p2.x as int; let y2 = p2.y as int;
    let x3 = p3.x as int; let y3 = p3.y as int;
    assert((x1 - x3) * (y2 - y3) + (x3 - x2) * (y1 - y3)
        == (x1 - x3) * (y2 - y3) - (y1 - y3) * (x2 - x3)) by (nonlinear_arith);
    assert((x3 - x1) * (y1 - y3) + (x3 - x1) * (y3 - y1) == 0) by (nonlinear_arith);
    assert((x2 - x3) * (y2 - y3) + (x3 - x2) * (y2 - y3) == 0) by (nonlinear_arith);
    assert((x3 - x2) * (y1 - y3) + (x3 - x1) * (y3 - y2)
        == (x1 - x3) * (y2 - y3) - (y1 - y3) * (x2 - x3)
            - ((x2 - x3) * (y2 - y3) + (x3 - x2) * (y2 - y3))) by (nonlinear_arith);
    assert((x3 - x3) * (y2 - y3) + (x3 - x2) * (y3 - y3) == 0) by (nonlinear_arith);
    assert((x3 - x3) * (y1 - y3) + (x3 - x1) * (y3 - y3) == 0) by (nonlinear_arith);
}

/// The barycentric numerators sum to the denominator and reproduce the
/// sample point.
pub proof fn lemma_bary_identities(p1: Point3q, p2: Point3q, p3: Point3q, px: int, py: int)
    ensures
        bary_n1(p1, p2, p3, px, py) + bary_n2(p1, p2, p3, px, py) + bary_n3(p1, p2, p3, px, py)
            == bary_denom(p1, p2, p3),
        bary_n1(p1, p2, p3, px, py) * p1.x + bary_n2(p1, p2, p3, px, py) * p2.x
            + bary_n3(p1, p2, p3, px, py) * p3.x == bary_denom(p1, p2, p3) * px,
        bary_n1(p1, p2, p3, px, py) * p1.y + bary_n2(p1, p2, p3, px, py) * p2.y
            + bary_n3(p1, p2, p3, px, py) * p3.y == bary_denom(p1, p2, p3) * py,
{
    let x1 = p1.x as int; let y1 = p1.y as int;
    let x2 = p2.x as int; let y2 = p2.y as int;
    let x3 = p3.x as int; let y3 = p3.y as int;
    let a = x1 - x3; let c = x2 - x3;
    let e = y1 - y3; let f = y2 - y3;
    let u = px - x3; let v = py - y3;
    let d = bary_denom(p1, p2, p3);
    let n1 = bary_n1(p1, p2, p3, px, py);
    let n2 = bary_n2(p1, p2, p3, px, py);
    let n3 = bary_n3(p1, p2, p3, px, py);
    assert(n1 == u * f - c * v) by (nonlinear_arith)
        requires
            n1 == (px - x3) * (y2 - y3) + (x3 - x2) * (py - y3),
            u == px - x3, f == y2 - y3, c == x2 - x3, v == py - y3, x3 == x3, y3 == y3;
    assert(n2 == a * v - u * e) by (nonlinear_arith)
        requires
            n2 == (x3 - px) * (y1 - y3) + (x3 - x1) * (y3 - py),
            a == x1 - x3, v == py - y3, u == px - x3, e == y1 - y3;
    assert(d == a * f - e * c) by (nonlinear_arith)
        requires
            d == (x1 - x3) * (y2 - y3) - (y1 - y3) * (x2 - x3),
            a == x1 - x3, f == y2 - y3, e == y1 - y3, c == x2 - x3;
    assert(n1 * a + n2 * c == d * u) by (nonlinear_arith)
        requires n1 == u * f - c * v, n2 == a * v - u * e, d == a * f - e * c;
    assert(n1 * e + n2 * f == d * v) by (nonlinear_arith)
        requires n1 == u * f - c * v, n2 == a * v - u * e, d == a * f - e * c;
    assert(n1 * x1 == n1 * a + n1 * x3) by (nonlinear_arith)
        requires a == x1 - x3;
    assert(n2 * x2 == n2 * c + n2 * x3) by (nonlinear_arith)
        requires c == x2 - x3;
    assert(n3 * x3 == d * x3 - n1 * x3 - n2 * x3) by (nonlinear_arith)
        requires n3 == d - n1 - n2;
    assert(d * px == d * u + d * x3) by (nonlinear_arith)
        requires u == px - x3;
    assert(n1 * y1 == n1 * e + n1 * y3) by (nonlinear_arith)
        requires e == y1 - y3;
    assert(n2 * y2 == n2 * f + n2 * y3) by (nonlinear_arith)
        requires f == y2 - y3;
    assert(n3 * y3 == d * y3 - n1 * y3 - n2 * y3) by (nonlinear_arith)
        requires n3 == d - n1 - n2;
    assert(d * py == d * v + d * y3) by (nonlinear_arith)
        requires v == py - y3;
}

/// A value reproduced by non-negative weights stays between the least and
/// greatest of the weighted values.
proof fn lemma_convex_bound(n1: int, n2: int, n3: int, v1: int, v2: int, v3: int, d: int, p: int, lo: int, hi: int)
    requires
        n1 + n2 + n3 == d,
        n1 * v1 + n2 * v2 + n3 * v3 == d * p,
        lo <= v1 <= hi,
        lo <= v2 <= hi,
        lo <= v3 <= hi,
        (d > 0 && n1 >= 0 && n2 >= 0 && n3 >= 0) || (d < 0 && n1 <= 0 && n2 <= 0 && n3 <= 0),
    ensures
        lo <= p <= hi,
{
    assert(n1 * hi + n2 * hi + n3 * hi == d * hi) by (nonlinear_arith)
        requires n1 + n2 + n3 == d;
    assert(n1 * lo + n2 * lo + n3 * lo == d * lo) by (nonlinear_arith)
        requires n1 + n2 + n3 == d;
    if d > 0 {
        assert(n1 * v1 <= n1 * hi) by (nonlinear_arith)
            requires n1 >= 0, v1 <= hi;
        assert(n2 * v2 <= n2 * hi) by (nonlinear_arith)
            requires n2 >= 0, v2 <= hi;
        assert(n3 * v3 <= n3 * hi) by (nonlinear_arith)
            requires n3 >= 0, v3 <= hi;
        assert(n1 * lo <= n1 * v1) by (nonlinear_arith)
            requires n1 >= 0, lo <= v1;
        assert(n2 * lo <= n2 * v2) by (nonlinear_arith)
            requires n2 >= 0, lo <= v2;
        assert(n3 * lo <= n3 * v3) by (nonlinear_arith)
            requires n3 >= 0, lo <= v3;
        assert(d * lo <= d * p <= d * hi);
        assert(p <= hi) by (nonlinear_arith)
            requires d * p <= d * hi, d > 0;
        assert(lo <= p) by (nonlinear_arith)
            requires d * lo <= d * p, d > 0;
    } else {
        assert(n1 * hi <= n1 * v1) by (nonlinear_arith)
            requires n1 <= 0, v1 <= hi;
        assert(n2 * hi <= n2 * v2) by (nonlinear_arith)
            requires n2 <= 0, v2 <= hi;
        assert(n3 * hi <= n3 * v3) by (nonlinear_arith)
            requires n3 <= 0, v3 <= hi;
        assert(n1 * v1 <= n1 * lo) by (nonlinear_arith)
            requires n1 <= 0, lo <= v1;
        assert(n2 * v2 <= n2 * lo) by (nonlinear_arith)
            requires n2 <= 0, lo <= v2;
        assert(n3 * v3 <= n3 * lo) by (nonlinear_arith)
            requires n3 <= 0, lo <= v3;
        assert(d * hi <= d * p <= d * lo);
        assert(p <= hi) by (nonlinear_arith)
            requires d * hi <= d * p, d < 0;
        assert(lo <= p) by (nonlinear_arith)
            requires d * p <= d * lo, d < 0;
    }
}

/// The least of three values.
pub open spec fn min3(a: int, b: int, c: int) -> int {
    if a <= b && a <= c { a } else if b <= c { b } else { c }
}

/// The greatest of three values.
pub open spec fn max3(a: int, b: int, c: int) -> int {
    if a >= b && a >= c { a } else if b >= c { b } else { c }
}

/// Every point inside a triangle lies in the triangle's bounding box.
/// Read contrapositively, this is the outside test: for any point outside
/// the box, at least one barycentric weight is negative.
pub proof fn lemma_inside_in_bbox(p1: Point3q, p2: Point3q, p3: Point3q, px: int, py: int)
    requires
        inside_triangle(p1, p2, p3, px, py),
    ensures
        min3(p1.x as int, p2.x as int, p3.x as int) <= px
            <= max3(p1.x as int, p2.x as int, p3.x as int),
        min3(p1.y as int, p2.y as int, p3.y as int) <= py
            <= max3(p1.y as int, p2.y as int, p3.y as int),
{
    lemma_bary_identities(p1, p2, p3, px, py);
    let d = bary_denom(p1, p2, p3);
    let n1 = bary_n1(p1, p2, p3, px, py);
    let n2 = bary_n2(p1, p2, p3, px, py);
    let n3 = bary_n3(p1, p2, p3, px, py);
    lemma_convex_bound(n1, n2, n3, p1.x as int, p2.x as int, p3.x as int, d, px,
        min3(p1.x as int, p2.x as int, p3.x as int),
        max3(p1.x as int, p2.x as int, p3.x as int));
    lemma_convex_bound(n1, n2, n3, p1.y as int, p2.y as int, p3.y as int, d, py,
        min3(p1.y as int, p2.y as int, p3.y as int),
        max3(p1.y as int, p2.y as int, p3.y as int));
}

/// The barycentric numerators and denominator of `(px, py)` against the
/// triangle, exact in `i128`.
fn bary_nums(p1: &Point3q, p2: &Point3q, p3: &Point3q, px: i64, py: i64) -> (r: (i128, i128, i128, i128))
    requires
        coord_ok(*p1),
        coord_ok(*p2),
        coord_ok(*p3),
        -COORD_LIMIT <= px <= COORD_LIMIT,
        -COORD_LIMIT <= py <= COORD_LIMIT,
    ensures
        r.0 == bary_n1(*p1, *p2, *p3, px as int, py as int),
        r.1 == bary_n2(*p1, *p2, *p3, px as int, py as int),
        r.2 == bary_n3(*p1, *p2, *p3, px as int, py as int),
        r.3 == bary_denom(*p1, *p2, *p3),
        iabs(r.0 as int) <= 0x8000_0000_0000_0000,
        iabs(r.1 as int) <= 0x8000_0000_0000_0000,
        iabs(r.2 as int) <= 0x1_8000_0000_0000_0000,
        iabs(r.3 as int) <= 0x8000_0000_0000_0000,
{
    let x1 = p1.x as i128; let y1 = p1.y as i128;
    let x2 = p2.x as i128; let y2 = p2.y as i128;
    let x3 = p3.x as i128; let y3 = p3.y as i128;
    let qx = px as i128; let qy = py as i128;
    proof {
        assert((x1 - x3) * (y2 - y3) <= 0x4000_0000_0000_0000
            && (x1 - x3) * (y2 - y3) >= -0x4000_0000_0000_0000) by (nonlinear_arith)
            requires -0x8000_0000 <= x1 - x3 <= 0x8000_0000,
                -0x8000_0000 <= y2 - y3 <= 0x8000_0000;
        assert((y1 - y3) * (x2 - x3) <= 0x4000_0000_0000_0000
            && (y1 - y3) * (x2 - x3) >= -0x4000_0000_0000_0000) by (nonlinear_arith)
            requires -0x8000_0000 <= y1 - y3 <= 0x8000_0000,
                -0x8000_0000 <= x2 - x3 <= 0x8000_0000;
        assert((qx - x3) * (y2 - y3) <= 0x4000_0000_0000_0000
            && (qx - x3) * (y2 - y3) >= -0x4000_0000_0000_0000) by (nonlinear_arith)
            requires -0x8000_0000 <= qx - x3 <= 0x8000_0000,
                -0x8000_0000 <= y2 - y3 <= 0x8000_0000;
        assert((x3 - x2) * (qy - y3) <= 0x4000_0000_0000_0000
            && (x3 - x2) * (qy - y3) >= -0x4000_0000_0000_0000) by (nonlinear_arith)
            requires -0x8000_0000 <= x3 - x2 <= 0x8000_0000,
                -0x8000_0000 <= qy - y3 <= 0x8000_0000;
        assert((x3 - qx) * (y1 - y3) <= 0x4000_0000_0000_0000
            && (x3 - qx) * (y1 - y3) >= -0x4000_0000_0000_0000) by (nonlinear_arith)
            requires -0x8000_0000 <= x3 - qx <= 0x8000_0000,
                -0x8000_0000 <= y1 - y3 <= 0x8000_0000;
        assert((x3 - x1) * (y3 - qy) <= 0x4000_0000_0000_0000
            && (x3 - x1) * (y3 - qy) >= -0x4000_0000_0000_0000) by (nonlinear_arith)
            requires -0x8000_0000 <= x3 - x1 <= 0x8000_0000,
                -0x8000_0000 <= y3 - qy <= 0x8000_0000;
    }
    let d = (x1 - x3) * (y2 - y3) - (y1 - y3) * (x2 - x3);
    let n1 = (qx - x3) * (y2 - y3) + (x3 - x2) * (qy - y3);
    let n2 = (x3 - qx) * (y1 - y3) + (x3 - x1) * (y3 - qy);
    let n3 = d - n1 - n2;
    (n1, n2, n3, d)
}

/// One Q16 barycentric weight: the numerator scaled by the fixed-point
/// unit and divided by the denominator, rounding toward negative
/// infinity, so an exactly negative weight stays negative.
pub open spec fn weight_q16(n: int, d: int) -> int {
    fdiv(65536 * n, d)
}

/// The exact (unrounded) barycentric weight `n / d` is negative.
pub open spec fn weight_negative(n: int, d: int) -> bool {
    (d > 0 && n < 0) || (d < 0 && n > 0)
}

/// The three Q16 weights `barycentric` returns for numerators
/// `(n1, n2, n3)` over `d`: each weight is floored from its own
/// numerator, so an exactly negative weight comes back at -1 or below;
/// the flooring loss is then added back to the first component whose
/// floored weight is non-negative, so the three sum to exactly one. A
/// floored weight is non-negative exactly when the exact weight is, so
/// the correction never hides a negative sign, and one of the three
/// exact weights is always positive, so a non-negative component always
/// exists to receive it.
pub open spec fn bary_weights(n1: int, n2: int, n3: int, d: int) -> (int, int, int) {
    let fa = weight_q16(n1, d);
    let fb = weight_q16(n2, d);
    let fc = weight_q16(n3, d);
    let s = 65536 - fa - fb - fc;
    if fa >= 0 {
        (fa + s, fb, fc)
    } else if fb >= 0 {
        (fa, fb + s, fc)
    } else {
        (fa, fb, fc + s)
    }
}

/// The barycentric weights of `p` against the triangle `(p1, p2, p3)`,
/// as Q16 fixed-point values, per `bary_weights`: every exactly negative
/// weight is returned negative, and the three always sum to exactly one.
/// The triangle must not be degenerate.
pub fn barycentric(p1: &Point3q, p2: &Point3q, p3: &Point3q, p: &Point3q) -> (r: (i128, i128, i128))
    requires
        coord_ok(*p1),
        coord_ok(*p2),
        coord_ok(*p3),
        coord_ok(*p),
        bary_denom(*p1, *p2, *p3) != 0,
    ensures
        (r.0 as int, r.1 as int, r.2 as int) == bary_weights(
            bary_n1(*p1, *p2, *p3, p.x as int, p.y as int),
            bary_n2(*p1, *p2, *p3, p.x as int, p.y as int),
            bary_n3(*p1, *p2, *p3, p.x as int, p.y as int),
            bary_denom(*p1, *p2, *p3),
        ),
        r.0 + r.1 + r.2 == 65536,
{
    let (n1, n2, n3, d) = bary_nums(p1, p2, p3, p.x, p.y);
    let fa = div_floor(n1 * 65536, d);
    let fb = div_floor(n2 * 65536, d);
    let fc = div_floor(n3 * 65536, d);
    let s = 65536 - fa - fb - fc;
    if fa >= 0 {
        (fa + s, fb, fc)
    } else if fb >= 0 {
        (fa, fb + s, fc)
    } else {
        (fa, fb, fc + s)
    }
}

/// For a point strictly outside a non-degenerate triangle — some exact
/// barycentric weight negative — at least one of the three Q16 weights
/// `barycentric` returns is negative: flooring sends every exactly
/// negative weight to -1 or below, and the sum correction only ever
/// lands on a component whose exact weight is non-negative.
pub proof fn lemma_outside_negative_weight(p1: Point3q, p2: Point3q, p3: Point3q, px: int, py: int)
    requires
        bary_denom(p1, p2, p3) != 0,
        weight_negative(bary_n1(p1, p2, p3, px, py), bary_denom(p1, p2, p3))
            || weight_negative(bary_n2(p1, p2, p3, px, py), bary_denom(p1, p2, p3))
            || weight_negative(bary_n3(p1, p2, p3, px, py), bary_denom(p1, p2, p3)),
    ensures
        ({
            let r = bary_weights(
                bary_n1(p1, p2, p3, px, py),
                bary_n2(p1, p2, p3, px, py),
                bary_n3(p1, p2, p3, px, py),
                bary_denom(p1, p2, p3),
            );
            r.0 < 0 || r.1 < 0 || r.2 < 0
        }),
{
    let d = bary_denom(p1, p2, p3);
    let n1 = bary_n1(p1, p2, p3, px, py);
    let n2 = bary_n2(p1, p2, p3, px, py);
    let n3 = bary_n3(p1, p2, p3, px, py);
    if weight_negative(n1, d) {
        lemma_fdiv_neg(65536 * n1, d);
    }
    if weight_negative(n2, d) {
        lemma_fdiv_neg(65536 * n2, d);
    }
    if weight_negative(n3, d) {
        lemma_fdiv_neg(65536 * n3, d);
    }
    let fa = weight_q16(n1, d);
    let fb = weight_q16(n2, d);
    let fc = weight_q16(n3, d);
    if fa >= 0 {
        assert(!weight_negative(n1, d));
        assert(weight_negative(n2, d) || weight_negative(n3, d));
        assert(fb < 0 || fc < 0);
    }
}

/// The x position, in Q16, where the segment `(p1, p2)` crosses the
/// horizontal line at `y`, truncating toward zero; a segment with equal x
/// components, or equal y components, answers `p1.x`.
pub fn intersect_y(p1: &ScreenPoint, p2: &ScreenPoint, y: u32) -> (r: i64)
    requires
        p1.x <= 0xFFFF, p1.y <= 0xFFFF,
        p2.x <= 0xFFFF, p2.y <= 0xFFFF,
        y <= 0xFFFF,
    ensures
        r == intersect_y_spec(*p1, *p2, y as int),
        -0x2_0000_0000_0000 <= r <= 0x2_0000_0000_0000,
{
    if p1.x == p2.x || p1.y == p2.y {
        return (p1.x as i64) * 65536;
    }
    let dy: i128 = y as i128 - p1.y as i128;
    let sx: i128 = p2.x as i128 - p1.x as i128;
    proof {
        assert(dy * sx <= 0x1_0000_0000 && dy * sx >= -0x1_0000_0000) by (nonlinear_arith)
            requires -0x10000 <= dy <= 0x10000, -0x10000 <= sx <= 0x10000;
    }
    let num: i128 = dy * sx * 65536;
    let den: i128 = p2.y as i128 - p1.y as i128;
    let t = div_trunc(num, den);
    proof {
        lemma_tdiv_bounds(num as int, den as int);
    }
    (p1.x as i64) * 65536 + (t as i64)
}

/// What `intersect_y` answers.
pub open spec fn intersect_y_spec(p1: ScreenPoint, p2: ScreenPoint, y: int) -> int {
    if p1.x == p2.x || p1.y == p2.y {
        p1.x * 65536
    } else {
        p1.x * 65536 + tdiv((y - p1.y) * (p2.x - p1.x) * 65536, p2.y - p1.y)
    }
}

/// A texture: a grid of colors addressable by pixel coordinate, pre-flipped
/// to the canvas's bottom-left-origin convention.
pub struct Texture {
    pub width: u32,
    pub height: u32,
    pub pixels: Vec<Color>,
}

impl Texture {
    /// The grid holds exactly `width * height` colors, row-major, and is
    /// non-empty.
    pub open spec fn wf(&self) -> bool {
        &&& self.pixels@.len() == self.width * self.height
        &&& self.width * self.height <= usize::MAX
        &&& self.width >= 1
        &&& self.height >= 1
    }

    /// The color at pixel `(x, y)`.
    pub fn get(&self, x: u32, y: u32) -> (c: Color)
        requires
            self.wf(),
            x < self.width,
            y < self.height,
        ensures
            c == self.pixels@[y * self.width + x],
    {
        proof {
            lemma_idx_bounds(self.width as int, self.height as int, x as int, y as int);
        }
        self.pixels[(y as usize) * (self.width as usize) + (x as usize)]
    }
}

/// A row-major index `y * w + x` stays inside a `w * h` grid.
pub proof fn lemma_idx_bounds(w: int, h: int, x: int, y: int)
    requires
        0 <= x < w,
        0 <= y < h,
    ensures
        0 <= y * w <= y * w + x < w * h,
{
    assert(y * w + x < w * h) by (nonlinear_arith)
        requires 0 <= x < w, 0 <= y < h;
    assert(y * w >= 0) by (nonlinear_arith)
        requires y >= 0, w >= 0;
}

/// A well-formed canvas's pixel index is a valid position in both grids.
proof fn lemma_image_index(im: &Image, x: int, y: int)
    requires
        im.wf(),
        im.in_bounds(x, y),
    ensures
        0 <= y * im.spec_width() <= im.idx(x, y) < im.colors().len(),
        im.colors().len() <= 8192 * 8192,
{
    lemma_idx_bounds(im.spec_width(), im.spec_height(), x, y);
    assert(im.spec_width() * im.spec_height() <= 8192 * 8192) by (nonlinear_arith)
        requires 0 < im.spec_width() <= 8192, 0 < im.spec_height() <= 8192;
}

/// Clamping into a closed interval.
pub open spec fn clampi(v: int, lo: int, hi: int) -> int {
    if v < lo {
        lo
    } else if v > hi {
        hi
    } else {
        v
    }
}

/// Where a textured triangle samples for the pixel with barycentric
/// numerators `(n1, n2, n3)` over `d`: the Q16 texture coordinates are
/// interpolated (divided last, truncating toward zero), clamped into
/// `[0, 1]`, scaled by the texture size, truncated to a pixel and clamped
/// into the grid. The clamping keeps sampling total: coordinates outside
/// the unit square, which would otherwise address past the grid's edge,
/// read the nearest edge pixel instead.
pub open spec fn tex_sample_spec(
    tex: Texture,
    t1: Point3q,
    t2: Point3q,
    t3: Point3q,
    n1: int,
    n2: int,
    n3: int,
    d: int,
) -> Color {
    let u = clampi(tdiv(n1 * t1.x + n2 * t2.x + n3 * t3.x, d), 0, 65536);
    let v = clampi(tdiv(n1 * t1.y + n2 * t2.y + n3 * t3.y, d), 0, 65536);
    let sx = clampi(u * tex.width / 65536, 0, tex.width - 1);
    let sy = clampi(v * tex.height / 65536, 0, tex.height - 1);
    tex.pixels@[sy * tex.width + sx]
}

/// Whether the style rolls one fresh random color per triangle.
pub open spec fn is_random(style: DrawStyle) -> bool {
    match style {
        DrawStyle::FilledRandom => true,
        _ => false,
    }
}

/// The styles the per-pixel shader resolves: flat fills, and texture
/// lookups from a well-formed texture with bounded coordinates. Wireframe
/// never reaches the shader, and a random fill's color is rolled once per
/// triangle by the caller, never per pixel.
pub open spec fn style_shader_ok(style: DrawStyle) -> bool {
    match style {
        DrawStyle::Filled(_) => true,
        DrawStyle::Textured(tex, tps) => tex.wf() && coord_ok(tps.0) && coord_ok(tps.1)
            && coord_ok(tps.2),
        _ => false,
    }
}

/// The styles the barycentric fill accepts: everything but wireframe.
pub open spec fn style_fill_ok(style: DrawStyle) -> bool {
    match style {
        DrawStyle::Wireframe(_) => false,
        DrawStyle::Filled(_) => true,
        DrawStyle::FilledRandom => true,
        DrawStyle::Textured(tex, tps) => tex.wf() && coord_ok(tps.0) && coord_ok(tps.1)
            && coord_ok(tps.2),
    }
}

/// The color one filled pixel receives: the flat, rolled-random or sampled
/// color, scaled by the triangle's Q16 light intensity. `rc` stands for
/// the color a `FilledRandom` triangle rolled.
pub open spec fn resolve_color_spec(
    style: DrawStyle,
    rc: Color,
    intensity: i64,
    n1: int,
    n2: int,
    n3: int,
    d: int,
) -> Color {
    match style {
        DrawStyle::Wireframe(c) => c,
        DrawStyle::Filled(c) => scale_spec(c, intensity),
        DrawStyle::FilledRandom => scale_spec(rc, intensity),
        DrawStyle::Textured(tex, tps) => scale_spec(
            tex_sample_spec(*tex, tps.0, tps.1, tps.2, n1, n2, n3, d),
            intensity,
        ),
    }
}

/// Whether the fill touches pixel `(px, py)`: its Q16 sample is inside
/// the triangle and the interpolated depth beats the depth `depth0` the
/// canvas held there.
pub open spec fn fill_touches(
    p1: Point3q,
    p2: Point3q,
    p3: Point3q,
    px: int,
    py: int,
    depth0: i128,
) -> bool {
    &&& inside_triangle(p1, p2, p3, px * 65536, py * 65536)
    &&& (depth0 as int) < interp_depth(p1, p2, p3, px * 65536, py * 65536)
}

/// What filling a triangle does to a canvas, pixel by pixel: a touched
/// pixel takes the interpolated depth and the resolved color; every other
/// pixel keeps both its color and its depth.
pub open spec fn fill_outcome(
    pre: Image,
    post: Image,
    p1: Point3q,
    p2: Point3q,
    p3: Point3q,
    style: DrawStyle,
    rc: Color,
    intensity: i64,
) -> bool {
    forall|px: int, py: int| #![trigger pre.in_bounds(px, py)] pre.in_bounds(px, py) ==> {
        let i = pre.idx(px, py);
        if fill_touches(p1, p2, p3, px, py, pre.depths()[i]) {
            post.depths()[i] as int == interp_depth(p1, p2, p3, px * 65536, py * 65536)
                && post.colors()[i] == resolve_color_spec(
                style,
                rc,
                intensity,
                bary_n1(p1, p2, p3, px * 65536, py * 65536),
                bary_n2(p1, p2, p3, px * 65536, py * 65536),
                bary_n3(p1, p2, p3, px * 65536, py * 65536),
                bary_denom(p1, p2, p3),
            )
        } else {
            post.depths()[i] == pre.depths()[i] && post.colors()[i] == pre.colors()[i]
        }
    }
}

/// A pixel whose Q16 sample sits between two Q16 bounds lies between the
/// snapped-and-clamped bounds on an axis of the given extent.
proof fn lemma_snap_range(lo_q: int, hi_q: int, p: int, extent: int)
    requires
        0 <= p < extent,
        extent <= 8192,
        lo_q <= p * 65536,
        p * 65536 <= hi_q,
    ensures
        clampi(snap_coord(lo_q), 0, extent - 1) <= p,
        p <= clampi(snap_coord(hi_q), 0, extent - 1),
{
    assert(p * 65536 >= 0) by (nonlinear_arith)
        requires p >= 0;
    assert(p * 65536 <= 8191 * 65536) by (nonlinear_arith)
        requires p <= 8191;
    lemma_div_multiples_vanish(p, 65536);
    assert((65536 * p) / 65536 == p);
    if lo_q >= 0 {
        lemma_div_is_ordered(lo_q, p * 65536, 65536);
        assert(lo_q / 65536 <= p);
    }
    lemma_div_is_ordered(p * 65536, hi_q, 65536);
    assert(p <= hi_q / 65536);
}

/// The framebuffer: a `width * height` grid of colors paired with a
/// same-sized grid of depth values, both row-major with index
/// `y * width + x`, fixed in size for the canvas's lifetime.
pub struct Image {
    width: u32,
    height: u32,
    pixels: Vec<Color>,
    z_buffer: Vec<i128>,
}

/// The depth test: a candidate depth wins only if it is strictly larger
/// (nearer) than the stored one, so ties keep the earlier write.
pub open spec fn depth_passes(stored: i128, z: i128) -> bool {
    stored < z
}

/// Once a depth `z` is stored, re-testing the same `z`, or anything
/// farther, is rejected.
pub proof fn lemma_depth_test_monotonic(z: i128, z2: i128)
    requires
        z2 <= z,
    ensures
        !depth_passes(z, z2),
{
}

impl Image {
    pub closed spec fn spec_width(&self) -> int {
        self.width as int
    }

    pub closed spec fn spec_height(&self) -> int {
        self.height as int
    }

    /// The color grid, row-major from the bottom-left.
    pub closed spec fn colors(&self) -> Seq<Color> {
        self.pixels@
    }

    /// The depth grid: at each pixel, the largest depth accepted so far.
    pub closed spec fn depths(&self) -> Seq<i128> {
        self.z_buffer@
    }

    pub open spec fn wf(&self) -> bool {
        &&& self.colors().len() == self.spec_width() * self.spec_height()
        &&& self.depths().len() == self.colors().len()
        &&& 0 < self.spec_width() <= 8192
        &&& 0 < self.spec_height() <= 8192
    }

    /// The flat row-major index of pixel `(x, y)`.
    pub open spec fn idx(&self, x: int, y: int) -> int {
        y * self.spec_width() + x
    }

    pub open spec fn in_bounds(&self, x: int, y: int) -> bool {
        0 <= x < self.spec_width() && 0 <= y < self.spec_height()
    }

    /// Both grids keep their size and the canvas its dimensions.
    pub open spec fn same_shape(&self, other: &Image) -> bool {
        &&& self.spec_width() == other.spec_width()
        &&& self.spec_height() == other.spec_height()
    }

    /// A fresh canvas: every pixel black, every depth at the minimum
    /// (nothing accepted yet).
    pub fn new(width: u32, height: u32) -> (r: Image)
        requires
            0 < width <= 8192,
            0 < height <= 8192,
        ensures
            r.wf(),
            r.spec_width() == width,
            r.spec_height() == height,
            forall|i: int| 0 <= i < r.colors().len() ==> r.colors()[i] == Color(0, 0, 0),
            forall|i: int| 0 <= i < r.depths().len() ==> r.depths()[i] == i128::MIN,
    {
        proof {
            assert(width * height <= 8192 * 8192) by (nonlinear_arith)
                requires 0 < width <= 8192, 0 < height <= 8192;
        }
        let n: usize = (width as usize) * (height as usize);
        Image {
            width,
            height,
            pixels: vec![Color(0, 0, 0); n],
            z_buffer: vec![i128::MIN; n],
        }
    }

    pub fn width(&self) -> (r: u32)
        ensures
            r as int == self.spec_width(),
    {
        self.width
    }

    pub fn height(&self) -> (r: u32)
        ensures
            r as int == self.spec_height(),
    {
        self.height
    }

    /// Sets every pixel to `color`; the depth grid is untouched.
    pub fn clear(&mut self, color: Color)
        requires
            old(self).wf(),
        ensures
            final(self).wf(),
            final(self).same_shape(old(self)),
            final(self).colors().len() == old(self).colors().len(),
            forall|i: int| 0 <= i < final(self).colors().len()
                ==> final(self).colors()[i] == color,
            final(self).depths() == old(self).depths(),
    {
        let n: usize = self.pixels.len();
        self.pixels = vec![color; n];
    }

    /// The color currently stored at pixel `(x, y)`.
    pub fn get_pixel(&self, x: u32, y: u32) -> (c: Color)
        requires
            self.wf(),
            self.in_bounds(x as int, y as int),
        ensures
            c == self.colors()[self.idx(x as int, y as int)],
    {
        proof {
            lemma_image_index(&*self, x as int, y as int);
        }
        self.pixels[(y as usize) * (self.width as usize) + (x as usize)]
    }

    /// Unconditionally writes `color` at pixel `(x, y)`. The caller must
    /// already have resolved any depth test; out-of-bounds coordinates are
    /// ruled out by contract.
    pub fn point(&mut self, x: u32, y: u32, color: Color)
        requires
            old(self).wf(),
            old(self).in_bounds(x as int, y as int),
        ensures
            final(self).wf(),
            final(self).same_shape(old(self)),
            final(self).colors()
                == old(self).colors().update(old(self).idx(x as int, y as int), color),
            final(self).depths() == old(self).depths(),
    {
        proof {
            lemma_image_index(&*self, x as int, y as int);
        }
        let i: usize = (y as usize) * (self.width as usize) + (x as usize);
        self.pixels[i] = color;
    }

    /// Draws the midpoint/Bresenham line between two in-bounds pixels,
    /// writing exactly the pixels `line_covers` describes: one per
    /// major-axis position, the same set regardless of endpoint order.
    /// Lines ignore the depth grid entirely: they draw over existing
    /// content.
    pub fn line(&mut self, x0: u32, y0: u32, x1: u32, y1: u32, color: Color)
        requires
            old(self).wf(),
            old(self).in_bounds(x0 as int, y0 as int),
            old(self).in_bounds(x1 as int, y1 as int),
        ensures
            final(self).wf(),
            final(self).same_shape(old(self)),
            final(self).depths() == old(self).depths(),
            forall|px: int, py: int| old(self).in_bounds(px, py)
                ==> final(self).colors()[old(self).idx(px, py)]
                    == if line_covers(x0 as int, y0 as int, x1 as int, y1 as int, px, py) {
                        color
                    } else {
                        old(self).colors()[old(self).idx(px, py)]
                    },
    {
        let ghost ox0 = x0 as int;
        let ghost oy0 = y0 as int;
        let ghost ox1 = x1 as int;
        let ghost oy1 = y1 as int;
        let adx: u32 = if x0 > x1 { x0 - x1 } else { x1 - x0 };
        let ady_px: u32 = if y0 > y1 { y0 - y1 } else { y1 - y0 };
        let steep: bool = adx < ady_px;
        let (mut ax0, mut ay0, mut ax1, mut ay1) = if steep {
            (y0, x0, y1, x1)
        } else {
            (x0, y0, x1, y1)
        };
        if ax0 > ax1 {
            let t0 = ax0;
            ax0 = ax1;
            ax1 = t0;
            let t1 = ay0;
            ay0 = ay1;
            ay1 = t1;
        }
        proof {
            assert(steep == line_steep(ox0, oy0, ox1, oy1));
            assert((ax0 as int, ay0 as int, ax1 as int, ay1 as int)
                == line_norm(ox0, oy0, ox1, oy1));
        }
        let dx: i64 = ax1 as i64 - ax0 as i64;
        let dy: i64 = ay1 as i64 - ay0 as i64;
        let ady: i64 = if dy < 0 { -dy } else { dy };
        let derror2: i64 = ady * 2;
        let mut error2: i64 = 0;
        let mut y: i64 = ay0 as i64;
        let mut x: u32 = ax0;
        let ghost mut steps: int = 0;
        while x <= ax1
            invariant
                self.wf(),
                self.same_shape(old(self)),
                self.depths() == old(self).depths(),
                old(self).wf(),
                old(self).in_bounds(ox0, oy0),
                old(self).in_bounds(ox1, oy1),
                ox0 == x0 as int, oy0 == y0 as int, ox1 == x1 as int, oy1 == y1 as int,
                steep == line_steep(ox0, oy0, ox1, oy1),
                (ax0 as int, ay0 as int, ax1 as int, ay1 as int)
                    == line_norm(ox0, oy0, ox1, oy1),
                steep ==> ay0 < old(self).spec_width() && ay1 < old(self).spec_width()
                    && ax1 < old(self).spec_height(),
                !steep ==> ax1 < old(self).spec_width() && ay0 < old(self).spec_height()
                    && ay1 < old(self).spec_height(),
                dx == ax1 - ax0,
                dy == ay1 - ay0,
                ady == iabs(dy as int),
                derror2 == 2 * ady,
                0 <= ady <= dx,
                ax0 <= x <= ax1 + 1,
                0 <= steps <= ady + 1,
                y == ay0 + (if dy >= 0 { steps } else { -steps }),
                error2 == 2 * ady * (x - ax0) - 2 * dx * steps,
                dx >= 1 ==> -dx < error2 && error2 <= dx,
                dx == 0 ==> steps == 0 && error2 == 0,
                forall|px: int, py: int| old(self).in_bounds(px, py)
                    ==> self.colors()[old(self).idx(px, py)]
                        == if line_covers(ox0, oy0, ox1, oy1, px, py)
                            && (if steep { py } else { px }) < x {
                            color
                        } else {
                            old(self).colors()[old(self).idx(px, py)]
                        },
            decreases ax1 + 1 - x,
        {
            let ghost k = x as int - ax0 as int;
            proof {
                if dx >= 1 {
                    lemma_bres_steps_unique(dx as int, ady as int, k, steps, error2 as int);
                    lemma_bres_steps_bounds(dx as int, ady as int, k);
                }
                assert(steps <= ady);
                assert(y as int == line_minor(dx as int, dy as int, ay0 as int, k));
                assert(line_covers(ox0, oy0, ox1, oy1,
                    if steep { y as int } else { x as int },
                    if steep { x as int } else { y as int }));
            }
            let ghost pre = *self;
            if steep {
                self.point(y as u32, x, color);
            } else {
                self.point(x, y as u32, color);
            }
            proof {
                let wx = if steep { y as int } else { x as int };
                let wy = if steep { x as int } else { y as int };
                assert forall|px: int, py: int| old(self).in_bounds(px, py)
                    implies self.colors()[old(self).idx(px, py)]
                        == if line_covers(ox0, oy0, ox1, oy1, px, py)
                            && (if steep { py } else { px }) < x + 1 {
                            color
                        } else {
                            old(self).colors()[old(self).idx(px, py)]
                        } by {
                    lemma_image_index(&pre, px, py);
                    lemma_image_index(&pre, wx, wy);
                    if !(px == wx && py == wy)
                        && old(self).idx(px, py) == old(self).idx(wx, wy) {
                        lemma_idx_injective(old(self).spec_width(), px, py, wx, wy);
                    }
                }
            }
            error2 = error2 + derror2;
            if error2 > dx {
                y = y + (if dy > 0 { 1 } else { -1 });
                error2 = error2 - dx * 2;
                proof {
                    assert(2 * ady * (k + 1) == 2 * ady * k + 2 * ady) by (nonlinear_arith);
                    assert(2 * dx * (steps + 1) == 2 * dx * steps + 2 * dx) by (nonlinear_arith);
                    steps = steps + 1;
                }
            } else {
                proof {
                    assert(2 * ady * (k + 1) == 2 * ady * k + 2 * ady) by (nonlinear_arith);
                }
            }
            x = x + 1;
        }
    }

    /// Draws one projected triangle in the given style: wireframe draws
    /// the three snapped edges over existing content with no depth
    /// interaction; every other style runs the barycentric fill with the
    /// per-pixel depth test.
    pub fn triangle(
        &mut self,
        a: &Point3q,
        b: &Point3q,
        c: &Point3q,
        draw_style: &DrawStyle,
        intensity: i64,
    )
        requires
            old(self).wf(),
            coord_ok(*a),
            coord_ok(*b),
            coord_ok(*c),
            is_wireframe(*draw_style) ==> wire_in_bounds(*old(self), *a, *b, *c),
            !is_wireframe(*draw_style) ==> style_fill_ok(*draw_style),
        ensures
            final(self).wf(),
            final(self).same_shape(old(self)),
            (match *draw_style {
                DrawStyle::Wireframe(col) => {
                    &&& final(self).depths() == old(self).depths()
                    &&& forall|px: int, py: int| old(self).in_bounds(px, py)
                        ==> final(self).colors()[old(self).idx(px, py)]
                            == if wire_covers(*a, *b, *c, px, py) {
                                col
                            } else {
                                old(self).colors()[old(self).idx(px, py)]
                            }
                },
                _ => {
                    &&& (exists|rcol: Color| fill_outcome(
                        *old(self), *final(self), *a, *b, *c, *draw_style, rcol, intensity))
                    &&& (!is_random(*draw_style) ==> fill_outcome(
                        *old(self), *final(self), *a, *b, *c, *draw_style, Color(0, 0, 0),
                        intensity))
                },
            }),
    {
        match draw_style {
            DrawStyle::Wireframe(color) => {
                let su = a.to_screen();
                let sv = b.to_screen();
                let sw = c.to_screen();
                triangle_wireframe(self, &su, &sv, &sw, *color);
            },
            _ => {
                triangle_barycentric(self, a, b, c, draw_style, intensity);
            },
        }
    }

    /// Produces the export representation of the color grid: row-major
    /// from the top left, i.e. vertically flipped from the canvas's
    /// bottom-left-origin convention. The depth grid is not exported.
    #[verifier::loop_isolation(false)]
    pub fn export(&self) -> (r: Vec<Color>)
        requires
            self.wf(),
        ensures
            r@.len() == self.colors().len(),
            forall|row: int, col: int|
                #![trigger r@[row * self.spec_width() + col]]
                0 <= row < self.spec_height() && 0 <= col < self.spec_width()
                    ==> r@[row * self.spec_width() + col]
                        == self.colors()[(self.spec_height() - 1 - row) * self.spec_width()
                            + col],
    {
        let w = self.width;
        let h = self.height;
        let mut out: Vec<Color> = Vec::new();
        let mut row: u32 = 0;
        while row < h
            invariant
                row <= h,
                out@.len() == row * w,
                forall|r2: int, c: int|
                    #![trigger out@[r2 * w + c]]
                    0 <= r2 < row && 0 <= c < w
                    ==> out@[r2 * w + c] == self.colors()[(h - 1 - r2) * w + c],
            decreases h - row,
        {
            let mut col: u32 = 0;
            while col < w
                invariant
                    row < h,
                    col <= w,
                    out@.len() == row * w + col,
                    forall|r2: int, c: int|
                        #![trigger out@[r2 * w + c]]
                        0 <= r2 < row && 0 <= c < w
                        ==> out@[r2 * w + c] == self.colors()[(h - 1 - r2) * w + c],
                    forall|c: int|
                        #![trigger out@[row * w + c]]
                        0 <= c < col
                        ==> out@[row * w + c] == self.colors()[(h - 1 - row) * w + c],
                decreases w - col,
            {
                proof {
                    lemma_image_index(self, col as int, h as int - 1 - row as int);
                    lemma_idx_bounds(w as int, h as int, col as int, row as int);
                }
                let c = self.get_pixel(col, h - 1 - row);
                out.push(c);
                proof {
                    assert forall|r2: int, c2: int|
                        #![trigger out@[r2 * w + c2]]
                        0 <= r2 < row && 0 <= c2 < w
                        implies out@[r2 * w + c2]
                            == self.colors()[(h - 1 - r2) * w + c2] by {
                        lemma_idx_bounds(w as int, h as int, c2, r2);
                        assert(r2 * w + c2 < row * w) by (nonlinear_arith)
                            requires 0 <= r2 < row, 0 <= c2 < w;
                    }
                }
                col = col + 1;
            }
            row = row + 1;
            proof {
                assert(row * w == (row - 1) * w + w) by (nonlinear_arith);
            }
        }
        proof {
            assert(row == h);
            assert(out@.len() == h * w);
            assert(self.colors().len() == w * h);
            assert(out@.len() == self.colors().len());
        }
        out
    }

    /// The depth test-and-set: if `z_value` is strictly nearer than the
    /// stored depth at `(x, y)`, stores it and reports success; otherwise
    /// leaves both grids untouched. Colors are never written here, so the
    /// caller writes the pixel color exactly when this returns true.
    pub fn check_and_set_zbuf(&mut self, x: u32, y: u32, z_value: i128) -> (r: bool)
        requires
            old(self).wf(),
            old(self).in_bounds(x as int, y as int),
        ensures
            final(self).wf(),
            final(self).same_shape(old(self)),
            final(self).colors() == old(self).colors(),
            r == depth_passes(
                old(self).depths()[old(self).idx(x as int, y as int)],
                z_value,
            ),
            r ==> final(self).depths()
                == old(self).depths().update(old(self).idx(x as int, y as int), z_value),
            !r ==> final(self).depths() == old(self).depths(),
    {
        proof {
            lemma_image_index(&*self, x as int, y as int);
        }
        let i: usize = (y as usize) * (self.width as usize) + (x as usize);
        if self.z_buffer[i] < z_value {
            self.z_buffer[i] = z_value;
            true
        } else {
            false
        }
    }
}

/// Resolves the color of one filled pixel from its barycentric numerators,
/// the draw style and the triangle's Q16 light intensity. Wireframe never
/// reaches the shader, and a `FilledRandom` triangle's color is rolled
/// once per triangle by the caller, so neither style is accepted here.
pub fn determine_color(
    n1: i128,
    n2: i128,
    n3: i128,
    d: i128,
    draw_style: &DrawStyle,
    intensity: i64,
) -> (c: Color)
    requires
        style_shader_ok(*draw_style),
        d != 0,
        iabs(n1 as int) <= 0x1_8000_0000_0000_0000,
        iabs(n2 as int) <= 0x1_8000_0000_0000_0000,
        iabs(n3 as int) <= 0x1_8000_0000_0000_0000,
        iabs(d as int) <= 0x1_8000_0000_0000_0000,
    ensures
        c == resolve_color_spec(
            *draw_style,
            Color(0, 0, 0),
            intensity,
            n1 as int,
            n2 as int,
            n3 as int,
            d as int,
        ),
{
    match draw_style {
        DrawStyle::Filled(color) => color.scale(intensity),
        DrawStyle::Textured(tex, tps) => {
            let t1 = tps.0;
            let t2 = tps.1;
            let t3 = tps.2;
            proof {
                assert(n1 * (t1.x as i128) <= 0x6000_0000_0000_0000_0000_0000
                    && n1 * (t1.x as i128) >= -0x6000_0000_0000_0000_0000_0000
                    && n1 * (t1.y as i128) <= 0x6000_0000_0000_0000_0000_0000
                    && n1 * (t1.y as i128) >= -0x6000_0000_0000_0000_0000_0000)
                    by (nonlinear_arith)
                    requires
                        -0x1_8000_0000_0000_0000 <= n1 <= 0x1_8000_0000_0000_0000,
                        -0x4000_0000 <= t1.x <= 0x4000_0000,
                        -0x4000_0000 <= t1.y <= 0x4000_0000;
                assert(n2 * (t2.x as i128) <= 0x6000_0000_0000_0000_0000_0000
                    && n2 * (t2.x as i128) >= -0x6000_0000_0000_0000_0000_0000
                    && n2 * (t2.y as i128) <= 0x6000_0000_0000_0000_0000_0000
                    && n2 * (t2.y as i128) >= -0x6000_0000_0000_0000_0000_0000)
                    by (nonlinear_arith)
                    requires
                        -0x1_8000_0000_0000_0000 <= n2 <= 0x1_8000_0000_0000_0000,
                        -0x4000_0000 <= t2.x <= 0x4000_0000,
                        -0x4000_0000 <= t2.y <= 0x4000_0000;
                assert(n3 * (t3.x as i128) <= 0x6000_0000_0000_0000_0000_0000
                    && n3 * (t3.x as i128) >= -0x6000_0000_0000_0000_0000_0000
                    && n3 * (t3.y as i128) <= 0x6000_0000_0000_0000_0000_0000
                    && n3 * (t3.y as i128) >= -0x6000_0000_0000_0000_0000_0000)
                    by (nonlinear_arith)
                    requires
                        -0x1_8000_0000_0000_0000 <= n3 <= 0x1_8000_0000_0000_0000,
                        -0x4000_0000 <= t3.x <= 0x4000_0000,
                        -0x4000_0000 <= t3.y <= 0x4000_0000;
            }
            let ux: i128 = n1 * (t1.x as i128) + n2 * (t2.x as i128) + n3 * (t3.x as i128);
            let vx: i128 = n1 * (t1.y as i128) + n2 * (t2.y as i128) + n3 * (t3.y as i128);
            let u = div_trunc(ux, d);
            let v = div_trunc(vx, d);
            let uc: u64 = if u < 0 { 0 } else if u > 65536 { 65536 } else { u as u64 };
            let vc: u64 = if v < 0 { 0 } else if v > 65536 { 65536 } else { v as u64 };
            let w64: u64 = tex.width as u64;
            let h64: u64 = tex.height as u64;
            proof {
                assert(uc * w64 <= 65536 * 0xFFFF_FFFF) by (nonlinear_arith)
                    requires 0 <= uc <= 65536, 0 <= w64 <= 0xFFFF_FFFF;
                assert(vc * h64 <= 65536 * 0xFFFF_FFFF) by (nonlinear_arith)
                    requires 0 <= vc <= 65536, 0 <= h64 <= 0xFFFF_FFFF;
                assert(uc * w64 <= 65536 * (w64 as int)) by (nonlinear_arith)
                    requires 0 <= uc <= 65536, w64 >= 0;
                assert(vc * h64 <= 65536 * (h64 as int)) by (nonlinear_arith)
                    requires 0 <= vc <= 65536, h64 >= 0;
                lemma_div_pos_is_pos((uc * w64) as int, 65536);
                lemma_div_pos_is_pos((vc * h64) as int, 65536);
                lemma_div_is_ordered((uc * w64) as int, 65536 * (w64 as int), 65536);
                lemma_div_is_ordered((vc * h64) as int, 65536 * (h64 as int), 65536);
                lemma_div_multiples_vanish(w64 as int, 65536);
                lemma_div_multiples_vanish(h64 as int, 65536);
            }
            let sx0: u64 = uc * w64 / 65536;
            let sy0: u64 = vc * h64 / 65536;
            let sx: u32 = if sx0 > (tex.width - 1) as u64 {
                tex.width - 1
            } else {
                sx0 as u32
            };
            let sy: u32 = if sy0 > (tex.height - 1) as u64 {
                tex.height - 1
            } else {
                sy0 as u32
            };
            let sampled = tex.get(sx, sy);
            sampled.scale(intensity)
        },
        DrawStyle::Wireframe(color) => {
            proof {
                assert(false);
            }
            *color
        },
        DrawStyle::FilledRandom => {
            proof {
                assert(false);
            }
            Color(0, 0, 0)
        },
    }
}

/// The sweep's corners sorted lowest row first, mirroring the three
/// conditional swaps the fill performs.
pub open spec fn sweep_sorted(u: ScreenPoint, v: ScreenPoint, w: ScreenPoint) -> (
    ScreenPoint,
    ScreenPoint,
    ScreenPoint,
) {
    let (q0, q1) = if u.y > v.y { (v, u) } else { (u, v) };
    let (r1, r2) = if q1.y > w.y { (w, q1) } else { (q1, w) };
    let (s0, s1) = if q0.y > r1.y { (r1, q0) } else { (q0, r1) };
    (s0, s1, r2)
}

/// The painted span of row `py`, as an inclusive pixel range (empty when
/// the left end exceeds the right): from the ceiling of the smaller edge
/// crossing to the truncation of the larger, both clamped into the
/// canvas width; a row whose larger crossing is left of the canvas gets
/// no pixels.
pub open spec fn sweep_span(u: ScreenPoint, v: ScreenPoint, w: ScreenPoint, py: int, width: int) -> (int, int) {
    let (p0, p1, p2) = sweep_sorted(u, v, w);
    let x0 = intersect_y_spec(p0, p2, py);
    let x1 = if py <= p1.y {
        intersect_y_spec(p0, p1, py)
    } else {
        intersect_y_spec(p1, p2, py)
    };
    let lo = if x0 < x1 { x0 } else { x1 };
    let hi = if x0 > x1 { x0 } else { x1 };
    if hi < 0 {
        (1, 0)
    } else {
        let lo0 = if lo < 0 { 0 } else { lo };
        let left0 = (lo0 + 65535) / 65536;
        let left = if left0 > width - 1 { width - 1 } else { left0 };
        let right0 = hi / 65536;
        let right = if right0 > width - 1 { width - 1 } else { right0 };
        (left, right)
    }
}

/// Whether the line-sweep fill paints pixel `(px, py)`: the row lies
/// between the lowest and highest corner and the column inside the row's
/// span.
pub open spec fn sweep_covers(u: ScreenPoint, v: ScreenPoint, w: ScreenPoint, px: int, py: int, width: int) -> bool {
    let (p0, p1, p2) = sweep_sorted(u, v, w);
    let (left, right) = sweep_span(u, v, w, py, width);
    p0.y <= py <= p2.y && left <= px <= right
}

/// A horizontal line covers exactly its own row's inclusive span.
proof fn lemma_horizontal_line_covers(x0: int, x1: int, y: int, px: int, py: int)
    requires
        0 <= x0 <= x1,
    ensures
        line_covers(x0, y, x1, y, px, py) == (x0 <= px <= x1 && py == y),
{
    let dx = x1 - x0;
    assert(!line_steep(x0, y, x1, y));
    assert(line_norm(x0, y, x1, y) == (x0, y, x1, y));
    if dx >= 1 {
        vstd::arithmetic::div_mod::lemma_basic_div(dx - 1, 2 * dx);
        assert(2 * 0 * (px - x0) == 0) by (nonlinear_arith);
        assert(2 * 0 * (px - x0) + dx - 1 == dx - 1);
        assert((2 * 0 * (px - x0) + dx - 1) / (2 * dx) == 0);
        assert(bres_steps(dx, 0, px - x0) == 0);
    }
}

/// Fills a triangle by the line-sweep strategy: for each pixel row from
/// the lowest to the highest corner, paints exactly the horizontal span
/// between the crossing of the long edge and the crossing of the split
/// edge, rounding the left end up and the right end down and clamping
/// the span to the canvas; every other pixel is untouched. Kept as an
/// alternative policy to the barycentric fill; it ignores the depth grid
/// entirely.
#[verifier::loop_isolation(false)]
#[verifier::rlimit(80)]
pub fn triangle_line_sweep(
    image: &mut Image,
    u: &ScreenPoint,
    v: &ScreenPoint,
    w: &ScreenPoint,
    color: Color,
)
    requires
        old(image).wf(),
        old(image).in_bounds(u.x as int, u.y as int),
        old(image).in_bounds(v.x as int, v.y as int),
        old(image).in_bounds(w.x as int, w.y as int),
    ensures
        final(image).wf(),
        final(image).same_shape(old(image)),
        final(image).depths() == old(image).depths(),
        forall|px: int, py: int| old(image).in_bounds(px, py)
            ==> final(image).colors()[old(image).idx(px, py)]
                == if sweep_covers(*u, *v, *w, px, py, old(image).spec_width()) {
                    color
                } else {
                    old(image).colors()[old(image).idx(px, py)]
                },
{
    let mut p0 = *u;
    let mut p1 = *v;
    let mut p2 = *w;
    if p0.y > p1.y {
        let t = p0;
        p0 = p1;
        p1 = t;
    }
    if p1.y > p2.y {
        let t = p1;
        p1 = p2;
        p2 = t;
    }
    if p0.y > p1.y {
        let t = p0;
        p0 = p1;
        p1 = t;
    }
    proof {
        assert((p0, p1, p2) == sweep_sorted(*u, *v, *w));
    }
    let width = image.width();
    let mut y: u32 = p0.y;
    while y <= p2.y
        invariant
            p0.y <= y,
            image.wf(),
            image.same_shape(old(image)),
            image.depths() == old(image).depths(),
            forall|px: int, py2: int| old(image).in_bounds(px, py2)
                ==> image.colors()[old(image).idx(px, py2)]
                    == if sweep_covers(*u, *v, *w, px, py2, old(image).spec_width())
                        && py2 < y {
                        color
                    } else {
                        old(image).colors()[old(image).idx(px, py2)]
                    },
        decreases p2.y + 1 - y,
    {
        let x0 = intersect_y(&p0, &p2, y);
        let x1 = if y <= p1.y {
            intersect_y(&p0, &p1, y)
        } else {
            intersect_y(&p1, &p2, y)
        };
        let lo: i64 = if x0 < x1 { x0 } else { x1 };
        let hi: i64 = if x0 > x1 { x0 } else { x1 };
        let ghost span = sweep_span(*u, *v, *w, y as int, old(image).spec_width());
        let mut painted = false;
        let mut left: u32 = 0;
        let mut right: u32 = 0;
        if hi >= 0 {
            let left_w: u64 = ((if lo < 0 { 0 } else { lo }) as u64 + 65535) / 65536;
            left = if left_w > (width - 1) as u64 {
                width - 1
            } else {
                left_w as u32
            };
            let right_w: u64 = (hi as u64) / 65536;
            right = if right_w > (width - 1) as u64 {
                width - 1
            } else {
                right_w as u32
            };
            proof {
                assert(span == (left as int, right as int));
            }
            if left <= right {
                let ghost pre = *image;
                image.line(left, y, right, y, color);
                painted = true;
                proof {
                    assert forall|px: int, py2: int| old(image).in_bounds(px, py2)
                        implies image.colors()[old(image).idx(px, py2)]
                            == if sweep_covers(*u, *v, *w, px, py2,
                                old(image).spec_width()) && py2 < y + 1 {
                                color
                            } else {
                                old(image).colors()[old(image).idx(px, py2)]
                            } by {
                        assert(pre.in_bounds(px, py2) == old(image).in_bounds(px, py2));
                        assert(pre.idx(px, py2) == old(image).idx(px, py2));
                        lemma_horizontal_line_covers(
                            left as int, right as int, y as int, px, py2);
                    }
                }
            }
        }
        proof {
            if !painted {
                assert(span.0 > span.1);
                assert forall|px: int, py2: int| old(image).in_bounds(px, py2)
                    implies image.colors()[old(image).idx(px, py2)]
                        == if sweep_covers(*u, *v, *w, px, py2,
                            old(image).spec_width()) && py2 < y + 1 {
                            color
                        } else {
                            old(image).colors()[old(image).idx(px, py2)]
                        } by {}
            }
        }
        y = y + 1;
    }
}

/// The snapped pixel column of a Q16 point.
pub open spec fn corner_x(p: Point3q) -> int {
    snap_coord(p.x as int)
}

/// The snapped pixel row of a Q16 point.
pub open spec fn corner_y(p: Point3q) -> int {
    snap_coord(p.y as int)
}

/// Whether one of the three snapped edges of the wireframe triangle
/// covers pixel `(px, py)`.
pub open spec fn wire_covers(a: Point3q, b: Point3q, c: Point3q, px: int, py: int) -> bool {
    ||| line_covers(corner_x(a), corner_y(a), corner_x(b), corner_y(b), px, py)
    ||| line_covers(corner_x(b), corner_y(b), corner_x(c), corner_y(c), px, py)
    ||| line_covers(corner_x(a), corner_y(a), corner_x(c), corner_y(c), px, py)
}

/// All three snapped corners sit on the canvas.
pub open spec fn wire_in_bounds(im: Image, a: Point3q, b: Point3q, c: Point3q) -> bool {
    &&& im.in_bounds(corner_x(a), corner_y(a))
    &&& im.in_bounds(corner_x(b), corner_y(b))
    &&& im.in_bounds(corner_x(c), corner_y(c))
}

/// Whether the style is a wireframe overlay.
pub open spec fn is_wireframe(style: DrawStyle) -> bool {
    match style {
        DrawStyle::Wireframe(_) => true,
        _ => false,
    }
}

/// Whether the style samples a texture.
pub open spec fn is_textured(style: DrawStyle) -> bool {
    match style {
        DrawStyle::Textured(_, _) => true,
        _ => false,
    }
}

/// Draws the three edges of a triangle with the given color, over
/// existing content and with no depth interaction.
pub fn triangle_wireframe(
    image: &mut Image,
    u: &ScreenPoint,
    v: &ScreenPoint,
    w: &ScreenPoint,
    color: Color,
)
    requires
        old(image).wf(),
        old(image).in_bounds(u.x as int, u.y as int),
        old(image).in_bounds(v.x as int, v.y as int),
        old(image).in_bounds(w.x as int, w.y as int),
    ensures
        final(image).wf(),
        final(image).same_shape(old(image)),
        final(image).depths() == old(image).depths(),
        forall|px: int, py: int| old(image).in_bounds(px, py)
            ==> final(image).colors()[old(image).idx(px, py)]
                == if line_covers(u.x as int, u.y as int, v.x as int, v.y as int, px, py)
                    || line_covers(v.x as int, v.y as int, w.x as int, w.y as int, px, py)
                    || line_covers(u.x as int, u.y as int, w.x as int, w.y as int, px, py) {
                    color
                } else {
                    old(image).colors()[old(image).idx(px, py)]
                },
{
    image.line(u.x, u.y, v.x, v.y, color);
    let ghost im1 = *image;
    image.line(v.x, v.y, w.x, w.y, color);
    let ghost im2 = *image;
    image.line(u.x, u.y, w.x, w.y, color);
    proof {
        assert forall|px: int, py: int| old(image).in_bounds(px, py) implies
            image.colors()[old(image).idx(px, py)]
                == if line_covers(u.x as int, u.y as int, v.x as int, v.y as int, px, py)
                    || line_covers(v.x as int, v.y as int, w.x as int, w.y as int, px, py)
                    || line_covers(u.x as int, u.y as int, w.x as int, w.y as int, px, py) {
                    color
                } else {
                    old(image).colors()[old(image).idx(px, py)]
                } by {
            assert(im1.in_bounds(px, py) == old(image).in_bounds(px, py));
            assert(im1.idx(px, py) == old(image).idx(px, py));
            assert(im2.in_bounds(px, py) == old(image).in_bounds(px, py));
            assert(im2.idx(px, py) == old(image).idx(px, py));
        }
    }
}

/// Fills the triangle `(p1, p2, p3)` over its clamped bounding box: every
/// pixel whose sample is inside the triangle and whose interpolated depth
/// passes the depth test takes that depth and the resolved color; every
/// other pixel keeps both grids unchanged. A `FilledRandom` triangle
/// rolls one random color and reuses it for every pixel it fills; a
/// degenerate triangle has no inside and fills nothing.
#[verifier::loop_isolation(false)]
pub fn triangle_barycentric(
    image: &mut Image,
    p1: &Point3q,
    p2: &Point3q,
    p3: &Point3q,
    draw_style: &DrawStyle,
    intensity: i64,
)
    requires
        old(image).wf(),
        coord_ok(*p1),
        coord_ok(*p2),
        coord_ok(*p3),
        style_fill_ok(*draw_style),
    ensures
        final(image).wf(),
        final(image).same_shape(old(image)),
        exists|rc: Color| fill_outcome(
            *old(image), *final(image), *p1, *p2, *p3, *draw_style, rc, intensity),
        !is_random(*draw_style) ==> fill_outcome(
            *old(image), *final(image), *p1, *p2, *p3, *draw_style, Color(0, 0, 0), intensity),
{
    let minq = p1.min(p2).min(p3);
    let maxq = p1.max(p2).max(p3);
    let mins = minq.to_screen();
    let maxs = maxq.to_screen();
    let width = image.width();
    let height = image.height();
    let min_x: u32 = if mins.x > width - 1 { width - 1 } else { mins.x };
    let min_y: u32 = if mins.y > height - 1 { height - 1 } else { mins.y };
    let max_x: u32 = if maxs.x > width - 1 { width - 1 } else { maxs.x };
    let max_y: u32 = if maxs.y > height - 1 { height - 1 } else { maxs.y };
    let mut rolled: Color = Color(0, 0, 0);
    let ghost mut rc: Color = Color(0, 0, 0);
    match draw_style {
        DrawStyle::FilledRandom => {
            let r = Color::random();
            rolled = r.scale(intensity);
            proof {
                rc = r;
            }
        },
        _ => {},
    }
    let mut y: u32 = min_y;
    while y <= max_y
        invariant
            min_y <= y <= max_y + 1,
            image.wf(),
            image.same_shape(old(image)),
            is_random(*draw_style) ==> rolled == scale_spec(rc, intensity),
            !is_random(*draw_style) ==> rc == Color(0, 0, 0),
            forall|px: int, py: int| old(image).in_bounds(px, py) ==> {
                let i = old(image).idx(px, py);
                if min_x <= px <= max_x && min_y <= py < y && fill_touches(
                    *p1, *p2, *p3, px, py, old(image).depths()[i]) {
                    image.depths()[i] as int
                        == interp_depth(*p1, *p2, *p3, px * 65536, py * 65536)
                        && image.colors()[i] == resolve_color_spec(
                        *draw_style,
                        rc,
                        intensity,
                        bary_n1(*p1, *p2, *p3, px * 65536, py * 65536),
                        bary_n2(*p1, *p2, *p3, px * 65536, py * 65536),
                        bary_n3(*p1, *p2, *p3, px * 65536, py * 65536),
                        bary_denom(*p1, *p2, *p3),
                    )
                } else {
                    image.depths()[i] == old(image).depths()[i]
                        && image.colors()[i] == old(image).colors()[i]
                }
            },
        decreases max_y + 1 - y,
    {
        let mut x: u32 = min_x;
        while x <= max_x
            invariant
                min_x <= x <= max_x + 1,
                min_y <= y <= max_y,
                image.wf(),
                image.same_shape(old(image)),
                forall|px: int, py: int| old(image).in_bounds(px, py) ==> {
                    let i = old(image).idx(px, py);
                    if ((min_x <= px <= max_x && min_y <= py < y)
                        || (py == y && min_x <= px < x)) && fill_touches(
                        *p1, *p2, *p3, px, py, old(image).depths()[i]) {
                        image.depths()[i] as int
                            == interp_depth(*p1, *p2, *p3, px * 65536, py * 65536)
                            && image.colors()[i] == resolve_color_spec(
                            *draw_style,
                            rc,
                            intensity,
                            bary_n1(*p1, *p2, *p3, px * 65536, py * 65536),
                            bary_n2(*p1, *p2, *p3, px * 65536, py * 65536),
                            bary_n3(*p1, *p2, *p3, px * 65536, py * 65536),
                            bary_denom(*p1, *p2, *p3),
                        )
                    } else {
                        image.depths()[i] == old(image).depths()[i]
                            && image.colors()[i] == old(image).colors()[i]
                    }
                },
            decreases max_x + 1 - x,
        {
            let sx: i64 = (x as i64) * 65536;
            let sy: i64 = (y as i64) * 65536;
            let (n1, n2, n3, dd) = bary_nums(p1, p2, p3, sx, sy);
            let inside: bool = if dd > 0 {
                n1 >= 0 && n2 >= 0 && n3 >= 0
            } else if dd < 0 {
                n1 <= 0 && n2 <= 0 && n3 <= 0
            } else {
                false
            };
            let ghost pre = *image;
            if inside {
                proof {
                    assert(n1 * (p1.z as i128) <= 0x2000_0000_0000_0000_0000_0000
                        && n1 * (p1.z as i128) >= -0x2000_0000_0000_0000_0000_0000)
                        by (nonlinear_arith)
                        requires
                            -0x8000_0000_0000_0000 <= n1 <= 0x8000_0000_0000_0000,
                            -0x4000_0000 <= p1.z <= 0x4000_0000;
                    assert(n2 * (p2.z as i128) <= 0x2000_0000_0000_0000_0000_0000
                        && n2 * (p2.z as i128) >= -0x2000_0000_0000_0000_0000_0000)
                        by (nonlinear_arith)
                        requires
                            -0x8000_0000_0000_0000 <= n2 <= 0x8000_0000_0000_0000,
                            -0x4000_0000 <= p2.z <= 0x4000_0000;
                    assert(n3 * (p3.z as i128) <= 0x6000_0000_0000_0000_0000_0000
                        && n3 * (p3.z as i128) >= -0x6000_0000_0000_0000_0000_0000)
                        by (nonlinear_arith)
                        requires
                            -0x1_8000_0000_0000_0000 <= n3 <= 0x1_8000_0000_0000_0000,
                            -0x4000_0000 <= p3.z <= 0x4000_0000;
                }
                let zsum: i128 = n1 * (p1.z as i128) + n2 * (p2.z as i128) + n3 * (p3.z as i128);
                let z: i128 = div_trunc(zsum, dd);
                if image.check_and_set_zbuf(x, y, z) {
                    let col: Color = match draw_style {
                        DrawStyle::FilledRandom => rolled,
                        _ => determine_color(n1, n2, n3, dd, draw_style, intensity),
                    };
                    image.point(x, y, col);
                }
            }
            proof {
                assert forall|px: int, py: int| old(image).in_bounds(px, py) implies {
                    let i = old(image).idx(px, py);
                    if ((min_x <= px <= max_x && min_y <= py < y)
                        || (py == y && min_x <= px < x + 1)) && fill_touches(
                        *p1, *p2, *p3, px, py, old(image).depths()[i]) {
                        image.depths()[i] as int
                            == interp_depth(*p1, *p2, *p3, px * 65536, py * 65536)
                            && image.colors()[i] == resolve_color_spec(
                            *draw_style,
                            rc,
                            intensity,
                            bary_n1(*p1, *p2, *p3, px * 65536, py * 65536),
                            bary_n2(*p1, *p2, *p3, px * 65536, py * 65536),
                            bary_n3(*p1, *p2, *p3, px * 65536, py * 65536),
                            bary_denom(*p1, *p2, *p3),
                        )
                    } else {
                        image.depths()[i] == old(image).depths()[i]
                            && image.colors()[i] == old(image).colors()[i]
                    }
                } by {
                    lemma_image_index(&pre, px, py);
                    lemma_image_index(&pre, x as int, y as int);
                    if !(px == x as int && py == y as int)
                        && old(image).idx(px, py) == old(image).idx(x as int, y as int) {
                        lemma_idx_injective(old(image).spec_width(), px, py, x as int, y as int);
                    }
                }
            }
            x = x + 1;
        }
        y = y + 1;
    }
    proof {
        assert forall|px: int, py: int| old(image).in_bounds(px, py)
            && fill_touches(*p1, *p2, *p3, px, py,
                old(image).depths()[old(image).idx(px, py)])
            implies min_x <= px <= max_x && min_y <= py <= max_y by {
            lemma_inside_in_bbox(*p1, *p2, *p3, px * 65536, py * 65536);
            lemma_snap_range(
                min3(p1.x as int, p2.x as int, p3.x as int),
                max3(p1.x as int, p2.x as int, p3.x as int),
                px,
                old(image).spec_width(),
            );
            lemma_snap_range(
                min3(p1.y as int, p2.y as int, p3.y as int),
                max3(p1.y as int, p2.y as int, p3.y as int),
                py,
                old(image).spec_height(),
            );
        }
        assert(fill_outcome(*old(image), *image, *p1, *p2, *p3, *draw_style, rc, intensity));
    }
}

} // verus!
