use vstd::prelude::*;

use crate::backend::Backend;

verus! {

/// Whether `v` fits in an `i32`.
pub open spec fn fits_i32(v: int) -> bool {
    i32::MIN <= v <= i32::MAX
}

/// Twice the signed area of the triangle `p1`, `p2`, `p3`: positive or
/// negative by the side of the line through `p2` and `p3` that `p1` lies on.
pub open spec fn spec_sign(p1: (i32, i32), p2: (i32, i32), p3: (i32, i32)) -> int {
    (p1.0 - p3.0) * (p2.1 - p3.1) - (p2.0 - p3.0) * (p1.1 - p3.1)
}

/// Whether `spec_sign(p1, p2, p3)` can be computed in `i32`: each
/// difference, each product and the result fit.
pub open spec fn sign_fits(p1: (i32, i32), p2: (i32, i32), p3: (i32, i32)) -> bool {
    &&& fits_i32(p1.0 - p3.0)
    &&& fits_i32(p2.1 - p3.1)
    &&& fits_i32(p2.0 - p3.0)
    &&& fits_i32(p1.1 - p3.1)
    &&& fits_i32((p1.0 - p3.0) * (p2.1 - p3.1))
    &&& fits_i32((p2.0 - p3.0) * (p1.1 - p3.1))
    &&& fits_i32(spec_sign(p1, p2, p3))
}

/// Whether the point lies within 16383 pixels of the origin on both axes,
/// where every sign computation fits in `i32`.
pub open spec fn in_pixel_range(p: (i32, i32)) -> bool {
    -16383 <= p.0 <= 16383 && -16383 <= p.1 <= 16383
}

/// Whether `pt` lies in the triangle `a`, `b`, `c` or on its border: the
/// three signs do not differ strictly.
pub open spec fn spec_in_triangle(pt: (i32, i32), a: (i32, i32), b: (i32, i32), c: (i32, i32)) -> bool {
    let d1 = spec_sign(pt, a, b);
    let d2 = spec_sign(pt, b, c);
    let d3 = spec_sign(pt, c, a);
    !((d1 < 0 || d2 < 0 || d3 < 0) && (d1 > 0 || d2 > 0 || d3 > 0))
}

/// Whether `pt` lies in the quadrilateral of `points`, taken as the two
/// triangles 0, 1, 2 and 1, 2, 3.
pub open spec fn spec_in_quadrilateral(pt: (i32, i32), points: Seq<(i32, i32)>) -> bool {
    spec_in_triangle(pt, points[0], points[1], points[2]) || spec_in_triangle(pt, points[1], points[2], points[3])
}

/// Within the pixel range every sign computation fits.
pub proof fn lemma_pixel_range_fits(p1: (i32, i32), p2: (i32, i32), p3: (i32, i32))
    requires
        in_pixel_range(p1),
        in_pixel_range(p2),
        in_pixel_range(p3),
    ensures
        sign_fits(p1, p2, p3),
{
    let a = p1.0 - p3.0;
    let b = p2.1 - p3.1;
    let c = p2.0 - p3.0;
    let d = p1.1 - p3.1;
    assert(a * b <= 32766 * 32766) by (nonlinear_arith)
        requires
            -32766 <= a <= 32766,
            -32766 <= b <= 32766,
    ;
    assert(c * d <= 32766 * 32766) by (nonlinear_arith)
        requires
            -32766 <= c <= 32766,
            -32766 <= d <= 32766,
    ;
    assert(-(32766 * 32766) <= a * b) by (nonlinear_arith)
        requires
            -32766 <= a <= 32766,
            -32766 <= b <= 32766,
    ;
    assert(-(32766 * 32766) <= c * d) by (nonlinear_arith)
        requires
            -32766 <= c <= 32766,
            -32766 <= d <= 32766,
    ;
}

/// Twice the signed area of the triangle `p1`, `p2`, `p3`.
pub fn sign(p1: (i32, i32), p2: (i32, i32), p3: (i32, i32)) -> (r: i32)
    requires
        sign_fits(p1, p2, p3),
    ensures
        r == spec_sign(p1, p2, p3),
{
    (p1.0 - p3.0) * (p2.1 - p3.1) - (p2.0 - p3.0) * (p1.1 - p3.1)
}

/// Whether `pt` lies in the triangle `points` or on its border.
pub fn point_is_in_triangle(pt: (i32, i32), points: &[(i32, i32); 3]) -> (r: bool)
    requires
        sign_fits(pt, points[0], points[1]),
        sign_fits(pt, points[1], points[2]),
        sign_fits(pt, points[2], points[0]),
    ensures
        r == spec_in_triangle(pt, points[0], points[1], points[2]),
{
    let d1 = sign(pt, points[0], points[1]);
    let d2 = sign(pt, points[1], points[2]);
    let d3 = sign(pt, points[2], points[0]);

    let has_neg = d1 < 0 || d2 < 0 || d3 < 0;
    let has_pos = d1 > 0 || d2 > 0 || d3 > 0;

    !(has_neg && has_pos)
}

/// Whether `pt` lies in the quadrilateral `points` (see
/// `spec_in_quadrilateral`).
pub fn point_is_in_quadrilateral(pt: (i32, i32), points: &[(i32, i32); 4]) -> (r: bool)
    requires
        in_pixel_range(pt),
        forall|i: int| 0 <= i < 4 ==> in_pixel_range(#[trigger] points[i]),
    ensures
        r == spec_in_quadrilateral(pt, points@),
{
    proof {
        lemma_pixel_range_fits(pt, points[0], points[1]);
        lemma_pixel_range_fits(pt, points[1], points[2]);
        lemma_pixel_range_fits(pt, points[2], points[0]);
        lemma_pixel_range_fits(pt, points[2], points[3]);
        lemma_pixel_range_fits(pt, points[3], points[1]);
    }
    point_is_in_triangle(pt, &[points[0], points[1], points[2]]) || point_is_in_triangle(
        pt,
        &[points[1], points[2], points[3]],
    )
}

/// Draws the outline of the quadrilateral `points`, in the order 0, 2, 3, 1.
pub fn draw_polygon<B: Backend>(backend: &mut B, points: &[(i32, i32)])
    requires
        points@.len() >= 4,
{
    backend.draw_line(points[0], points[2]);
    backend.draw_line(points[2], points[3]);
    backend.draw_line(points[3], points[1]);
    backend.draw_line(points[1], points[0]);
}

/// The smallest and the largest of four numbers.
fn min_max4(a: i32, b: i32, c: i32, d: i32) -> (r: (i32, i32))
    ensures
        r.0 <= a && r.0 <= b && r.0 <= c && r.0 <= d,
        r.0 == a || r.0 == b || r.0 == c || r.0 == d,
        r.1 >= a && r.1 >= b && r.1 >= c && r.1 >= d,
        r.1 == a || r.1 == b || r.1 == c || r.1 == d,
{
    let mut lo = a;
    let mut hi = a;
    if b < lo {
        lo = b;
    }
    if b > hi {
        hi = b;
    }
    if c < lo {
        lo = c;
    }
    if c > hi {
        hi = c;
    }
    if d < lo {
        lo = d;
    }
    if d > hi {
        hi = d;
    }
    (lo, hi)
}

/// Draws every point of the quadrilateral `points`, as found by
/// `point_is_in_quadrilateral`, scanning its bounding box row by row.
pub fn fill_quadrilateral<B: Backend>(backend: &mut B, points: &[(i32, i32); 4])
    requires
        forall|i: int| 0 <= i < 4 ==> in_pixel_range(#[trigger] points[i]),
{
    let (lx, rx) = min_max4(points[0].0, points[1].0, points[2].0, points[3].0);
    let (ly, ry) = min_max4(points[0].1, points[1].1, points[2].1, points[3].1);
    proof {
        assert(in_pixel_range(points[0]));
        assert(in_pixel_range(points[1]));
        assert(in_pixel_range(points[2]));
        assert(in_pixel_range(points[3]));
    }
    let mut y = ly;
    while y <= ry
        invariant
            forall|i: int| 0 <= i < 4 ==> in_pixel_range(#[trigger] points[i]),
            -16383 <= lx <= rx <= 16383,
            -16383 <= ly <= y,
            ry <= 16383,
            y <= ry + 1,
        decreases ry + 1 - y,
    {
        let mut x = lx;
        while x <= rx
            invariant
                forall|i: int| 0 <= i < 4 ==> in_pixel_range(#[trigger] points[i]),
                -16383 <= lx <= x,
                rx <= 16383,
                x <= rx + 1,
                -16383 <= y <= ry,
                ry <= 16383,
            decreases rx + 1 - x,
        {
            if point_is_in_quadrilateral((x, y), points) {
                backend.draw_point(x, y);
            }
            x = x + 1;
        }
        y = y + 1;
    }
}

} // verus!
