//! What holds of regions whatever numbers their coordinates are, as long as the
//! operations on these numbers do what they should.
//!
//! Single-precision numbers do so as long as no sum or difference is rounded: on
//! multiples of one half, for example, that are not too large. Fixed-point numbers
//! do so as long as they stay in range (`fixed_laws`).

use vstd::prelude::*;

use crate::roi::{Geometry, Tool};
use crate::scalar::{half_spec, Scalar};

verus! {

/// It does not matter in which order the two numbers stand: what is between them,
/// their sum, and the size of their difference are the same.
pub open spec fn interchangeable<S: Scalar>(a: S, b: S) -> bool {
    &&& forall|p: S| #[trigger]
        a.smaller_spec(b).at_most_spec(p) == b.smaller_spec(a).at_most_spec(p)
    &&& forall|p: S| #[trigger]
        p.at_most_spec(a.larger_spec(b)) == p.at_most_spec(b.larger_spec(a))
    &&& a.plus_spec(b) == b.plus_spec(a)
    &&& a.minus_spec(b).magnitude_spec() == b.minus_spec(a).magnitude_spec()
}

/// A rectangle or an ellipse contains the same points from whichever of the four
/// corners of its box it is drawn to the opposite one.
pub proof fn the_corner_does_not_matter<S: Scalar>(
    tool: Tool,
    a: (S, S),
    b: (S, S),
    px: S,
    py: S,
)
    requires
        tool is Rectangle || tool is Ellipse,
        interchangeable(a.0, b.0),
        interchangeable(a.1, b.1),
    ensures
        ({
            let inside = Geometry::from_drag_spec(tool, a, b).contains_spec(px, py);
            let c = (a.0, b.1);
            let d = (b.0, a.1);
            &&& Geometry::from_drag_spec(tool, b, a).contains_spec(px, py) == inside
            &&& Geometry::from_drag_spec(tool, c, d).contains_spec(px, py) == inside
            &&& Geometry::from_drag_spec(tool, d, c).contains_spec(px, py) == inside
        }),
{
    assert(a.0.smaller_spec(b.0).at_most_spec(px) == b.0.smaller_spec(a.0).at_most_spec(px));
    assert(a.1.smaller_spec(b.1).at_most_spec(py) == b.1.smaller_spec(a.1).at_most_spec(py));
    assert(px.at_most_spec(a.0.larger_spec(b.0)) == px.at_most_spec(b.0.larger_spec(a.0)));
    assert(py.at_most_spec(a.1.larger_spec(b.1)) == py.at_most_spec(b.1.larger_spec(a.1)));
}

/// A number is not below the smaller of two if it is not below one of them, and not
/// above the larger of two if it is not above one of them.
pub open spec fn ordered<S: Scalar>(u: S, v: S, p: S) -> bool {
    &&& u.smaller_spec(v).at_most_spec(p) == (u.at_most_spec(p) || v.at_most_spec(p))
    &&& p.at_most_spec(u.larger_spec(v)) == (p.at_most_spec(u) || p.at_most_spec(v))
}

/// Adding `d` to both numbers keeps their order and their difference.
pub open spec fn shifts<S: Scalar>(u: S, p: S, d: S) -> bool {
    &&& u.plus_spec(d).at_most_spec(p.plus_spec(d)) == u.at_most_spec(p)
    &&& p.plus_spec(d).at_most_spec(u.plus_spec(d)) == p.at_most_spec(u)
    &&& p.plus_spec(d).minus_spec(u.plus_spec(d)) == p.minus_spec(u)
}

/// The operations on the coordinates of the shape and the point are exact when both
/// are moved by `(dx, dy)`.
pub open spec fn shifts_exactly<S: Scalar>(geom: Geometry<S>, px: S, py: S, dx: S, dy: S) -> bool {
    match geom {
        Geometry::Rect { x0, y0, x1, y1 } => {
            &&& shifts(x0, px, dx) && shifts(x1, px, dx)
            &&& shifts(y0, py, dy) && shifts(y1, py, dy)
            &&& ordered(x0, x1, px) && ordered(y0, y1, py)
            &&& ordered(x0.plus_spec(dx), x1.plus_spec(dx), px.plus_spec(dx))
            &&& ordered(y0.plus_spec(dy), y1.plus_spec(dy), py.plus_spec(dy))
        },
        Geometry::Ellipse { cx, cy, .. } => shifts(cx, px, dx) && shifts(cy, py, dy),
        Geometry::Circle { cx, cy, .. } => shifts(cx, px, dx) && shifts(cy, py, dy),
    }
}

/// A moved shape contains the moved points.
pub proof fn a_moved_shape_contains_moved_points<S: Scalar>(
    geom: Geometry<S>,
    dx: S,
    dy: S,
    px: S,
    py: S,
)
    requires
        shifts_exactly(geom, px, py, dx, dy),
    ensures
        geom.translated(dx, dy).contains_spec(px.plus_spec(dx), py.plus_spec(dy))
            == geom.contains_spec(px, py),
{
}

/// A shape keeps its form and its radii when it is moved. There is nothing that is
/// asked of the numbers.
pub proof fn a_moved_shape_keeps_its_form<S: Scalar>(geom: Geometry<S>, dx: S, dy: S)
    ensures
        match geom {
            Geometry::Rect { .. } => geom.translated(dx, dy) is Rect,
            Geometry::Ellipse { rx, ry, .. } => geom.translated(dx, dy) matches Geometry::Ellipse {
                rx: sx,
                ry: sy,
                ..
            } && sx == rx && sy == ry,
            Geometry::Circle { r, .. } => geom.translated(dx, dy) matches Geometry::Circle {
                r: s,
                ..
            } && s == r,
        },
{
}

/// The middle of two numbers that both grow by `d` grows by `d`.
pub open spec fn middle_shifts<S: Scalar>(u: S, v: S, d: S) -> bool {
    let h = half_spec::<S>();
    u.plus_spec(d).plus_spec(v.plus_spec(d)).times_spec(h) == u.plus_spec(v).times_spec(
        h,
    ).plus_spec(d)
}

/// The center of a moved shape has moved as far as the shape. Of the numbers it is
/// asked only that the middles of a rectangle's sides move with them.
pub proof fn the_center_moves_with_the_shape<S: Scalar>(geom: Geometry<S>, dx: S, dy: S)
    requires
        geom matches Geometry::Rect { x0, y0, x1, y1 } ==> middle_shifts(x0, x1, dx)
            && middle_shifts(y0, y1, dy),
    ensures
        geom.translated(dx, dy).center_spec() == (
            geom.center_spec().0.plus_spec(dx),
            geom.center_spec().1.plus_spec(dy),
        ),
{
}

/// Adding `e` undoes adding `d`.
pub open spec fn undoes<S: Scalar>(v: S, d: S, e: S) -> bool {
    v.plus_spec(d).plus_spec(e) == v
}

/// Moving by `(ex, ey)` undoes moving by `(dx, dy)`, for each coordinate of the shape.
pub open spec fn shape_undoes<S: Scalar>(geom: Geometry<S>, dx: S, dy: S, ex: S, ey: S) -> bool {
    match geom {
        Geometry::Rect { x0, y0, x1, y1 } => {
            &&& undoes(x0, dx, ex) && undoes(x1, dx, ex)
            &&& undoes(y0, dy, ey) && undoes(y1, dy, ey)
        },
        Geometry::Ellipse { cx, cy, .. } => undoes(cx, dx, ex) && undoes(cy, dy, ey),
        Geometry::Circle { cx, cy, .. } => undoes(cx, dx, ex) && undoes(cy, dy, ey),
    }
}

/// A shape that is moved and moved back is the shape.
pub proof fn a_shape_moved_back_is_the_shape<S: Scalar>(geom: Geometry<S>, dx: S, dy: S, ex: S, ey: S)
    requires
        shape_undoes(geom, dx, dy, ex, ey),
    ensures
        geom.translated(dx, dy).translated(ex, ey) == geom,
{
}

} // verus!
