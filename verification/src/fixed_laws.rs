//! What holds of regions whose coordinates are fixed-point numbers, where
//! arithmetic is exact as long as it stays in range.

use vstd::prelude::*;

use crate::fixed::Fixed;
use crate::handles::{fields_of, resized, shape_of, Handle};
use crate::roi::{pixel_center_spec, pixel_index_spec, Geometry, Tool};
use crate::scalar::{half_spec, ratio_spec, Scalar};
use crate::shape_laws::{
    a_moved_shape_contains_moved_points, a_moved_shape_keeps_its_form,
    a_shape_moved_back_is_the_shape, interchangeable, middle_shifts, shape_undoes, shifts_exactly,
    the_center_moves_with_the_shape, the_corner_does_not_matter,
};

verus! {

/// The number is small enough for sums of a few to stay in range.
pub open spec fn modest(v: Fixed) -> bool {
    -0x1000_0000_0000_0000 <= v.steps <= 0x1000_0000_0000_0000
}

/// All numbers of the shape are.
pub open spec fn modest_shape(geom: Geometry<Fixed>) -> bool {
    match geom {
        Geometry::Rect { x0, y0, x1, y1 } => modest(x0) && modest(y0) && modest(x1) && modest(y1),
        Geometry::Ellipse { cx, cy, rx, ry } => modest(cx) && modest(cy) && modest(rx) && modest(ry),
        Geometry::Circle { cx, cy, r } => modest(cx) && modest(cy) && modest(r),
    }
}

/// An image side that coordinates can reach.
pub open spec fn modest_side(n: int) -> bool {
    0 < n <= 0x1000_0000
}

/// The center of a pixel is half a pixel beyond its number.
pub proof fn pixel_center_is_halfway(i: usize)
    requires
        modest_side(i as int + 1),
    ensures
        pixel_center_spec::<Fixed>(i).steps == i * 65536 + 32768,
{
    half_is_half();
    assert(Fixed::of_count_spec(i).steps == i * 65536);
}

/// The radii are small enough for what is inside to be told exactly: the square of
/// that of a circle is in range, and those of an ellipse are at most 32768 pixels.
///
/// Beyond that, a shape contains points that its bounding box leaves out. The square
/// of a larger radius of a circle is held at the end of the range, as are those of
/// all distances that are larger still, so that the circle contains every point. And
/// a distance from the center of an ellipse is divided by the radius and rounded down
/// to a step, so that with a radius of `r` steps the ellipse contains points up to
/// `r / 65536` steps beyond its extent: from a radius of 32768 pixels and one step on,
/// that is half a pixel, which is the distance from a pixel's center to its edge.
pub open spec fn fair_radii(geom: Geometry<Fixed>) -> bool {
    match geom {
        Geometry::Rect { .. } => true,
        Geometry::Ellipse { rx, ry, .. } => rx.steps <= 0x8000_0000 && ry.steps <= 0x8000_0000,
        Geometry::Circle { r, .. } => r.steps > 0 ==> (r.steps * r.steps) / 65536 < i64::MAX,
    }
}

/// The bounding box loses no pixel: the shape covers exactly those whose centers
/// are inside it.
pub proof fn a_shape_covers_what_it_contains(
    geom: Geometry<Fixed>,
    height: usize,
    width: usize,
    y: usize,
    x: usize,
)
    requires
        modest_shape(geom),
        fair_radii(geom),
        modest_side(height as int),
        modest_side(width as int),
        y < height,
        x < width,
    ensures
        geom.covers(height as int, width as int, y as int, x as int) <==> geom.contains_spec(
            pixel_center_spec(x),
            pixel_center_spec(y),
        ),
{
    pixel_center_is_halfway(x);
    pixel_center_is_halfway(y);
    let px = pixel_center_spec::<Fixed>(x);
    let py = pixel_center_spec::<Fixed>(y);
    if geom.contains_spec(px, py) {
        match geom {
            Geometry::Rect { .. } => {},
            Geometry::Ellipse { cx, cy, rx, ry } => {
                let dx = px.minus_spec(cx);
                let dy = py.minus_spec(cy);
                lemma_ellipse_side(dx, rx, dy.over_spec(ry));
                lemma_ellipse_side(dy, ry, dx.over_spec(rx));
            },
            Geometry::Circle { cx, cy, r } => {
                let dx = px.minus_spec(cx);
                let dy = py.minus_spec(cy);
                lemma_circle_side(dx, dy, r);
                lemma_circle_side(dy, dx, r);
            },
        }
        let e = geom.extent_spec();
        lemma_low_side(e.0, x, width);
        lemma_low_side(e.1, y, height);
        lemma_high_side(e.2, x, width);
        lemma_high_side(e.3, y, height);
    }
}

/// A point inside a circle is, along either axis, less than half a pixel farther
/// from its center than the radius.
proof fn lemma_circle_side(d: Fixed, other: Fixed, r: Fixed)
    requires
        r.steps > 0,
        (r.steps * r.steps) / 65536 < i64::MAX,
        d.squared_spec().plus_spec(other.squared_spec()).steps <= r.times_spec(r).steps,
    ensures
        -r.steps - 32768 < d.steps < r.steps + 32768,
{
    let a = d.steps as int;
    let b = other.steps as int;
    let c = r.steps as int;
    assert(a * a >= 0 && b * b >= 0 && c * c >= 0) by (nonlinear_arith);
    if a >= c + 32768 || a <= -c - 32768 {
        assert(a * a >= c * c + 65536) by (nonlinear_arith)
            requires
                c > 0,
                a >= c + 32768 || a <= -c - 32768,
        ;
        assert((a * a) / 65536 >= (c * c + 65536) / 65536);
        assert((c * c + 65536) / 65536 == (c * c) / 65536 + 1);
    }
}

/// A point inside an ellipse is, along either axis, less than half a pixel farther
/// from its center than the radius.
proof fn lemma_ellipse_side(d: Fixed, r: Fixed, other: Fixed)
    requires
        0 < r.steps <= 0x8000_0000,
        ({
            let q = d.over_spec(r);
            ||| q.times_spec(q).plus_spec(other.times_spec(other)).steps <= 65536
            ||| other.times_spec(other).plus_spec(q.times_spec(q)).steps <= 65536
        }),
    ensures
        -r.steps - 32768 < d.steps < r.steps + 32768,
{
    let q = d.over_spec(r).steps as int;
    let o = other.steps as int;
    let size = if d.steps < 0 {
        -d.steps
    } else {
        d.steps as int
    };
    let c = r.steps as int;
    let ratio = (size * 65536) / c;
    assert(q * q >= 0 && o * o >= 0) by (nonlinear_arith);
    assert((q * q) / 65536 <= 65536);
    assert(-65536 <= q <= 65536) by {
        if q > 65536 || q < -65536 {
            assert(q * q >= 65537 * 65537) by (nonlinear_arith)
                requires
                    q >= 65537 || q <= -65537,
            ;
        }
    }
    vstd::arithmetic::div_mod::lemma_div_pos_is_pos(size * 65536, c);
    assert(ratio <= 65536);
    vstd::arithmetic::div_mod::lemma_fundamental_div_mod(size * 65536, c);
    vstd::arithmetic::div_mod::lemma_mod_bound(size * 65536, c);
    assert(c * ratio <= c * 65536) by (nonlinear_arith)
        requires
            c > 0,
            ratio <= 65536,
    ;
}

/// A coordinate less than half a pixel behind a pixel's center leads, rounded down,
/// to that pixel or one before it.
proof fn lemma_low_side(v: Fixed, i: usize, n: usize)
    requires
        -0x2000_0000_0000_0000 <= v.steps <= 0x2000_0000_0000_0000,
        modest_side(n as int),
        i < n,
        v.steps < i * 65536 + 65536,
    ensures
        pixel_index_spec(v.floor_spec(), n) <= i,
{
    let f = v.floor_spec();
    assert(f.steps == (v.steps as int / 65536) * 65536);
    assert(v.steps as int / 65536 <= i);
    let last = (n - 1) as usize;
    assert(Fixed::of_count_spec(0).steps == 0);
    assert(Fixed::of_count_spec(last).steps == last * 65536);
    let c = f.clamped_spec(Fixed::of_count_spec(0), Fixed::of_count_spec(last));
    assert(0 <= c.steps <= i * 65536);
    assert(c.truncated_spec() == c.steps as int / 65536);
}

/// A coordinate less than half a pixel before a pixel's center leads, rounded up,
/// to that pixel or one behind it.
proof fn lemma_high_side(v: Fixed, i: usize, n: usize)
    requires
        -0x2000_0000_0000_0000 <= v.steps <= 0x2000_0000_0000_0000,
        modest_side(n as int),
        i < n,
        i * 65536 < v.steps,
    ensures
        i <= pixel_index_spec(v.ceil_spec(), n),
{
    let c = v.ceil_spec();
    assert(c.steps == -((-v.steps) / 65536) * 65536);
    assert((-v.steps) / 65536 <= -(i as int) - 1);
    let last = (n - 1) as usize;
    assert(Fixed::of_count_spec(0).steps == 0);
    assert(Fixed::of_count_spec(last).steps == last * 65536);
    let d = c.clamped_spec(Fixed::of_count_spec(0), Fixed::of_count_spec(last));
    assert(i * 65536 <= d.steps <= last * 65536);
    assert(d.truncated_spec() == d.steps as int / 65536);
}

/// A rectangle covers exactly the pixels whose centers lie between its sides,
/// whichever corners it is given by.
pub proof fn a_rectangle_covers_its_pixels(
    x0: Fixed,
    y0: Fixed,
    x1: Fixed,
    y1: Fixed,
    height: usize,
    width: usize,
    y: usize,
    x: usize,
)
    requires
        modest_shape(Geometry::Rect { x0, y0, x1, y1 }),
        modest_side(height as int),
        modest_side(width as int),
        y < height,
        x < width,
    ensures
        (Geometry::Rect { x0, y0, x1, y1 }).covers(
            height as int,
            width as int,
            y as int,
            x as int,
        ) <==> {
            let px = x * 65536 + 32768;
            let py = y * 65536 + 32768;
            &&& x0.steps <= px <= x1.steps || x1.steps <= px <= x0.steps
            &&& y0.steps <= py <= y1.steps || y1.steps <= py <= y0.steps
        },
{
    let g = Geometry::Rect { x0, y0, x1, y1 };
    pixel_center_is_halfway(x);
    pixel_center_is_halfway(y);
    a_shape_covers_what_it_contains(g, height, width, y, x);
}

/// Sums and differences of modest numbers are exact, and subtracting undoes adding.
pub proof fn modest_shapes_shift_exactly(
    geom: Geometry<Fixed>,
    px: Fixed,
    py: Fixed,
    dx: Fixed,
    dy: Fixed,
)
    requires
        modest_shape(geom),
        modest(px),
        modest(py),
        modest(dx),
        modest(dy),
    ensures
        shifts_exactly(geom, px, py, dx, dy),
        shape_undoes(
            geom,
            dx,
            dy,
            Fixed::of_count_spec(0).minus_spec(dx),
            Fixed::of_count_spec(0).minus_spec(dy),
        ),
{
}

/// A shape that is moved and moved back is the shape.
pub proof fn moving_there_and_back_is_nothing(geom: Geometry<Fixed>, dx: Fixed, dy: Fixed)
    requires
        modest_shape(geom),
        modest(dx),
        modest(dy),
    ensures
        geom.translated(dx, dy).translated(
            Fixed::of_count_spec(0).minus_spec(dx),
            Fixed::of_count_spec(0).minus_spec(dy),
        ) == geom,
{
    let zero = Fixed::of_count_spec(0);
    modest_shapes_shift_exactly(geom, zero, zero, dx, dy);
    a_shape_moved_back_is_the_shape(geom, dx, dy, zero.minus_spec(dx), zero.minus_spec(dy));
}

/// Moving in two steps is moving once by both.
pub proof fn moves_add_up(geom: Geometry<Fixed>, ax: Fixed, ay: Fixed, bx: Fixed, by: Fixed)
    requires
        modest_shape(geom),
        modest(ax),
        modest(ay),
        modest(bx),
        modest(by),
    ensures
        geom.translated(ax, ay).translated(bx, by) == geom.translated(
            ax.plus_spec(bx),
            ay.plus_spec(by),
        ),
{
}

/// A moved shape contains the moved points.
pub proof fn moving_keeps_what_is_inside(
    geom: Geometry<Fixed>,
    dx: Fixed,
    dy: Fixed,
    px: Fixed,
    py: Fixed,
)
    requires
        modest_shape(geom),
        modest(dx),
        modest(dy),
        modest(px),
        modest(py),
    ensures
        geom.translated(dx, dy).contains_spec(px.plus_spec(dx), py.plus_spec(dy))
            == geom.contains_spec(px, py),
{
    modest_shapes_shift_exactly(geom, px, py, dx, dy);
    a_moved_shape_contains_moved_points(geom, dx, dy, px, py);
}

/// The center of a moved shape has moved as far as the shape. The shape keeps its
/// form and its radii.
pub proof fn the_center_moves_along(geom: Geometry<Fixed>, dx: Fixed, dy: Fixed)
    requires
        modest_shape(geom),
        modest(dx),
        modest(dy),
    ensures
        geom.translated(dx, dy).center_spec() == (
            geom.center_spec().0.plus_spec(dx),
            geom.center_spec().1.plus_spec(dy),
        ),
        match geom {
            Geometry::Rect { .. } => geom.translated(dx, dy) is Rect,
            Geometry::Ellipse { rx, ry, .. } => geom.translated(dx, dy) matches Geometry::Ellipse {
                rx: sx,
                ry: sy,
                ..
            } && sx == rx && sy == ry,
            Geometry::Circle { r, .. } => geom.translated(dx, dy) matches Geometry::Circle {
                r: s,
                ..
            } && s == r,
        },
{
    if let Geometry::Rect { x0, y0, x1, y1 } = geom {
        lemma_middle_shifts(x0, x1, dx);
        lemma_middle_shifts(y0, y1, dy);
    }
    the_center_moves_with_the_shape(geom, dx, dy);
    a_moved_shape_keeps_its_form(geom, dx, dy);
}

/// The middle of two modest numbers moves with them.
proof fn lemma_middle_shifts(u: Fixed, v: Fixed, d: Fixed)
    requires
        modest(u),
        modest(v),
        modest(d),
    ensures
        middle_shifts(u, v, d),
{
    half_is_half();
    lemma_half_of_moved(u.steps + v.steps, d.steps as int);
    assert(u.plus_spec(v).times_spec(half_spec::<Fixed>()).steps == ((u.steps + v.steps) * 32768)
        / 65536);
}

/// Half of a sum whose two terms grow by `d` grows by `d`.
proof fn lemma_half_of_moved(s: int, d: int)
    ensures
        ((s + 2 * d) * 32768) / 65536 == (s * 32768) / 65536 + d,
{
}

/// A half is half a pixel.
pub proof fn half_is_half()
    ensures
        half_spec::<Fixed>().steps == 32768,
{
    assert((65536int * 65536) / 131072 == 32768);
    assert(Fixed::of_count_spec(1).steps == 65536);
    assert(Fixed::of_count_spec(2).steps == 131072);
}

/// A circle and an ellipse are symmetric about both axes through their center.
pub proof fn round_shapes_are_symmetric(geom: Geometry<Fixed>, dx: Fixed, dy: Fixed)
    requires
        geom !is Rect,
        modest_shape(geom),
        modest(dx),
        modest(dy),
    ensures
        ({
            let (cx, cy) = geom.center_spec();
            let inside = geom.contains_spec(cx.plus_spec(dx), cy.plus_spec(dy));
            &&& geom.contains_spec(cx.minus_spec(dx), cy.plus_spec(dy)) == inside
            &&& geom.contains_spec(cx.plus_spec(dx), cy.minus_spec(dy)) == inside
            &&& geom.contains_spec(cx.minus_spec(dx), cy.minus_spec(dy)) == inside
        }),
{
    let (cx, cy) = geom.center_spec();
    let zero = Fixed::of_count_spec(0);
    let ex = zero.minus_spec(dx);
    let ey = zero.minus_spec(dy);
    assert(cx.plus_spec(dx).minus_spec(cx) == dx);
    assert(cy.plus_spec(dy).minus_spec(cy) == dy);
    assert(cx.minus_spec(dx).minus_spec(cx) == ex);
    assert(cy.minus_spec(dy).minus_spec(cy) == ey);
    lemma_square_of_negation(dx);
    lemma_square_of_negation(dy);
    if let Geometry::Ellipse { rx, ry, .. } = geom {
        if rx.steps > 0 && ry.steps > 0 {
            lemma_quotient_of_negation(dx, rx);
            lemma_quotient_of_negation(dy, ry);
        }
    }
}

/// A number and its negation have one square.
proof fn lemma_square_of_negation(v: Fixed)
    requires
        modest(v),
    ensures
        Fixed::of_count_spec(0).minus_spec(v).squared_spec() == v.squared_spec(),
{
    let s = v.steps as int;
    assert((-s) * (-s) == s * s) by (nonlinear_arith);
}

/// The quotients of a number and of its negation have one square.
proof fn lemma_quotient_of_negation(v: Fixed, r: Fixed)
    requires
        modest(v),
        r.steps > 0,
    ensures
        ({
            let a = v.over_spec(r);
            let b = Fixed::of_count_spec(0).minus_spec(v).over_spec(r);
            a.times_spec(a) == b.times_spec(b)
        }),
{
    let a = v.over_spec(r).steps as int;
    let b = Fixed::of_count_spec(0).minus_spec(v).over_spec(r).steps as int;
    let size = if v.steps < 0 {
        -v.steps
    } else {
        v.steps as int
    };
    let q = (size * 65536) / (r.steps as int);
    vstd::arithmetic::div_mod::lemma_div_pos_is_pos(size * 65536, r.steps as int);
    if q <= i64::MAX {
        assert(a == q && b == -q || a == -q && b == q);
        assert((-q) * (-q) == q * q) by (nonlinear_arith);
    } else {
        assert(a == i64::MAX && b == i64::MIN || a == i64::MIN && b == i64::MAX);
        assert((i64::MAX * i64::MAX) / 65536 > i64::MAX);
        assert((i64::MIN * i64::MIN) / 65536 > i64::MAX);
    }
}

/// A rectangle or an ellipse is the same from whichever of the four corners of its
/// box it is drawn to the opposite one.
pub proof fn drag_direction_does_not_matter(
    tool: Tool,
    a: (Fixed, Fixed),
    b: (Fixed, Fixed),
    px: Fixed,
    py: Fixed,
)
    requires
        tool is Rectangle || tool is Ellipse,
    ensures
        ({
            let inside = Geometry::from_drag_spec(tool, a, b).contains_spec(px, py);
            let c = (a.0, b.1);
            let d = (b.0, a.1);
            &&& Geometry::from_drag_spec(tool, b, a).contains_spec(px, py) == inside
            &&& Geometry::from_drag_spec(tool, c, d).contains_spec(px, py) == inside
            &&& Geometry::from_drag_spec(tool, d, c).contains_spec(px, py) == inside
        }),
{
    any_two_are_interchangeable(a.0, b.0);
    any_two_are_interchangeable(a.1, b.1);
    the_corner_does_not_matter(tool, a, b, px, py);
}

/// Of any two fixed-point numbers it does not matter which comes first.
pub proof fn any_two_are_interchangeable(a: Fixed, b: Fixed)
    ensures
        interchangeable(a, b),
{
}

/// Dragging a handle of a box leaves its corners in order, and puts the dragged
/// sides where the pointer is.
pub proof fn resizing_follows_the_pointer(
    x0: Fixed,
    y0: Fixed,
    x1: Fixed,
    y1: Fixed,
    hx: i8,
    vy: i8,
    p: (Fixed, Fixed),
)
    ensures
        resized(Geometry::Rect { x0, y0, x1, y1 }, Handle::Box { hx, vy }, p) matches Geometry::Rect {
            x0: a,
            y0: b,
            x1: c,
            y1: d,
        } && a.steps <= c.steps && b.steps <= d.steps && (hx == 1 || hx == -1 ==> a == p.0 || c
            == p.0) && (vy == 1 || vy == -1 ==> b == p.1 || d == p.1),
{
}

/// A circle that is resized has a radius of at least half a pixel, and its center
/// stays.
pub proof fn a_resized_circle_keeps_its_center(cx: Fixed, cy: Fixed, r: Fixed, p: (Fixed, Fixed))
    ensures
        resized(Geometry::Circle { cx, cy, r }, Handle::Radius, p) matches Geometry::Circle {
            cx: a,
            cy: b,
            r: radius,
        } && a == cx && b == cy && radius.steps >= 32768,
{
    half_is_half();
}

/// Writing back the numbers that the panel shows for a region changes nothing of
/// what it contains.
pub proof fn fields_describe_the_region(geom: Geometry<Fixed>, px: Fixed, py: Fixed)
    requires
        modest_shape(geom),
    ensures
        shape_of(fields_of(geom)).contains_spec(px, py) == geom.contains_spec(px, py),
{
}

/// The magnification stays in its range, whichever way it is changed.
pub proof fn zoom_stays_in_range(scale: Fixed)
    requires
        ratio_spec::<Fixed>(1, 50).steps <= scale.steps <= Fixed::of_count_spec(64).steps,
    ensures
        ({
            let least = ratio_spec::<Fixed>(1, 50);
            let most = Fixed::of_count_spec(64);
            let out = scale.over_spec(ratio_spec(5, 4)).larger_spec(least);
            let closer = scale.times_spec(ratio_spec(5, 4)).smaller_spec(most);
            &&& least.steps <= out.steps <= scale.steps
            &&& scale.steps <= closer.steps <= most.steps
        }),
{
    assert(Fixed::of_count_spec(1).steps == 65536);
    assert(Fixed::of_count_spec(50).steps == 3276800);
    assert(Fixed::of_count_spec(5).steps == 327680);
    assert(Fixed::of_count_spec(4).steps == 262144);
    assert((327680int * 65536) / 262144 == 81920);
    assert(ratio_spec::<Fixed>(5, 4).steps == 81920);
    assert((65536int * 65536) / 3276800 == 1310);
    assert(ratio_spec::<Fixed>(1, 50).steps == 1310);
    assert(Fixed::of_count_spec(64).steps == 4194304);
    let s = scale.steps as int;
    assert(0 <= (s * 65536) / 81920 <= s);
    assert(s <= (s * 81920) / 65536);
}

} // verus!
