//! What handles and numbers do to a shape, and how the screen and the image stand to each
//! other, in whole steps of fixed-point numbers.

use vstd::prelude::*;

use crate::fixed::Fixed;
use crate::fixed_laws::{half_is_half, modest, modest_shape};
use crate::handles::{
    fields_of, handles_of, icon_of, resized, shape_of, Fields, Handle, Placement,
};
use crate::picture::{handle_places, outline_of, region_color, Outline};
use crate::raster_laws::{distance_is_by_squares, near, size_of};
use crate::roi::{distance_spec, Geometry};
use crate::scalar::Scalar;

verus! {

/// The smaller of two numbers of steps.
pub open spec fn lesser(a: int, b: int) -> int {
    if a <= b {
        a
    } else {
        b
    }
}

/// The larger of two numbers of steps.
pub open spec fn greater(a: int, b: int) -> int {
    if a <= b {
        b
    } else {
        a
    }
}

/// The two sides `low` and `high` of a box along one axis, after the handle on the side
/// `which` (-1 for the low one, 1 for the high one, else none) was dragged to `p`: the side
/// that was dragged is where the pointer is, the other where it was, and they change
/// places if one was pulled through the other.
pub open spec fn sides_are(low: int, high: int, which: int, p: int, a: int, b: int) -> bool {
    if which == -1 {
        a == lesser(p, high) && b == greater(p, high)
    } else if which == 1 {
        a == lesser(low, p) && b == greater(low, p)
    } else {
        a == low && b == high
    }
}

/// A handle of a rectangle moves the sides that it is on to the pointer, and no others.
pub proof fn a_rectangle_is_resized_by_its_sides(
    x0: Fixed,
    y0: Fixed,
    x1: Fixed,
    y1: Fixed,
    hx: i8,
    vy: i8,
    p: (Fixed, Fixed),
)
    ensures
        resized(Geometry::Rect { x0, y0, x1, y1 }, Handle::Box { hx, vy }, p) matches Geometry::Rect {
            x0: a,
            y0: b,
            x1: c,
            y1: d,
        } && {
            let left = lesser(x0.steps as int, x1.steps as int);
            let right = greater(x0.steps as int, x1.steps as int);
            let top = lesser(y0.steps as int, y1.steps as int);
            let bottom = greater(y0.steps as int, y1.steps as int);
            &&& sides_are(left, right, hx as int, p.0.steps as int, a.steps as int, c.steps as int)
            &&& sides_are(top, bottom, vy as int, p.1.steps as int, b.steps as int, d.steps as int)
        },
{
}

/// A handle of an ellipse moves the sides of its box that it is on to the pointer, and no
/// others; the ellipse fills the box, up to a step.
pub proof fn an_ellipse_is_resized_by_its_box(
    cx: Fixed,
    cy: Fixed,
    rx: Fixed,
    ry: Fixed,
    hx: i8,
    vy: i8,
    p: (Fixed, Fixed),
    left: int,
    right: int,
    top: int,
    bottom: int,
)
    requires
        modest_shape(Geometry::Ellipse { cx, cy, rx, ry }),
        modest(p.0),
        modest(p.1),
        rx.steps >= 0,
        ry.steps >= 0,
        sides_are(cx.steps - rx.steps, cx.steps + rx.steps, hx as int, p.0.steps as int, left, right),
        sides_are(cy.steps - ry.steps, cy.steps + ry.steps, vy as int, p.1.steps as int, top, bottom),
    ensures
        resized(
            Geometry::Ellipse { cx, cy, rx, ry },
            Handle::Box { hx, vy },
            p,
        ) matches Geometry::Ellipse { cx: mx, cy: my, rx: sx, ry: sy } && {
            &&& 2 * mx.steps <= left + right <= 2 * mx.steps + 1
            &&& 2 * my.steps <= top + bottom <= 2 * my.steps + 1
            &&& 2 * sx.steps <= right - left <= 2 * sx.steps + 1
            &&& 2 * sy.steps <= bottom - top <= 2 * sy.steps + 1
        },
{
    half_is_half();
}

/// A handle of a circle makes it reach to the pointer, and leaves its center where it is; but
/// its radius is at least half a pixel.
pub proof fn a_circle_is_resized_to_the_pointer(cx: Fixed, cy: Fixed, r: Fixed, p: (Fixed, Fixed))
    requires
        near(cx) && near(cy) && near(p.0) && near(p.1),
    ensures
        resized(Geometry::Circle { cx, cy, r }, Handle::Radius, p) matches Geometry::Circle {
            cx: mx,
            cy: my,
            r: s,
        } && {
            let dx = p.0.steps - cx.steps;
            let dy = p.1.steps - cy.steps;
            &&& mx == cx && my == cy
            &&& s.steps >= 32768
            &&& dx * dx + dy * dy < (s.steps + 1) * (s.steps + 1) + 131072
            &&& s.steps == 32768 || s.steps * s.steps <= dx * dx + dy * dy
        },
{
    half_is_half();
    distance_is_by_squares((cx, cy), p);
    let d = distance_spec((cx, cy), p).steps as int;
    if d < 32768 {
        assert((d + 1) * (d + 1) <= 32769 * 32769) by (nonlinear_arith)
            requires
                0 <= d < 32768,
        ;
    }
}

/// A handle that a shape does not have changes nothing.
pub proof fn a_foreign_handle_does_nothing<S: Scalar>(geom: Geometry<S>, hx: i8, vy: i8, p: (S, S))
    ensures
        geom !is Circle ==> resized(geom, Handle::Radius, p) == geom,
        geom is Circle ==> resized(geom, Handle::Box { hx, vy }, p) == geom,
{
}

/// Where a handle stands along one axis: on the low side, on the high side, or midway.
pub open spec fn stands_at(low: int, high: int, which: int, at: int) -> bool {
    if which == -1 {
        at == low
    } else if which == 1 {
        at == high
    } else {
        2 * at <= low + high <= 2 * at + 1
    }
}

/// The handles of a box stand on its corners and in the middle of its sides: eight, no two
/// for one place.
pub proof fn box_handles_stand_on_the_box(geom: Geometry<Fixed>, left: int, right: int, top: int, bottom: int)
    requires
        modest_shape(geom),
        match geom {
            Geometry::Rect { x0, y0, x1, y1 } => {
                &&& left == lesser(x0.steps as int, x1.steps as int)
                &&& right == greater(x0.steps as int, x1.steps as int)
                &&& top == lesser(y0.steps as int, y1.steps as int)
                &&& bottom == greater(y0.steps as int, y1.steps as int)
            },
            Geometry::Ellipse { cx, cy, rx, ry } => {
                &&& left == cx.steps - rx.steps
                &&& right == cx.steps + rx.steps
                &&& top == cy.steps - ry.steps
                &&& bottom == cy.steps + ry.steps
            },
            Geometry::Circle { .. } => false,
        },
    ensures
        handles_of(geom).len() == 8,
        forall|i: int|
            0 <= i < 8 ==> {
                let (handle, at) = #[trigger] handles_of(geom)[i];
                handle matches Handle::Box { hx, vy } && {
                    &&& -1 <= hx <= 1 && -1 <= vy <= 1 && !(hx == 0 && vy == 0)
                    &&& stands_at(left, right, hx as int, at.0.steps as int)
                    &&& stands_at(top, bottom, vy as int, at.1.steps as int)
                }
            },
        forall|i: int, j: int|
            0 <= i < j < 8 ==> (#[trigger] handles_of(geom)[i]).0 != (#[trigger] handles_of(
                geom,
            )[j]).0,
{
    half_is_half();
}

/// The handles of a circle stand on its rim, right, left, below and above its center.
pub proof fn circle_handles_stand_on_the_rim(cx: Fixed, cy: Fixed, r: Fixed)
    requires
        modest(cx) && modest(cy) && modest(r),
    ensures
        ({
            let handles = handles_of(Geometry::Circle { cx, cy, r });
            &&& handles.len() == 4
            &&& forall|i: int| 0 <= i < 4 ==> (#[trigger] handles[i]).0 == Handle::Radius
            &&& handles[0].1.0.steps == cx.steps + r.steps && handles[0].1.1 == cy
            &&& handles[1].1.0.steps == cx.steps - r.steps && handles[1].1.1 == cy
            &&& handles[2].1.0 == cx && handles[2].1.1.steps == cy.steps + r.steps
            &&& handles[3].1.0 == cx && handles[3].1.1.steps == cy.steps - r.steps
        }),
{
}

/// Dragging a handle of a rectangle or an ellipse to where it stands changes nothing of what
/// the shape contains.
pub proof fn a_handle_in_its_place_changes_nothing(geom: Geometry<Fixed>, i: int, px: Fixed, py: Fixed)
    requires
        modest_shape(geom),
        geom !is Circle,
        geom matches Geometry::Ellipse { rx, ry, .. } ==> rx.steps >= 0 && ry.steps >= 0,
        0 <= i < handles_of(geom).len(),
    ensures
        resized(geom, handles_of(geom)[i].0, handles_of(geom)[i].1).contains_spec(px, py)
            == geom.contains_spec(px, py),
{
    half_is_half();
}

/// The pointer takes hold of a handle if it is within ten points of it on the screen, up to
/// the rounding.
pub proof fn a_handle_is_taken_within_ten_points(
    place: Placement<Fixed>,
    p: (Fixed, Fixed),
    sp: (Fixed, Fixed),
)
    requires
        near(place.to_screen_spec(p).0) && near(place.to_screen_spec(p).1),
        near(sp.0) && near(sp.1),
    ensures
        ({
            let q = place.to_screen_spec(p);
            let dx = q.0.steps - sp.0.steps;
            let dy = q.1.steps - sp.1.steps;
            &&& dx * dx + dy * dy <= 655360 * 655360 ==> place.touches_spec(p, sp)
            &&& place.touches_spec(p, sp) ==> dx * dx + dy * dy < 655361 * 655361 + 131072
        }),
{
    let q = place.to_screen_spec(p);
    distance_is_by_squares(sp, q);
    let d = distance_spec(sp, q).steps as int;
    assert(Fixed::of_count_spec(10).steps == 655360);
    if d <= 655360 {
        assert((d + 1) * (d + 1) <= 655361 * 655361) by (nonlinear_arith)
            requires
                0 <= d <= 655360,
        ;
    } else {
        assert(d * d > 655360 * 655360) by (nonlinear_arith)
            requires
                d > 655360,
        ;
    }
}

/// Of the handles of a shape, the pointer takes the first that it touches; and none if it
/// touches none.
pub proof fn the_first_handle_touched_is_taken<S: Scalar>(
    place: Placement<S>,
    geom: Geometry<S>,
    sp: (S, S),
    k: int,
)
    requires
        0 <= k <= handles_of(geom).len(),
        forall|i: int| 0 <= i < k ==> !place.touches_spec((#[trigger] handles_of(geom)[i]).1, sp),
        k < handles_of(geom).len() ==> place.touches_spec(handles_of(geom)[k].1, sp),
    ensures
        place.handle_at_spec(geom, sp) == if k < handles_of(geom).len() {
            Some(handles_of(geom)[k].0)
        } else {
            None
        },
{
    lemma_first_touched(place, handles_of(geom), 0, k, sp);
}

/// The first handle that is touched is found.
proof fn lemma_first_touched<S: Scalar>(
    place: Placement<S>,
    handles: Seq<(Handle, (S, S))>,
    i: int,
    k: int,
    sp: (S, S),
)
    requires
        0 <= i <= k <= handles.len(),
        forall|j: int| i <= j < k ==> !place.touches_spec((#[trigger] handles[j]).1, sp),
        k < handles.len() ==> place.touches_spec(handles[k].1, sp),
    ensures
        place.first_touched(handles, i, sp) == if k < handles.len() {
            Some(handles[k].0)
        } else {
            None
        },
    decreases k - i,
{
    if i < k {
        assert(!place.touches_spec(handles[i].1, sp));
        lemma_first_touched(place, handles, i + 1, k, sp);
    }
}

/// A magnification from one fiftieth to sixty-four.
pub open spec fn fair_scale(scale: Fixed) -> bool {
    1310 <= scale.steps <= 4194304
}

/// A screen position is as many magnified pixels from the left edge and the top edge of the
/// image as the point of the image that it shows, up to a step.
pub proof fn image_points_are_scaled(place: Placement<Fixed>, p: (Fixed, Fixed))
    requires
        fair_scale(place.scale),
        near(place.left) && near(place.top) && near(p.0) && near(p.1),
    ensures
        ({
            let q = place.to_img_spec(p);
            let s = place.scale.steps as int;
            let dx = p.0.steps - place.left.steps;
            let dy = p.1.steps - place.top.steps;
            &&& size_of(q.0.steps as int) * s <= size_of(dx) * 65536 < (size_of(q.0.steps as int) + 1) * s
            &&& size_of(q.1.steps as int) * s <= size_of(dy) * 65536 < (size_of(q.1.steps as int) + 1) * s
            &&& q.0.steps > 0 ==> dx > 0
            &&& q.0.steps < 0 ==> dx < 0
            &&& q.1.steps > 0 ==> dy > 0
            &&& q.1.steps < 0 ==> dy < 0
        }),
{
    lemma_scaled_down(p.0, place.left, place.scale);
    lemma_scaled_down(p.1, place.top, place.scale);
}

/// A distance divided by the magnification.
proof fn lemma_scaled_down(p: Fixed, edge: Fixed, scale: Fixed)
    requires
        fair_scale(scale),
        near(p) && near(edge),
    ensures
        ({
            let q = p.minus_spec(edge).over_spec(scale).steps as int;
            let s = scale.steps as int;
            let d = p.steps - edge.steps;
            &&& size_of(q) * s <= size_of(d) * 65536 < (size_of(q) + 1) * s
            &&& q > 0 ==> d > 0
            &&& q < 0 ==> d < 0
            &&& size_of(q) <= 0x20_0000_0000 * 65536
        }),
{
    let s = scale.steps as int;
    let d = p.steps - edge.steps;
    let n = size_of(d) * 65536;
    let m = n / s;
    vstd::arithmetic::div_mod::lemma_fundamental_div_mod(n, s);
    vstd::arithmetic::div_mod::lemma_mod_bound(n, s);
    vstd::arithmetic::div_mod::lemma_div_pos_is_pos(n, s);
    assert(m * s == s * m && (m + 1) * s == m * s + s) by (nonlinear_arith);
    assert(m <= n) by (nonlinear_arith)
        requires
            s * m <= n,
            s >= 1,
            m >= 0,
    ;
    assert(p.minus_spec(edge).steps == d);
    assert(p.minus_spec(edge).over_spec(scale).steps == m || p.minus_spec(edge).over_spec(
        scale,
    ).steps == -m);
}

/// An image point stands on the screen as many magnified pixels from the edges of the image
/// as it is from its corner, up to a step.
pub proof fn screen_points_are_scaled(place: Placement<Fixed>, q: (Fixed, Fixed))
    requires
        fair_scale(place.scale),
        near(place.left) && near(place.top) && near(q.0) && near(q.1),
    ensures
        ({
            let p = place.to_screen_spec(q);
            let s = place.scale.steps as int;
            let dx = p.0.steps - place.left.steps;
            let dy = p.1.steps - place.top.steps;
            &&& dx * 65536 <= q.0.steps * s < dx * 65536 + 65536
            &&& dy * 65536 <= q.1.steps * s < dy * 65536 + 65536
        }),
{
    lemma_product_fits(q.0.steps as int, place.scale.steps as int);
    lemma_product_fits(q.1.steps as int, place.scale.steps as int);
    lemma_scaled_up(q.0, place.left, place.scale);
    lemma_scaled_up(q.1, place.top, place.scale);
}

/// The product of a near number and a magnification is in range.
proof fn lemma_product_fits(q: int, s: int)
    requires
        -0x10_0000_0000 <= q <= 0x10_0000_0000,
        0 < s <= 4194304,
    ensures
        size_of(q * s) < 0x4000_0000_0000_0000,
{
    assert(-0x10_0000_0000 * 4194304 <= q * s <= 0x10_0000_0000 * 4194304) by (nonlinear_arith)
        requires
            -0x10_0000_0000 <= q <= 0x10_0000_0000,
            0 < s <= 4194304,
    ;
}

/// A distance times the magnification.
proof fn lemma_scaled_up(q: Fixed, edge: Fixed, scale: Fixed)
    requires
        fair_scale(scale),
        -0x20_0000_0000 * 65536 <= q.steps <= 0x20_0000_0000 * 65536,
        near(edge),
        size_of(q.steps * scale.steps) < 0x4000_0000_0000_0000,
    ensures
        ({
            let d = edge.plus_spec(q.times_spec(scale)).steps - edge.steps;
            d * 65536 <= q.steps * scale.steps < d * 65536 + 65536
        }),
{
}

/// The image point under a screen position stands at that position, up to one magnified step
/// and one more.
pub proof fn to_the_image_and_back(place: Placement<Fixed>, p: (Fixed, Fixed))
    requires
        fair_scale(place.scale),
        near(place.left) && near(place.top) && near(p.0) && near(p.1),
    ensures
        ({
            let back = place.to_screen_spec(place.to_img_spec(p));
            let s = place.scale.steps as int;
            &&& size_of(back.0.steps - p.0.steps) * 65536 <= s + 65536
            &&& size_of(back.1.steps - p.1.steps) * 65536 <= s + 65536
        }),
{
    lemma_there_and_back(p.0, place.left, place.scale);
    lemma_there_and_back(p.1, place.top, place.scale);
}

/// Dividing and multiplying by the magnification gives the number back, up to the rounding.
proof fn lemma_there_and_back(p: Fixed, edge: Fixed, scale: Fixed)
    requires
        fair_scale(scale),
        near(p) && near(edge),
    ensures
        size_of(
            edge.plus_spec(p.minus_spec(edge).over_spec(scale).times_spec(scale)).steps - p.steps,
        ) * 65536 <= scale.steps + 65536,
{
    lemma_scaled_down(p, edge, scale);
    let v = p.minus_spec(edge).over_spec(scale);
    let q = v.steps as int;
    let s = scale.steps as int;
    let d = p.steps - edge.steps;
    assert((size_of(q) + 1) * s == size_of(q) * s + s) by (nonlinear_arith);
    assert(size_of(q * s) == size_of(q) * s) by (nonlinear_arith)
        requires
            s > 0,
    ;
    assert(q * s == if q < 0 {
        -(size_of(q) * s)
    } else {
        size_of(q) * s
    }) by (nonlinear_arith);
    lemma_scaled_up(v, edge, scale);
    let t = edge.plus_spec(v.times_spec(scale)).steps - edge.steps;
    let qs = q * s;
    assert(t * 65536 <= qs < t * 65536 + 65536);
    if q < 0 {
        assert(d < 0);
        assert(qs - s < d * 65536 <= qs);
    } else if q > 0 {
        assert(d > 0);
        assert(qs <= d * 65536 < qs + s);
    } else {
        assert(0 * s == 0 && size_of(q) * s == 0) by (nonlinear_arith)
            requires
                q == 0,
        ;
        assert(-s < d * 65536 < s);
    }
    assert(-s - 65536 <= (t - d) * 65536 <= s + 65536);
    assert(edge.plus_spec(v.times_spec(scale)).steps - p.steps == t - d);
}

/// The numbers of a shape make the shape, and the shape has these numbers, where sizes are
/// not negative. A rectangle reaches from its place by its width and height.
pub proof fn numbers_make_the_shape(x: Fixed, y: Fixed, width: Fixed, height: Fixed)
    requires
        modest(x) && modest(y) && modest(width) && modest(height),
    ensures
        shape_of(Fields::Rect { x, y, width, height }) matches Geometry::Rect { x0, y0, x1, y1 } && {
            &&& x0 == x && y0 == y
            &&& x1.steps == x.steps + greater(width.steps as int, 0)
            &&& y1.steps == y.steps + greater(height.steps as int, 0)
        },
        shape_of(Fields::Ellipse { cx: x, cy: y, rx: width, ry: height }) matches Geometry::Ellipse {
            cx,
            cy,
            rx,
            ry,
        } && {
            &&& cx == x && cy == y
            &&& rx.steps == greater(width.steps as int, 0)
            &&& ry.steps == greater(height.steps as int, 0)
        },
        shape_of(Fields::Circle { cx: x, cy: y, r: width }) matches Geometry::Circle { cx, cy, r }
            && cx == x && cy == y && r.steps == greater(width.steps as int, 0),
        width.steps >= 0 && height.steps >= 0 ==> {
            let f = Fields::Rect { x, y, width, height };
            let g = Fields::Ellipse { cx: x, cy: y, rx: width, ry: height };
            let h = Fields::Circle { cx: x, cy: y, r: width };
            &&& fields_of(shape_of(f)) == f
            &&& fields_of(shape_of(g)) == g
            &&& fields_of(shape_of(h)) == h
        },
{
}

/// The panel shows for a rectangle its upper left corner and its size.
pub proof fn the_panel_shows_corner_and_size(x0: Fixed, y0: Fixed, x1: Fixed, y1: Fixed)
    requires
        modest(x0) && modest(y0) && modest(x1) && modest(y1),
    ensures
        fields_of(Geometry::Rect { x0, y0, x1, y1 }) matches Fields::Rect { x, y, width, height } && {
            &&& x.steps == lesser(x0.steps as int, x1.steps as int)
            &&& y.steps == lesser(y0.steps as int, y1.steps as int)
            &&& width.steps == size_of(x1.steps - x0.steps)
            &&& height.steps == size_of(y1.steps - y0.steps)
        },
{
}

/// The pointer shows along which way a handle moves: a side along one axis, a corner along
/// the diagonal that it is on, and opposite handles alike.
pub proof fn the_pointer_shows_the_way(hx: i8, vy: i8)
    requires
        -1 <= hx <= 1,
        -1 <= vy <= 1,
        !(hx == 0 && vy == 0),
    ensures
        icon_of(Handle::Box { hx, vy }) == icon_of(Handle::Box { hx: (-hx) as i8, vy: (-vy) as i8 }),
        icon_of(Handle::Box { hx, vy }) is ResizeVertical <==> hx == 0,
        icon_of(Handle::Box { hx, vy }) is ResizeHorizontal <==> vy == 0,
        icon_of(Handle::Box { hx, vy }) is ResizeNwSe <==> hx * vy == 1,
        icon_of(Handle::Box { hx, vy }) is ResizeNeSw <==> hx * vy == -1,
{
    assert(hx == -1 || hx == 0 || hx == 1);
    assert(vy == -1 || vy == 0 || vy == 1);
}

/// The outline of a region stands where the region does: the corners of a rectangle and the
/// center of a circle where they are on the screen, and the radius of a circle magnified as
/// the image is, up to a step.
pub proof fn the_outline_is_on_the_region(geom: Geometry<Fixed>, place: Placement<Fixed>)
    requires
        fair_scale(place.scale),
        geom matches Geometry::Circle { r, .. } ==> near(r),
    ensures
        match geom {
            Geometry::Rect { x0, y0, x1, y1 } => outline_of(geom, place) == (Outline::Rect {
                a: place.to_screen_spec((x0, y0)),
                b: place.to_screen_spec((x1, y1)),
            }),
            Geometry::Circle { cx, cy, r } => outline_of(geom, place) matches Outline::Circle {
                center,
                radius,
            } && center == place.to_screen_spec((cx, cy)) && radius.steps * 65536 <= r.steps
                * place.scale.steps < radius.steps * 65536 + 65536,
            Geometry::Ellipse { cx, cy, rx, ry } => outline_of(geom, place) == (Outline::Ellipse {
                center: (cx, cy),
                rx,
                ry,
            }),
        },
{
    if let Geometry::Circle { r, .. } = geom {
        lemma_product_fits(r.steps as int, place.scale.steps as int);
    }
}

/// The handles of a region are drawn where they stand.
pub proof fn handles_are_drawn_where_they_stand<S: Scalar>(
    geom: Geometry<S>,
    place: Placement<S>,
    i: int,
)
    requires
        0 <= i < handles_of(geom).len(),
    ensures
        handle_places(geom, place).len() == handles_of(geom).len(),
        handle_places(geom, place)[i] == place.to_screen_spec(handles_of(geom)[i].1),
{
}

/// A region that adds is drawn mostly in green, and one that carves mostly in red.
pub proof fn colors_tell_the_sign()
    ensures
        region_color(true).1 > region_color(true).0 && region_color(true).1 > region_color(true).2,
        region_color(false).0 > region_color(false).1 && region_color(false).0 > region_color(
            false,
        ).2,
{
}

} // verus!
