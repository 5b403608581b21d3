//! What regions contain and which pixels they select, in whole steps of fixed-point
//! numbers.

use vstd::prelude::*;

use crate::editor::Roi;
use crate::fixed::{integer_root, is_root, Fixed};
use crate::fixed_laws::{
    a_shape_covers_what_it_contains, fair_radii, modest, modest_shape, modest_side,
    pixel_center_is_halfway,
};
use crate::mask::Mask;
use crate::roi::{distance_spec, pixel_center_spec, pixel_index_spec, Geometry, Tool};
use crate::scalar::Scalar;
use crate::selection::{composite_rows, selected_at, starts_selected};

verus! {

/// The size of a number.
pub open spec fn size_of(v: int) -> int {
    if v < 0 {
        -v
    } else {
        v
    }
}

/// A rectangle contains the points between its sides and on them.
pub proof fn a_rectangle_is_a_box(
    x0: Fixed,
    y0: Fixed,
    x1: Fixed,
    y1: Fixed,
    px: Fixed,
    py: Fixed,
)
    ensures
        (Geometry::Rect { x0, y0, x1, y1 }).contains_spec(px, py) <==> {
            &&& x0.steps <= px.steps <= x1.steps || x1.steps <= px.steps <= x0.steps
            &&& y0.steps <= py.steps <= y1.steps || y1.steps <= py.steps <= y0.steps
        },
{
}

/// A circle contains the points that are not farther from its center than its
/// radius: by the sum of squares of the distances, up to the rounding of each square
/// to a step, and exactly where the distances and the radius are multiples of 1/256.
/// Without a positive radius it contains nothing.
pub proof fn a_circle_is_a_disc(cx: Fixed, cy: Fixed, r: Fixed, px: Fixed, py: Fixed)
    requires
        modest(cx),
        modest(cy),
        modest(px),
        modest(py),
        fair_radii(Geometry::Circle { cx, cy, r }),
    ensures
        ({
            let inside = (Geometry::Circle { cx, cy, r }).contains_spec(px, py);
            let dx = px.steps - cx.steps;
            let dy = py.steps - cy.steps;
            let s = r.steps as int;
            &&& s <= 0 ==> !inside
            &&& s > 0 && dx * dx + dy * dy <= s * s ==> inside
            &&& inside ==> dx * dx + dy * dy < s * s + 131072
            &&& s > 0 && dx % 256 == 0 && dy % 256 == 0 && s % 256 == 0 ==> (inside <==> dx * dx + dy
                * dy <= s * s)
        }),
{
    let dx = px.steps - cx.steps;
    let dy = py.steps - cy.steps;
    let s = r.steps as int;
    assert(dx * dx >= 0 && dy * dy >= 0 && s * s >= 0) by (nonlinear_arith);
    assert(px.minus_spec(cx).steps == dx && py.minus_spec(cy).steps == dy);
    if dx % 256 == 0 && dy % 256 == 0 && s % 256 == 0 {
        lemma_square_is_whole(dx);
        lemma_square_is_whole(dy);
        lemma_square_is_whole(s);
    }
}

/// The square of a multiple of 256 is a multiple of 65536.
proof fn lemma_square_is_whole(v: int)
    requires
        v % 256 == 0,
    ensures
        (v * v) % 65536 == 0,
{
    let k = v / 256;
    assert(v * v == 65536 * (k * k)) by (nonlinear_arith)
        requires
            v == 256 * k,
    ;
}

/// How far a coordinate is from the center of an ellipse, in 65536ths of a step, less
/// the rounding of one step in the quotient by the radius.
pub open spec fn reduced(d: int, r: int) -> int {
    if size_of(d) * 65536 <= r {
        0
    } else {
        size_of(d) * 65536 - r
    }
}

/// An ellipse contains the points whose distances from its center along the two axes,
/// each divided by its radius, have squares that add up to at most one: exactly those
/// inside, and beyond them only what the rounding of quotients and squares to a step
/// lets in. Without two positive radii it contains nothing.
pub proof fn an_ellipse_is_a_stretched_disc(
    cx: Fixed,
    cy: Fixed,
    rx: Fixed,
    ry: Fixed,
    px: Fixed,
    py: Fixed,
)
    requires
        modest(cx),
        modest(cy),
        modest(px),
        modest(py),
    ensures
        ({
            let inside = (Geometry::Ellipse { cx, cy, rx, ry }).contains_spec(px, py);
            let dx = px.steps - cx.steps;
            let dy = py.steps - cy.steps;
            let a = rx.steps as int;
            let b = ry.steps as int;
            let u = reduced(dx, a);
            let v = reduced(dy, b);
            &&& a <= 0 || b <= 0 ==> !inside
            &&& a > 0 && b > 0 && (dx * dx) * (b * b) + (dy * dy) * (a * a) <= (a * a) * (b * b)
                ==> inside
            &&& inside ==> (u * u) * (b * b) + (v * v) * (a * a) <= 4295098368 * ((a * a) * (b
                * b))
        }),
{
    let dx = px.steps - cx.steps;
    let dy = py.steps - cy.steps;
    let a = rx.steps as int;
    let b = ry.steps as int;
    let ddx = px.minus_spec(cx);
    let ddy = py.minus_spec(cy);
    assert(ddx.steps == dx && ddy.steps == dy);
    let inside = (Geometry::Ellipse { cx, cy, rx, ry }).contains_spec(px, py);
    if a > 0 && b > 0 {
        let p = (size_of(dx) * 65536) / a;
        let q = (size_of(dy) * 65536) / b;
        lemma_quotient(size_of(dx), a);
        lemma_quotient(size_of(dy), b);
        assert(dx * dx == size_of(dx) * size_of(dx)) by (nonlinear_arith);
        assert(dy * dy == size_of(dy) * size_of(dy)) by (nonlinear_arith);
        if (dx * dx) * (b * b) + (dy * dy) * (a * a) <= (a * a) * (b * b) {
            lemma_quotients_within(size_of(dx), size_of(dy), a, b, p, q);
            lemma_square_of_quotient(ddx, rx, p);
            lemma_square_of_quotient(ddy, ry, q);
            assert(p * p >= 0 && q * q >= 0) by (nonlinear_arith);
            assert((p * p) / 65536 + (q * q) / 65536 <= 65536);
            assert(inside);
        }
        if inside {
            lemma_quotient_is_small(ddx, ddy, rx, ry, p);
            lemma_quotient_is_small(ddy, ddx, ry, rx, q);
            lemma_square_of_quotient(ddx, rx, p);
            lemma_square_of_quotient(ddy, ry, q);
            assert(p * p >= 0 && q * q >= 0) by (nonlinear_arith);
            assert(p * p + q * q <= 65536 * 65536 + 131072);
            lemma_reduced_within(size_of(dx), size_of(dy), a, b, p, q, reduced(dx, a), reduced(dy, b));
        }
    }
}

/// A quotient rounded down.
proof fn lemma_quotient(x: int, a: int)
    requires
        x >= 0,
        a > 0,
    ensures
        ({
            let p = (x * 65536) / a;
            p >= 0 && p * a <= x * 65536 < (p + 1) * a
        }),
{
    let p = (x * 65536) / a;
    vstd::arithmetic::div_mod::lemma_fundamental_div_mod(x * 65536, a);
    vstd::arithmetic::div_mod::lemma_mod_bound(x * 65536, a);
    vstd::arithmetic::div_mod::lemma_div_pos_is_pos(x * 65536, a);
    assert(p * a == a * p && (p + 1) * a == p * a + a) by (nonlinear_arith);
}

/// The square of a quotient that is in range.
proof fn lemma_square_of_quotient(d: Fixed, r: Fixed, p: int)
    requires
        r.steps > 0,
        modest_twice(d),
        p == (size_of(d.steps as int) * 65536) / (r.steps as int),
        0 <= p <= 65536,
    ensures
        d.over_spec(r).times_spec(d.over_spec(r)).steps == (p * p) / 65536,
{
    let q = d.over_spec(r).steps as int;
    assert(q == p || q == -p);
    assert((-p) * (-p) == p * p) by (nonlinear_arith);
    assert(0 <= p * p <= 65536 * 65536) by (nonlinear_arith)
        requires
            0 <= p <= 65536,
    ;
}

/// The number is a difference of modest ones.
spec fn modest_twice(v: Fixed) -> bool {
    -0x2000_0000_0000_0000 <= v.steps <= 0x2000_0000_0000_0000
}

/// If the squares of two quotients add up to at most one, both are at most one.
proof fn lemma_quotient_is_small(d: Fixed, e: Fixed, r: Fixed, s: Fixed, p: int)
    requires
        r.steps > 0,
        s.steps > 0,
        modest_twice(d),
        p == (size_of(d.steps as int) * 65536) / (r.steps as int),
        p >= 0,
        ({
            let m = d.over_spec(r);
            let n = e.over_spec(s);
            ||| m.times_spec(m).plus_spec(n.times_spec(n)).steps <= 65536
            ||| n.times_spec(n).plus_spec(m.times_spec(m)).steps <= 65536
        }),
    ensures
        p <= 65536,
{
    let m = d.over_spec(r).steps as int;
    let n = e.over_spec(s).steps as int;
    assert(m * m >= 0 && n * n >= 0) by (nonlinear_arith);
    assert((m * m) / 65536 <= 65536);
    if m > 65536 || m < -65536 {
        assert(m * m >= 65537 * 65537) by (nonlinear_arith)
            requires
                m >= 65537 || m <= -65537,
        ;
    }
}

/// The quotients of distances within an ellipse have squares that add up to at most one.
proof fn lemma_quotients_within(x: int, y: int, a: int, b: int, p: int, q: int)
    requires
        x >= 0,
        y >= 0,
        a > 0,
        b > 0,
        p >= 0,
        q >= 0,
        p * a <= x * 65536,
        q * b <= y * 65536,
        (x * x) * (b * b) + (y * y) * (a * a) <= (a * a) * (b * b),
    ensures
        p * p + q * q <= 65536 * 65536,
        p <= 65536,
        q <= 65536,
{
    let k = 65536 * 65536;
    let aa = a * a;
    let bb = b * b;
    assert(aa > 0 && bb > 0) by (nonlinear_arith)
        requires
            aa == a * a,
            bb == b * b,
            a > 0,
            b > 0,
    ;
    lemma_squares(p, a, x);
    lemma_squares(q, b, y);
    let pp = p * p;
    let qq = q * q;
    let xx = x * x;
    let yy = y * y;
    assert((pp * aa) * bb <= (k * xx) * bb) by (nonlinear_arith)
        requires
            pp * aa <= k * xx,
            bb > 0,
    ;
    assert((qq * bb) * aa <= (k * yy) * aa) by (nonlinear_arith)
        requires
            qq * bb <= k * yy,
            aa > 0,
    ;
    let m = aa * bb;
    assert(m > 0) by (nonlinear_arith)
        requires
            m == aa * bb,
            aa > 0,
            bb > 0,
    ;
    assert((pp + qq) * m == (pp * aa) * bb + (qq * bb) * aa) by (nonlinear_arith)
        requires
            m == aa * bb,
    ;
    assert((k * xx) * bb + (k * yy) * aa == k * (xx * bb + yy * aa)) by (nonlinear_arith);
    assert(k * (xx * bb + yy * aa) <= k * m) by (nonlinear_arith)
        requires
            xx * bb + yy * aa <= m,
            k == 65536 * 65536,
    ;
    assert(pp + qq <= k) by (nonlinear_arith)
        requires
            (pp + qq) * m <= k * m,
            m > 0,
    ;
    assert(p <= 65536 && q <= 65536) by (nonlinear_arith)
        requires
            p * p + q * q <= 65536 * 65536,
            p >= 0,
            q >= 0,
    ;
}

/// A bound on a product, squared.
proof fn lemma_squares(p: int, a: int, x: int)
    requires
        p >= 0,
        a > 0,
        x >= 0,
        p * a <= x * 65536,
    ensures
        (p * p) * (a * a) <= (65536 * 65536) * (x * x),
{
    let m = p * a;
    let n = x * 65536;
    assert(m >= 0) by (nonlinear_arith)
        requires
            m == p * a,
            p >= 0,
            a > 0,
    ;
    assert(m * m <= n * n) by (nonlinear_arith)
        requires
            0 <= m <= n,
    ;
    assert(m * m == (p * p) * (a * a)) by (nonlinear_arith)
        requires
            m == p * a,
    ;
    assert(n * n == (65536 * 65536) * (x * x)) by (nonlinear_arith)
        requires
            n == x * 65536,
    ;
}

/// Distances that are let into an ellipse exceed it by no more than the rounding.
proof fn lemma_reduced_within(x: int, y: int, a: int, b: int, p: int, q: int, u: int, v: int)
    requires
        x >= 0,
        y >= 0,
        a > 0,
        b > 0,
        p >= 0,
        q >= 0,
        x * 65536 < (p + 1) * a,
        y * 65536 < (q + 1) * b,
        p * p + q * q <= 65536 * 65536 + 131072,
        u == if x * 65536 <= a {
            0
        } else {
            x * 65536 - a
        },
        v == if y * 65536 <= b {
            0
        } else {
            y * 65536 - b
        },
    ensures
        (u * u) * (b * b) + (v * v) * (a * a) <= 4295098368 * ((a * a) * (b * b)),
{
    assert((p + 1) * a == p * a + a && (q + 1) * b == q * b + b) by (nonlinear_arith);
    assert(p * a >= 0 && q * b >= 0) by (nonlinear_arith)
        requires
            p >= 0,
            q >= 0,
            a > 0,
            b > 0,
    ;
    lemma_square_below(u, p, a);
    lemma_square_below(v, q, b);
    let uu = u * u;
    let vv = v * v;
    let pp = p * p;
    let qq = q * q;
    let aa = a * a;
    let bb = b * b;
    let m = aa * bb;
    assert(aa > 0 && bb > 0) by (nonlinear_arith)
        requires
            aa == a * a,
            bb == b * b,
            a > 0,
            b > 0,
    ;
    assert(uu * bb <= (pp * aa) * bb) by (nonlinear_arith)
        requires
            uu <= pp * aa,
            bb > 0,
    ;
    assert(vv * aa <= (qq * bb) * aa) by (nonlinear_arith)
        requires
            vv <= qq * bb,
            aa > 0,
    ;
    assert((pp + qq) * m == (pp * aa) * bb + (qq * bb) * aa) by (nonlinear_arith)
        requires
            m == aa * bb,
    ;
    assert((pp + qq) * m <= 4295098368 * m) by (nonlinear_arith)
        requires
            pp + qq <= 4295098368,
            m == aa * bb,
            aa > 0,
            bb > 0,
    ;
}

/// The square of a number that is at most a product.
proof fn lemma_square_below(u: int, p: int, a: int)
    requires
        0 <= u <= p * a,
    ensures
        u * u <= (p * p) * (a * a),
{
    let m = p * a;
    assert(u * u <= m * m) by (nonlinear_arith)
        requires
            0 <= u <= m,
    ;
    assert(m * m == (p * p) * (a * a)) by (nonlinear_arith)
        requires
            m == p * a,
    ;
}

/// A circle covers exactly the pixels whose centers are within its radius, for a
/// center and a radius that are multiples of 1/256.
#[verifier::spinoff_prover]
pub proof fn a_circle_covers_its_pixels(
    cx: Fixed,
    cy: Fixed,
    r: Fixed,
    height: usize,
    width: usize,
    y: usize,
    x: usize,
)
    requires
        modest_shape(Geometry::Circle { cx, cy, r }),
        fair_radii(Geometry::Circle { cx, cy, r }),
        modest_side(height as int),
        modest_side(width as int),
        y < height,
        x < width,
        cx.steps as int % 256 == 0,
        cy.steps as int % 256 == 0,
        r.steps as int % 256 == 0,
    ensures
        (Geometry::Circle { cx, cy, r }).covers(
            height as int,
            width as int,
            y as int,
            x as int,
        ) <==> {
            let dx = x * 65536 + 32768 - cx.steps;
            let dy = y * 65536 + 32768 - cy.steps;
            r.steps > 0 && dx * dx + dy * dy <= r.steps * r.steps
        },
{
    let g = Geometry::Circle { cx, cy, r };
    let px = pixel_center_spec::<Fixed>(x);
    let py = pixel_center_spec::<Fixed>(y);
    let dx = x * 65536 + 32768 - cx.steps;
    let dy = y * 65536 + 32768 - cy.steps;
    assert(px.steps - cx.steps == dx && py.steps - cy.steps == dy && modest(px) && modest(py)) by {
        pixel_center_is_halfway(x);
        pixel_center_is_halfway(y);
    }
    assert(g.covers(height as int, width as int, y as int, x as int) <==> g.contains_spec(px, py))
        by {
        a_shape_covers_what_it_contains(g, height, width, y, x);
    }
    assert(dx % 256 == 0 && dy % 256 == 0);
    assert(g.contains_spec(px, py) <==> r.steps > 0 && dx * dx + dy * dy <= r.steps * r.steps) by {
        a_circle_is_a_disc(cx, cy, r, px, py);
    }
}

/// An ellipse covers every pixel whose center is inside it, and none whose center is
/// outside by more than the rounding.
#[verifier::spinoff_prover]
pub proof fn an_ellipse_covers_its_pixels(
    cx: Fixed,
    cy: Fixed,
    rx: Fixed,
    ry: Fixed,
    height: usize,
    width: usize,
    y: usize,
    x: usize,
)
    requires
        modest_shape(Geometry::Ellipse { cx, cy, rx, ry }),
        fair_radii(Geometry::Ellipse { cx, cy, rx, ry }),
        modest_side(height as int),
        modest_side(width as int),
        y < height,
        x < width,
    ensures
        ({
            let covered = (Geometry::Ellipse { cx, cy, rx, ry }).covers(
                height as int,
                width as int,
                y as int,
                x as int,
            );
            let dx = x * 65536 + 32768 - cx.steps;
            let dy = y * 65536 + 32768 - cy.steps;
            let a = rx.steps as int;
            let b = ry.steps as int;
            let u = reduced(dx, a);
            let v = reduced(dy, b);
            &&& covered ==> a > 0 && b > 0
            &&& a > 0 && b > 0 && (dx * dx) * (b * b) + (dy * dy) * (a * a) <= (a * a) * (b * b)
                ==> covered
            &&& covered ==> (u * u) * (b * b) + (v * v) * (a * a) <= 4295098368 * ((a * a) * (b
                * b))
        }),
{
    let g = Geometry::Ellipse { cx, cy, rx, ry };
    let px = pixel_center_spec::<Fixed>(x);
    let py = pixel_center_spec::<Fixed>(y);
    let dx = x * 65536 + 32768 - cx.steps;
    let dy = y * 65536 + 32768 - cy.steps;
    assert(px.steps - cx.steps == dx && py.steps - cy.steps == dy && modest(px) && modest(py)) by {
        pixel_center_is_halfway(x);
        pixel_center_is_halfway(y);
    }
    assert(g.covers(height as int, width as int, y as int, x as int) <==> g.contains_spec(px, py))
        by {
        a_shape_covers_what_it_contains(g, height, width, y, x);
    }
    an_ellipse_is_a_stretched_disc(cx, cy, rx, ry, px, py);
}

/// Stamping a shape sets the pixels whose centers are inside it to the value, keeps
/// all others, and keeps the size of the mask.
pub proof fn a_stamp_sets_the_pixels_inside(
    geom: Geometry<Fixed>,
    before: Mask,
    after: Mask,
    value: bool,
    y: usize,
    x: usize,
)
    requires
        geom.stamped(before, after, value),
        modest_shape(geom),
        fair_radii(geom),
        modest_side(before.height() as int),
        modest_side(before.width() as int),
        y < before.height(),
        x < before.width(),
    ensures
        after.rows().len() == before.rows().len(),
        after.width() == before.width(),
        geom.contains_spec(
            Fixed { steps: (x * 65536 + 32768) as i64 },
            Fixed { steps: (y * 65536 + 32768) as i64 },
        ) ==> after.rows()[y as int][x as int] == value,
        !geom.contains_spec(
            Fixed { steps: (x * 65536 + 32768) as i64 },
            Fixed { steps: (y * 65536 + 32768) as i64 },
        ) ==> after.rows()[y as int][x as int] == before.rows()[y as int][x as int],
{
    pixel_center_is_halfway(x);
    pixel_center_is_halfway(y);
    let height = before.height() as usize;
    let width = before.width() as usize;
    a_shape_covers_what_it_contains(geom, height, width, y, x);
    assert(after.at(y as int, x as int) == after.rows()[y as int][x as int]);
}

/// Of the regions that cover a pixel, the last decides whether it is selected, by
/// adding or carving. Where no region covers it, it is selected if the starting mask
/// has the size of the image and selects it.
pub proof fn the_last_cover_decides<S: Scalar>(
    rois: Seq<Roi<S>>,
    initial: Option<Mask>,
    height: int,
    width: int,
    y: int,
    x: int,
    k: int,
)
    requires
        0 <= y < height,
        0 <= x < width,
        -1 <= k < rois.len(),
        k >= 0 ==> rois[k].geom.covers(height, width, y, x),
        forall|j: int| k < j < rois.len() ==> !(#[trigger] rois[j]).geom.covers(height, width, y, x),
    ensures
        composite_rows(rois, initial, height, width).len() == height,
        composite_rows(rois, initial, height, width)[y].len() == width,
        k >= 0 ==> composite_rows(rois, initial, height, width)[y][x] == rois[k].additive,
        k < 0 ==> composite_rows(rois, initial, height, width)[y][x] == (initial matches Some(m)
            && m.rows().len() == height && m.width() == width && m.rows()[y][x]),
{
    let start = starts_selected(initial, height, width, y, x);
    lemma_last_cover(rois, height, width, y, x, start, k);
}

/// The last region that covers a pixel decides.
proof fn lemma_last_cover<S: Scalar>(
    rois: Seq<Roi<S>>,
    height: int,
    width: int,
    y: int,
    x: int,
    start: bool,
    k: int,
)
    requires
        -1 <= k < rois.len(),
        k >= 0 ==> rois[k].geom.covers(height, width, y, x),
        forall|j: int| k < j < rois.len() ==> !(#[trigger] rois[j]).geom.covers(height, width, y, x),
    ensures
        selected_at(rois, height, width, y, x, start) == if k >= 0 {
            rois[k].additive
        } else {
            start
        },
    decreases rois.len(),
{
    if rois.len() > 0 && k < rois.len() - 1 {
        let n = rois.len() - 1;
        let front = rois.drop_last();
        assert(!rois[n].geom.covers(height, width, y, x));
        assert forall|j: int| k < j < front.len() implies !(#[trigger] front[j]).geom.covers(
            height,
            width,
            y,
            x,
        ) by {
            assert(!rois[j].geom.covers(height, width, y, x));
        }
        lemma_last_cover(front, height, width, y, x, start, k);
    }
}

/// Every number that is not negative has an integer square root.
proof fn lemma_root_exists(n: int) -> (r: int)
    requires
        n >= 0,
    ensures
        is_root(r, n),
    decreases n,
{
    if n == 0 {
        assert(is_root(0, 0));
        0
    } else {
        let r = lemma_root_exists(n - 1);
        if (r + 1) * (r + 1) <= n {
            assert(n < (r + 2) * (r + 2)) by (nonlinear_arith)
                requires
                    n - 1 < (r + 1) * (r + 1),
                    r >= 0,
            ;
            assert(is_root(r + 1, n));
            r + 1
        } else {
            r
        }
    }
}

/// The numbers are small enough for their squares to stay in range.
pub open spec fn near(v: Fixed) -> bool {
    -0x10_0000_0000 <= v.steps <= 0x10_0000_0000
}

/// The distance between two points is the root of the sum of the squares of their
/// distances along the axes, up to the rounding of each square and of the root to a
/// step.
pub proof fn distance_is_by_squares(a: (Fixed, Fixed), b: (Fixed, Fixed))
    requires
        near(a.0),
        near(a.1),
        near(b.0),
        near(b.1),
    ensures
        ({
            let d = distance_spec(a, b).steps as int;
            let dx = b.0.steps - a.0.steps;
            let dy = b.1.steps - a.1.steps;
            &&& d >= 0
            &&& d * d <= dx * dx + dy * dy
            &&& dx * dx + dy * dy < (d + 1) * (d + 1) + 131072
            &&& dx % 256 == 0 && dy % 256 == 0 ==> dx * dx + dy * dy < (d + 1) * (d + 1)
        }),
{
    let dx = b.0.steps - a.0.steps;
    let dy = b.1.steps - a.1.steps;
    assert(0 <= dx * dx <= 0x20_0000_0000 * 0x20_0000_0000) by (nonlinear_arith)
        requires
            -0x20_0000_0000 <= dx <= 0x20_0000_0000,
    ;
    assert(0 <= dy * dy <= 0x20_0000_0000 * 0x20_0000_0000) by (nonlinear_arith)
        requires
            -0x20_0000_0000 <= dy <= 0x20_0000_0000,
    ;
    let sum = (dx * dx) / 65536 + (dy * dy) / 65536;
    assert(b.0.minus_spec(a.0).squared_spec().steps == (dx * dx) / 65536);
    assert(b.1.minus_spec(a.1).squared_spec().steps == (dy * dy) / 65536);
    let n = sum * 65536;
    let root = lemma_root_exists(n);
    assert(is_root(integer_root(n), n));
    let d = integer_root(n);
    assert(n <= 0x40_0000_0000 * 0x40_0000_0000);
    assert(d <= 0x40_0000_0000) by (nonlinear_arith)
        requires
            d * d <= n,
            n <= 0x40_0000_0000 * 0x40_0000_0000,
            d >= 0,
    ;
    if dx % 256 == 0 && dy % 256 == 0 {
        lemma_square_is_whole(dx);
        lemma_square_is_whole(dy);
    }
    if sum == 0 {
        assert(d == 0) by (nonlinear_arith)
            requires
                d * d <= 0,
                d >= 0,
        ;
        assert(distance_spec(a, b).steps == 0);
    } else {
        assert(distance_spec(a, b).steps == d);
    }
}

/// A rectangle is drawn from corner to corner.
pub proof fn a_drawn_rectangle_has_its_corners(a: (Fixed, Fixed), b: (Fixed, Fixed))
    ensures
        Geometry::from_drag_spec(Tool::Rectangle, a, b) == (Geometry::Rect {
            x0: a.0,
            y0: a.1,
            x1: b.0,
            y1: b.1,
        }),
{
}

/// An ellipse is drawn into the box between two corners: twice its center is the sum
/// of the corners, and twice its radii are the sides of the box, up to a step.
pub proof fn a_drawn_ellipse_fills_its_box(a: (Fixed, Fixed), b: (Fixed, Fixed))
    requires
        modest(a.0),
        modest(a.1),
        modest(b.0),
        modest(b.1),
    ensures
        Geometry::from_drag_spec(Tool::Ellipse, a, b) matches Geometry::Ellipse { cx, cy, rx, ry }
            && {
            &&& 2 * cx.steps <= a.0.steps + b.0.steps <= 2 * cx.steps + 1
            &&& 2 * cy.steps <= a.1.steps + b.1.steps <= 2 * cy.steps + 1
            &&& 2 * rx.steps <= size_of(b.0.steps - a.0.steps) <= 2 * rx.steps + 1
            &&& 2 * ry.steps <= size_of(b.1.steps - a.1.steps) <= 2 * ry.steps + 1
        },
{
    crate::fixed_laws::half_is_half();
}

/// A circle is drawn around the point where the drag began, through the point where it
/// is: its radius is their distance, up to the rounding.
pub proof fn a_drawn_circle_is_centered(a: (Fixed, Fixed), b: (Fixed, Fixed))
    requires
        near(a.0),
        near(a.1),
        near(b.0),
        near(b.1),
    ensures
        Geometry::from_drag_spec(Tool::Circle, a, b) matches Geometry::Circle { cx, cy, r } && {
            let dx = b.0.steps - a.0.steps;
            let dy = b.1.steps - a.1.steps;
            &&& cx == a.0 && cy == a.1
            &&& r.steps >= 0
            &&& r.steps * r.steps <= dx * dx + dy * dy
            &&& dx * dx + dy * dy < (r.steps + 1) * (r.steps + 1) + 131072
        },
{
    distance_is_by_squares(a, b);
}

/// The number moved by a number of steps.
pub open spec fn moved(v: Fixed, d: int) -> Fixed {
    Fixed { steps: (v.steps + d) as i64 }
}

/// The shape with all its coordinates moved by a number of steps, and its radii as
/// they were.
pub open spec fn shape_moved(geom: Geometry<Fixed>, dx: int, dy: int) -> Geometry<Fixed> {
    match geom {
        Geometry::Rect { x0, y0, x1, y1 } => Geometry::Rect {
            x0: moved(x0, dx),
            y0: moved(y0, dy),
            x1: moved(x1, dx),
            y1: moved(y1, dy),
        },
        Geometry::Ellipse { cx, cy, rx, ry } => Geometry::Ellipse {
            cx: moved(cx, dx),
            cy: moved(cy, dy),
            rx,
            ry,
        },
        Geometry::Circle { cx, cy, r } => Geometry::Circle {
            cx: moved(cx, dx),
            cy: moved(cy, dy),
            r,
        },
    }
}

/// Moving a shape moves each of its coordinates by the distance, and keeps its radii.
pub proof fn moving_adds_to_coordinates(geom: Geometry<Fixed>, dx: Fixed, dy: Fixed)
    requires
        modest_shape(geom),
        modest(dx),
        modest(dy),
    ensures
        geom.translated(dx, dy) == shape_moved(geom, dx.steps as int, dy.steps as int),
{
}

/// The center of a rectangle is midway between its sides, up to a step, and that of a
/// round shape is where it is given.
pub proof fn the_center_is_midway(geom: Geometry<Fixed>)
    requires
        modest_shape(geom),
    ensures
        ({
            let c = geom.center_spec();
            match geom {
                Geometry::Rect { x0, y0, x1, y1 } => {
                    &&& 2 * c.0.steps <= x0.steps + x1.steps <= 2 * c.0.steps + 1
                    &&& 2 * c.1.steps <= y0.steps + y1.steps <= 2 * c.1.steps + 1
                },
                Geometry::Ellipse { cx, cy, .. } => c == (cx, cy),
                Geometry::Circle { cx, cy, .. } => c == (cx, cy),
            }
        }),
{
    crate::fixed_laws::half_is_half();
}

/// The left, top, right and bottom of a shape, in steps.
pub open spec fn sides_of(geom: Geometry<Fixed>) -> (int, int, int, int) {
    match geom {
        Geometry::Rect { x0, y0, x1, y1 } => (
            if x0.steps <= x1.steps {
                x0.steps as int
            } else {
                x1.steps as int
            },
            if y0.steps <= y1.steps {
                y0.steps as int
            } else {
                y1.steps as int
            },
            if x0.steps <= x1.steps {
                x1.steps as int
            } else {
                x0.steps as int
            },
            if y0.steps <= y1.steps {
                y1.steps as int
            } else {
                y0.steps as int
            },
        ),
        Geometry::Ellipse { cx, cy, rx, ry } => (
            cx.steps - rx.steps,
            cy.steps - ry.steps,
            cx.steps + rx.steps,
            cy.steps + ry.steps,
        ),
        Geometry::Circle { cx, cy, r } => (
            cx.steps - r.steps,
            cy.steps - r.steps,
            cx.steps + r.steps,
            cy.steps + r.steps,
        ),
    }
}

/// The number of a pixel, of `n`, that is nearest to a whole number.
pub open spec fn nearest_pixel(v: int, n: int) -> int {
    if v < 0 {
        0
    } else if v >= n {
        n - 1
    } else {
        v
    }
}

/// The bounding box of a shape begins at the pixels that its left and its top lie in, and ends
/// at the first pixels that begin at or behind its right and its bottom, as far as the image
/// goes.
pub proof fn the_box_is_tight(geom: Geometry<Fixed>, width: usize, height: usize)
    requires
        modest_shape(geom),
        modest_side(width as int),
        modest_side(height as int),
    ensures
        ({
            let (left, top, right, bottom) = sides_of(geom);
            let b = geom.bbox_spec(width, height);
            &&& b.0 == nearest_pixel(left / 65536, width as int)
            &&& b.1 == nearest_pixel(top / 65536, height as int)
            &&& b.2 == nearest_pixel((right + 65535) / 65536, width as int)
            &&& b.3 == nearest_pixel((bottom + 65535) / 65536, height as int)
        }),
{
    let (left, top, right, bottom) = sides_of(geom);
    let e = geom.extent_spec();
    assert(e.0.steps == left && e.1.steps == top && e.2.steps == right && e.3.steps == bottom);
    lemma_box_side(e.0, width);
    lemma_box_side(e.1, height);
    lemma_box_side(e.2, width);
    lemma_box_side(e.3, height);
}

/// The pixel that a coordinate leads to, rounded down and rounded up.
proof fn lemma_box_side(v: Fixed, n: usize)
    requires
        modest_twice(v),
        modest_side(n as int),
    ensures
        pixel_index_spec(v.floor_spec(), n) == nearest_pixel(v.steps as int / 65536, n as int),
        pixel_index_spec(v.ceil_spec(), n) == nearest_pixel((v.steps + 65535) / 65536, n as int),
{
    let last = (n - 1) as usize;
    let down = v.steps as int / 65536;
    let up = (v.steps + 65535) / 65536;
    assert(v.floor_spec().steps == down * 65536);
    assert(-((-v.steps) / 65536) == up);
    assert(v.ceil_spec().steps == up * 65536);
    assert(Fixed::of_count_spec(0).steps == 0);
    assert(Fixed::of_count_spec(last).steps == last * 65536);
}

} // verus!
