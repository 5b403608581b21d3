//! What is shown of an image, in whole steps of fixed-point numbers.

use vstd::prelude::*;

use crate::colormap::{Color, Colormap};
use crate::fixed::Fixed;
use crate::fixed_laws::modest;
use crate::picture::{image_pixels, lut_index_spec};
use crate::raster_laws::size_of;
use crate::scalar::Scalar;

verus! {

/// Where a value stands in the colormap, before rounding: how much of the contrast range
/// lies below it, in 65536ths.
spec fn part_of(v: int, lo: int, hi: int) -> int {
    if v <= lo {
        0
    } else if v >= hi {
        65536
    } else {
        ((v - lo) * 65536) / (hi - lo)
    }
}

/// The place of a value in the colormap is 255 times its part of the range, rounded.
proof fn lemma_place(v: Fixed, lo: Fixed, hi: Fixed)
    requires
        modest(v) && modest(lo) && modest(hi),
        lo.steps < hi.steps,
    ensures
        ({
            let t = part_of(v.steps as int, lo.steps as int, hi.steps as int);
            0 <= t <= 65536 && lut_index_spec(v, lo, hi) == (255 * t + 32768) / 65536
        }),
{
    let s = hi.steps - lo.steps;
    let d = v.steps - lo.steps;
    let span = hi.minus_spec(lo).larger_spec(Fixed::hairline_spec());
    assert(span.steps == s);
    assert(Fixed::of_count_spec(0).steps == 0);
    assert(Fixed::of_count_spec(1).steps == 65536);
    assert(Fixed::of_count_spec(255).steps == 16711680);
    let over = v.minus_spec(lo).over_spec(span);
    let t = over.clamped_spec(Fixed::of_count_spec(0), Fixed::of_count_spec(1));
    let part = part_of(v.steps as int, lo.steps as int, hi.steps as int);
    if d >= 0 {
        lemma_share(d, s);
    } else {
        vstd::arithmetic::div_mod::lemma_div_pos_is_pos((-d) * 65536, s);
    }
    assert(t.steps == part);
    assert(0 <= part <= 65536);
    let product = t.times_spec(Fixed::of_count_spec(255));
    assert(product.steps == 255 * part);
    let rounded = product.round_spec();
    assert(rounded.steps == ((255 * part + 32768) / 65536) * 65536);
    assert(rounded.truncated_spec() == (255 * part + 32768) / 65536);
}

/// A share of a range, in 65536ths.
proof fn lemma_share(d: int, s: int)
    requires
        d >= 0,
        s > 0,
    ensures
        ({
            let t = (d * 65536) / s;
            &&& t >= 0
            &&& t * s <= d * 65536 < t * s + s
            &&& d >= s ==> t >= 65536
            &&& d < s ==> t < 65536
            &&& d == 0 ==> t == 0
        }),
{
    let t = (d * 65536) / s;
    vstd::arithmetic::div_mod::lemma_fundamental_div_mod(d * 65536, s);
    vstd::arithmetic::div_mod::lemma_mod_bound(d * 65536, s);
    vstd::arithmetic::div_mod::lemma_div_pos_is_pos(d * 65536, s);
    assert(t * s == s * t) by (nonlinear_arith);
    if d >= s && t < 65536 {
        assert(t * s + s <= 65536 * s) by (nonlinear_arith)
            requires
                t + 1 <= 65536,
                s > 0,
        ;
    }
    if d < s && t >= 65536 {
        assert(t * s >= 65536 * s) by (nonlinear_arith)
            requires
                t >= 65536,
                s > 0,
        ;
    }
    if d == 0 && t > 0 {
        assert(t * s > 0) by (nonlinear_arith)
            requires
                t > 0,
                s > 0,
        ;
    }
}

/// A value at the lower end of the contrast range or below has the first color, one at the
/// upper end or above the last, and between them the place in the colormap is the value's
/// part of the range: 255 times the distance from the lower end, divided by the range, to
/// the nearest whole number, up to the rounding of the quotient to a step.
pub proof fn a_place_is_a_part_of_the_range(v: Fixed, lo: Fixed, hi: Fixed)
    requires
        modest(v) && modest(lo) && modest(hi),
        lo.steps < hi.steps,
    ensures
        0 <= lut_index_spec(v, lo, hi) <= 255,
        v.steps <= lo.steps ==> lut_index_spec(v, lo, hi) == 0,
        v.steps >= hi.steps ==> lut_index_spec(v, lo, hi) == 255,
        lo.steps <= v.steps <= hi.steps ==> {
            let range = hi.steps - lo.steps;
            let above = v.steps - lo.steps;
            2 * size_of(lut_index_spec(v, lo, hi) * range * 65536 - 255 * above * 65536) <= 66046
                * range
        },
{
    lemma_place(v, lo, hi);
    let s = hi.steps - lo.steps;
    let d = v.steps - lo.steps;
    let t = part_of(v.steps as int, lo.steps as int, hi.steps as int);
    let i = lut_index_spec(v, lo, hi);
    if lo.steps <= v.steps <= hi.steps {
        lemma_share(d, s);
        assert(t * s <= d * 65536 <= t * s + s) by {
            if v.steps == hi.steps {
                assert(t * s == 65536 * d) by (nonlinear_arith)
                    requires
                        t == 65536,
                        s == d,
                ;
            }
            if v.steps == lo.steps {
                assert(t * s == 0) by (nonlinear_arith)
                    requires
                        t == 0,
                ;
            }
        }
        let e = i * 65536 - 255 * t;
        assert(-32768 <= e <= 32768);
        assert(i * s * 65536 == (i * 65536) * s) by (nonlinear_arith);
        assert((i * 65536) * s == 255 * (t * s) + e * s) by (nonlinear_arith)
            requires
                e == i * 65536 - 255 * t,
        ;
        assert(-32768 * s <= e * s <= 32768 * s) by (nonlinear_arith)
            requires
                -32768 <= e <= 32768,
                s > 0,
        ;
    }
}

/// A larger value has no earlier place in the colormap.
pub proof fn brighter_is_not_earlier(v: Fixed, w: Fixed, lo: Fixed, hi: Fixed)
    requires
        modest(v) && modest(w) && modest(lo) && modest(hi),
        lo.steps < hi.steps,
        v.steps <= w.steps,
    ensures
        lut_index_spec(v, lo, hi) <= lut_index_spec(w, lo, hi),
{
    lemma_place(v, lo, hi);
    lemma_place(w, lo, hi);
    let s = hi.steps - lo.steps;
    if lo.steps < v.steps && w.steps < hi.steps {
        vstd::arithmetic::div_mod::lemma_div_is_ordered(
            (v.steps - lo.steps) * 65536,
            (w.steps - lo.steps) * 65536,
            s,
        );
    }
}

/// Each pixel of the picture has the color at its value's place in the colormap, and is
/// opaque; pixels stand in the order of the values.
pub proof fn a_pixel_has_its_color<S: Scalar>(data: Seq<S>, lo: S, hi: S, lut: Seq<Color>, i: int)
    requires
        0 <= i < data.len(),
    ensures
        image_pixels(data, lo, hi, lut).len() == 4 * data.len(),
        ({
            let color = lut[lut_index_spec(data[i], lo, hi)];
            image_pixels(data, lo, hi, lut).subrange(4 * i, 4 * i + 4) == seq![
                color.0,
                color.1,
                color.2,
                255u8,
            ]
        }),
{
    let color = lut[lut_index_spec(data[i], lo, hi)];
    let four = image_pixels(data, lo, hi, lut).subrange(4 * i, 4 * i + 4);
    assert forall|k: int| 0 <= k < 4 implies #[trigger] four[k] == crate::picture::channel(color, k) by {
        assert((4 * i + k) / 4 == i && (4 * i + k) % 4 == k);
    }
    assert(four =~= seq![color.0, color.1, color.2, 255u8]);
}

/// The gray colormap goes evenly from black to white.
pub proof fn gray_is_even(i: int)
    requires
        0 <= i < 256,
    ensures
        Colormap::Gray.lut_spec().len() == 256,
        Colormap::Gray.lut_spec()[i] == (i as u8, i as u8, i as u8),
{
    assert(Colormap::Gray.stops_spec().len() == 2);
    if i < 255 {
        assert(i / 255 == 0);
    }
}

/// The number is between two others, or one of them.
pub open spec fn between(v: u8, a: u8, b: u8) -> bool {
    a <= v <= b || b <= v <= a
}

/// A color of a colormap lies between the two stops around it.
pub proof fn colors_lie_between_stops(map: Colormap, i: int, k: int)
    requires
        0 <= k < map.stops_spec().len() - 1,
        k * 255 <= i * (map.stops_spec().len() - 1) <= (k + 1) * 255,
        0 <= i < 256,
    ensures
        ({
            let a = map.stops_spec()[k];
            let b = map.stops_spec()[k + 1];
            let c = map.lut_spec()[i];
            between(c.0, a.0, b.0) && between(c.1, a.1, b.1) && between(c.2, a.2, b.2)
        }),
{
    let stops = map.stops_spec();
    let n = stops.len() - 1;
    let at = i * n;
    let j = if at / 255 < n {
        at / 255
    } else {
        n - 1
    };
    assert(j == k || j == k + 1);
    let part = at - j * 255;
    if j == k + 1 {
        assert(part == 0);
    }
    lemma_mixed_between(stops[j].0, stops[j + 1].0, part);
    lemma_mixed_between(stops[j].1, stops[j + 1].1, part);
    lemma_mixed_between(stops[j].2, stops[j + 1].2, part);
}

/// A mixture lies between what is mixed, and is the first if there is nothing of the second.
proof fn lemma_mixed_between(a: u8, b: u8, part: int)
    requires
        0 <= part <= 255,
    ensures
        between(crate::colormap::mixed(a, b, part), a, b),
        part == 0 ==> crate::colormap::mixed(a, b, part) == a,
{
    let rest = 255 - part;
    assert(a * rest + a * part == 255 * a) by (nonlinear_arith)
        requires
            rest == 255 - part,
    ;
    assert(b * rest + b * part == 255 * b) by (nonlinear_arith)
        requires
            rest == 255 - part,
    ;
    if a <= b {
        assert(a * part <= b * part && a * rest <= b * rest) by (nonlinear_arith)
            requires
                a <= b,
                part >= 0,
                rest >= 0,
        ;
    } else {
        assert(b * part <= a * part && b * rest <= a * rest) by (nonlinear_arith)
            requires
                b <= a,
                part >= 0,
                rest >= 0,
        ;
    }
    if part == 0 {
        assert(b * part == 0) by (nonlinear_arith)
            requires
                part == 0,
        ;
    }
}

/// Where the contrast range is empty, what is above it has the last color and all else the first.
pub proof fn an_empty_range_divides(v: Fixed, lo: Fixed, hi: Fixed)
    requires
        modest(v) && modest(lo) && modest(hi),
        lo.steps >= hi.steps,
    ensures
        lut_index_spec(v, lo, hi) == if v.steps > lo.steps {
            255int
        } else {
            0
        },
{
    let span = hi.minus_spec(lo).larger_spec(Fixed::hairline_spec());
    assert(span.steps == 1);
    assert(Fixed::of_count_spec(0).steps == 0);
    assert(Fixed::of_count_spec(1).steps == 65536);
    assert(Fixed::of_count_spec(255).steps == 16711680);
    let d = v.steps - lo.steps;
    let t = v.minus_spec(lo).over_spec(span).clamped_spec(
        Fixed::of_count_spec(0),
        Fixed::of_count_spec(1),
    );
    assert(t.steps == if d > 0 {
        65536int
    } else {
        0
    });
    assert(t.times_spec(Fixed::of_count_spec(255)).steps == if d > 0 {
        16711680int
    } else {
        0
    });
}

/// A color is mixed of the two stops around it, evenly by its place between them: 255 times a
/// channel is the sum of both stops', each as many times as parts are taken of it, to the
/// nearest.
pub proof fn colors_are_mixed_evenly(map: Colormap, i: int, k: int)
    requires
        0 <= k < map.stops_spec().len() - 1,
        k * 255 <= i * (map.stops_spec().len() - 1) < (k + 1) * 255,
        0 <= i < 256,
    ensures
        ({
            let part = i * (map.stops_spec().len() - 1) - k * 255;
            let a = map.stops_spec()[k];
            let b = map.stops_spec()[k + 1];
            let c = map.lut_spec()[i];
            &&& size_of(255 * c.0 - (a.0 * (255 - part) + b.0 * part)) <= 127
            &&& size_of(255 * c.1 - (a.1 * (255 - part) + b.1 * part)) <= 127
            &&& size_of(255 * c.2 - (a.2 * (255 - part) + b.2 * part)) <= 127
        }),
{
    let stops = map.stops_spec();
    let n = stops.len() - 1;
    let at = i * n;
    assert(at / 255 == k);
    let part = at - k * 255;
    lemma_mixture(stops[k].0, stops[k + 1].0, part);
    lemma_mixture(stops[k].1, stops[k + 1].1, part);
    lemma_mixture(stops[k].2, stops[k + 1].2, part);
}

/// A mixture to the nearest.
proof fn lemma_mixture(a: u8, b: u8, part: int)
    requires
        0 <= part <= 255,
    ensures
        size_of(255 * crate::colormap::mixed(a, b, part) - (a * (255 - part) + b * part)) <= 127,
{
    let rest = 255 - part;
    let sum = a * rest + b * part;
    assert(0 <= a * rest <= 255 * rest && 0 <= b * part <= 255 * part) by (nonlinear_arith)
        requires
            0 <= a <= 255,
            0 <= b <= 255,
            0 <= rest,
            0 <= part,
    ;
    assert(0 <= (sum + 127) / 255 <= 255);
}

} // verus!
