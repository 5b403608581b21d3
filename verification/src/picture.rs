//! What is painted: the image, the mask over it, and the regions.

use vstd::prelude::*;

use crate::colormap::{Color, LUT_LEN};
use crate::editor::Roi;
use crate::handles::{handles_of, shape_handles, Placement};
use crate::mask::{count, count_selected};
use crate::roi::Geometry;
use crate::scalar::Scalar;

verus! {

/// The place in the colormap of a value, for a contrast range from `lo` to `hi`:
/// its place in the range, from 0 to 1, in 255 steps.
pub open spec fn lut_index_spec<S: Scalar>(v: S, lo: S, hi: S) -> int {
    let span = hi.minus_spec(lo).larger_spec(S::hairline_spec());
    let t = v.minus_spec(lo).over_spec(span).clamped_spec(
        S::of_count_spec(0),
        S::of_count_spec(1),
    );
    let i = t.times_spec(S::of_count_spec(255)).round_spec().truncated_spec();
    if i < 0 {
        0
    } else if i > 255 {
        255
    } else {
        i as int
    }
}

/// The place in the colormap of a value, for a contrast range from `lo` to `hi`.
pub fn lut_index<S: Scalar>(v: S, lo: S, hi: S) -> (r: usize)
    ensures
        r == lut_index_spec(v, lo, hi),
        r < LUT_LEN,
{
    let span = hi.minus(lo).larger(S::hairline());
    let t = v.minus(lo).over(span).clamped(S::of_count(0), S::of_count(1));
    let i: i64 = t.times(S::of_count(255)).round().truncated();
    if i < 0 {
        0
    } else if i > 255 {
        255
    } else {
        i as usize
    }
}

/// The pixels of the picture of an image, four bytes each: red, green, blue, and
/// full opacity.
pub open spec fn image_pixels<S: Scalar>(data: Seq<S>, lo: S, hi: S, lut: Seq<Color>) -> Seq<u8> {
    Seq::new(data.len() * 4, |k: int| channel(lut[lut_index_spec(data[k / 4], lo, hi)], k % 4))
}

/// Red, green, blue or opacity of an opaque color.
pub open spec fn channel(color: Color, k: int) -> u8 {
    if k == 0 {
        color.0
    } else if k == 1 {
        color.1
    } else if k == 2 {
        color.2
    } else {
        255
    }
}

/// The picture of an image in the colors of a colormap.
pub fn paint_image<S: Scalar>(data: &Vec<S>, lo: S, hi: S, lut: &Vec<Color>) -> (r: Vec<u8>)
    requires
        lut@.len() == LUT_LEN,
    ensures
        r@ == image_pixels(data@, lo, hi, lut@),
{
    let ghost spec = image_pixels(data@, lo, hi, lut@);
    let mut out: Vec<u8> = Vec::new();
    let mut i: usize = 0;
    while i < data.len()
        invariant
            i <= data@.len(),
            lut@.len() == LUT_LEN,
            spec == image_pixels(data@, lo, hi, lut@),
            out@ == spec.take(4 * i),
        decreases data@.len() - i,
    {
        let color = lut[lut_index(data[i], lo, hi)];
        out.push(color.0);
        out.push(color.1);
        out.push(color.2);
        out.push(255);
        i = i + 1;
        assert(out@ =~= spec.take(4 * i));
    }
    assert(spec.take(4 * i) =~= spec);
    out
}

/// The color of a selected pixel, with its opacity.
pub open spec fn overlay_color(k: int) -> u8 {
    if k == 0 {
        40
    } else if k == 1 {
        220
    } else if k == 2 {
        120
    } else {
        100
    }
}

/// The pixels of the picture of a mask: green where a pixel is selected, and
/// nothing elsewhere.
pub open spec fn overlay_pixels(pixels: Seq<bool>) -> Seq<u8> {
    Seq::new(
        pixels.len() * 4,
        |k: int|
            if pixels[k / 4] {
                overlay_color(k % 4)
            } else {
                0
            },
    )
}

/// The picture of a mask, and the number of selected pixels.
pub fn paint_mask(pixels: &Vec<bool>) -> (r: (Vec<u8>, usize))
    ensures
        r.0@ == overlay_pixels(pixels@),
        r.1 == count_selected(pixels@),
{
    let ghost spec = overlay_pixels(pixels@);
    let mut out: Vec<u8> = Vec::new();
    let mut i: usize = 0;
    while i < pixels.len()
        invariant
            i <= pixels@.len(),
            spec == overlay_pixels(pixels@),
            out@ == spec.take(4 * i),
        decreases pixels@.len() - i,
    {
        if pixels[i] {
            out.push(40);
            out.push(220);
            out.push(120);
            out.push(100);
        } else {
            out.push(0);
            out.push(0);
            out.push(0);
            out.push(0);
        }
        i = i + 1;
        assert(out@ =~= spec.take(4 * i));
    }
    assert(spec.take(4 * i) =~= spec);
    (out, count(pixels))
}

/// The outline of a region on the screen. An ellipse is given by its center and
/// radii in the image.
#[derive(Debug)]
pub enum Outline<S> {
    Rect { a: (S, S), b: (S, S) },
    Circle { center: (S, S), radius: S },
    Ellipse { center: (S, S), rx: S, ry: S },
}

/// How a region is painted.
#[derive(Debug)]
pub struct RoiPicture<S> {
    /// Red, green and blue of the outline and of the fill.
    pub color: (u8, u8, u8),
    /// The opacity of the fill, where there is one.
    pub fill: Option<u8>,
    /// The width of the outline in screen points.
    pub stroke: u8,
    pub outline: Outline<S>,
    /// The screen position of the dot in the center, where there is one.
    pub center: Option<(S, S)>,
    /// The screen positions of the resize handles.
    pub handles: Vec<(S, S)>,
}

/// The color of a region: green if it adds, orange if it carves.
pub open spec fn region_color(additive: bool) -> (u8, u8, u8) {
    if additive {
        (0, 220, 160)
    } else {
        (255, 150, 40)
    }
}

/// The outline of a shape on the screen.
pub open spec fn outline_of<S: Scalar>(geom: Geometry<S>, place: Placement<S>) -> Outline<S> {
    match geom {
        Geometry::Rect { x0, y0, x1, y1 } => Outline::Rect {
            a: place.to_screen_spec((x0, y0)),
            b: place.to_screen_spec((x1, y1)),
        },
        Geometry::Circle { cx, cy, r } => Outline::Circle {
            center: place.to_screen_spec((cx, cy)),
            radius: r.times_spec(place.scale),
        },
        Geometry::Ellipse { cx, cy, rx, ry } => Outline::Ellipse { center: (cx, cy), rx, ry },
    }
}

/// The screen positions of the resize handles of a shape.
pub open spec fn handle_places<S: Scalar>(geom: Geometry<S>, place: Placement<S>) -> Seq<(S, S)> {
    Seq::new(handles_of(geom).len(), |i: int| place.to_screen_spec(handles_of(geom)[i].1))
}

/// How a region is painted: an outline in its color, and for the selected one a
/// wider outline, a fill, a dot in the center and the resize handles.
pub fn draw_roi<S: Scalar>(roi: &Roi<S>, selected: bool, place: &Placement<S>) -> (r: RoiPicture<S>)
    ensures
        r.color == region_color(roi.additive),
        r.fill == if selected {
            Some(60u8)
        } else {
            None
        },
        r.stroke == if selected {
            2u8
        } else {
            1u8
        },
        r.outline == outline_of(roi.geom, *place),
        r.center == if selected {
            Some(place.to_screen_spec(roi.geom.center_spec()))
        } else {
            None
        },
        r.handles@ == if selected {
            handle_places(roi.geom, *place)
        } else {
            Seq::empty()
        },
{
    let color = if roi.additive {
        (0u8, 220u8, 160u8)
    } else {
        (255u8, 150u8, 40u8)
    };
    let outline = match roi.geom {
        Geometry::Rect { x0, y0, x1, y1 } => Outline::Rect {
            a: place.to_screen((x0, y0)),
            b: place.to_screen((x1, y1)),
        },
        Geometry::Circle { cx, cy, r } => Outline::Circle {
            center: place.to_screen((cx, cy)),
            radius: r.times(place.scale),
        },
        Geometry::Ellipse { cx, cy, rx, ry } => Outline::Ellipse { center: (cx, cy), rx, ry },
    };
    let mut handles: Vec<(S, S)> = Vec::new();
    if !selected {
        return RoiPicture { color, fill: None, stroke: 1, outline, center: None, handles };
    }
    let grips = shape_handles(&roi.geom);
    let ghost spec = handle_places(roi.geom, *place);
    let mut i: usize = 0;
    while i < grips.len()
        invariant
            grips@ == handles_of(roi.geom),
            spec == handle_places(roi.geom, *place),
            i <= grips@.len(),
            handles@ == spec.take(i as int),
        decreases grips@.len() - i,
    {
        let (_, p) = grips[i];
        handles.push(place.to_screen(p));
        i = i + 1;
        assert(handles@ =~= spec.take(i as int));
    }
    assert(spec.take(i as int) =~= spec);
    let center = Some(place.to_screen(roi.geom.center()));
    RoiPicture { color, fill: Some(60), stroke: 2, outline, center, handles }
}

} // verus!
