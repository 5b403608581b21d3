//! The geometry of a region of interest, and its stamp on a mask.

use vstd::prelude::*;

use crate::codec::{
    byte_samples, npy_shape, npy_values, tiff_has_more, tiff_opens, tiff_readable, tiff_samples,
    tiff_writable,
    tiff_size, write_npy, write_tiff, Element,
};
use crate::directory::{page_is_countable, page_is_jpeg};
use crate::header::npy_header_is_flat;
use crate::mask::{bytes_of, flattened, flattened_is_row_by_row, mask_bytes, Mask};
use crate::paths::{ext_of, ext_spec, SourcePath};
use crate::scalar::{half, Scalar};
use crate::text::text_is;

verus! {

/// Which drawing tool is currently active.
#[derive(Clone, Copy, PartialEq, Eq, Structural, Debug)]
pub enum Tool {
    Rectangle,
    Ellipse,
    Circle,
}

impl Tool {
    pub open spec fn label_spec(self) -> Seq<char> {
        match self {
            Tool::Rectangle => "Rectangle"@,
            Tool::Ellipse => "Ellipse"@,
            Tool::Circle => "Circle"@,
        }
    }

    pub fn label(self) -> (r: &'static str)
        ensures
            r@ == self.label_spec(),
    {
        match self {
            Tool::Rectangle => "Rectangle",
            Tool::Ellipse => "Ellipse",
            Tool::Circle => "Circle",
        }
    }
}

/// A region in image-pixel space (x = column, y = row).
#[derive(Clone, Copy, Debug)]
pub enum Geometry<S> {
    Rect { x0: S, y0: S, x1: S, y1: S },
    Ellipse { cx: S, cy: S, rx: S, ry: S },
    Circle { cx: S, cy: S, r: S },
}

/// The distance between two points, by the root of the sum of squares.
pub open spec fn distance_spec<S: Scalar>(a: (S, S), b: (S, S)) -> S {
    b.0.minus_spec(a.0).squared_spec().plus_spec(b.1.minus_spec(a.1).squared_spec()).root_spec()
}

/// The distance between two points, by the root of the sum of squares.
pub fn distance<S: Scalar>(a: (S, S), b: (S, S)) -> (r: S)
    ensures
        r == distance_spec(a, b),
{
    b.0.minus(a.0).squared().plus(b.1.minus(a.1).squared()).root()
}

/// The center of the pixel with the given column or row number.
pub open spec fn pixel_center_spec<S: Scalar>(i: usize) -> S {
    S::of_count_spec(i).plus_spec(crate::scalar::half_spec::<S>())
}

/// The center of the pixel with the given column or row number.
pub fn pixel_center<S: Scalar>(i: usize) -> (r: S)
    ensures
        r == pixel_center_spec::<S>(i),
{
    S::of_count(i).plus(half::<S>())
}

/// The pixel number, of `n`, that a coordinate leads to when it is moved into the image.
pub open spec fn pixel_index_spec<S: Scalar>(v: S, n: usize) -> usize {
    let last: usize = if n == 0 {
        0
    } else {
        (n - 1) as usize
    };
    let t = v.clamped_spec(S::of_count_spec(0), S::of_count_spec(last)).truncated_spec();
    if t < 0 {
        0
    } else if t > last {
        last
    } else {
        t as usize
    }
}

/// The pixel number, of `n`, that a coordinate leads to when it is moved into the image.
fn pixel_index<S: Scalar>(v: S, n: usize) -> (r: usize)
    ensures
        r == pixel_index_spec(v, n),
{
    let last: usize = if n == 0 {
        0
    } else {
        n - 1
    };
    let t: i64 = v.clamped(S::of_count(0), S::of_count(last)).truncated();
    if t < 0 {
        0
    } else if t as u64 > last as u64 {
        last
    } else {
        t as usize
    }
}

impl<S: Scalar> Geometry<S> {
    /// The shape that a drag from `a` to `b` draws.
    pub open spec fn from_drag_spec(tool: Tool, a: (S, S), b: (S, S)) -> Geometry<S> {
        let h = crate::scalar::half_spec::<S>();
        match tool {
            Tool::Rectangle => Geometry::Rect { x0: a.0, y0: a.1, x1: b.0, y1: b.1 },
            Tool::Ellipse => Geometry::Ellipse {
                cx: a.0.plus_spec(b.0).times_spec(h),
                cy: a.1.plus_spec(b.1).times_spec(h),
                rx: b.0.minus_spec(a.0).magnitude_spec().times_spec(h),
                ry: b.1.minus_spec(a.1).magnitude_spec().times_spec(h),
            },
            Tool::Circle => Geometry::Circle { cx: a.0, cy: a.1, r: distance_spec(a, b) },
        }
    }

    /// Build a geometry of the given `tool` from a click-drag between two
    /// image-space corners. A circle is centered on the start of the drag, and
    /// its radius follows the cursor.
    pub fn from_drag(tool: Tool, a: (S, S), b: (S, S)) -> (r: Geometry<S>)
        ensures
            r == Geometry::from_drag_spec(tool, a, b),
    {
        let h = half::<S>();
        match tool {
            Tool::Rectangle => Geometry::Rect { x0: a.0, y0: a.1, x1: b.0, y1: b.1 },
            Tool::Ellipse => Geometry::Ellipse {
                cx: a.0.plus(b.0).times(h),
                cy: a.1.plus(b.1).times(h),
                rx: b.0.minus(a.0).magnitude().times(h),
                ry: b.1.minus(a.1).magnitude().times(h),
            },
            Tool::Circle => Geometry::Circle { cx: a.0, cy: a.1, r: distance(a, b) },
        }
    }

    /// The least and the greatest coordinates: `(min x, min y, max x, max y)`.
    pub open spec fn extent_spec(self) -> (S, S, S, S) {
        match self {
            Geometry::Rect { x0, y0, x1, y1 } => (
                x0.smaller_spec(x1),
                y0.smaller_spec(y1),
                x0.larger_spec(x1),
                y0.larger_spec(y1),
            ),
            Geometry::Ellipse { cx, cy, rx, ry } => (
                cx.minus_spec(rx),
                cy.minus_spec(ry),
                cx.plus_spec(rx),
                cy.plus_spec(ry),
            ),
            Geometry::Circle { cx, cy, r } => (
                cx.minus_spec(r),
                cy.minus_spec(r),
                cx.plus_spec(r),
                cy.plus_spec(r),
            ),
        }
    }

    /// The least and the greatest coordinates: `(min x, min y, max x, max y)`.
    pub fn extent(&self) -> (r: (S, S, S, S))
        ensures
            r == self.extent_spec(),
    {
        match *self {
            Geometry::Rect { x0, y0, x1, y1 } => (
                x0.smaller(x1),
                y0.smaller(y1),
                x0.larger(x1),
                y0.larger(y1),
            ),
            Geometry::Ellipse { cx, cy, rx, ry } => (
                cx.minus(rx),
                cy.minus(ry),
                cx.plus(rx),
                cy.plus(ry),
            ),
            Geometry::Circle { cx, cy, r } => (cx.minus(r), cy.minus(r), cx.plus(r), cy.plus(r)),
        }
    }

    /// The bounding box in whole pixels, inclusive, and moved into the image.
    pub open spec fn bbox_spec(self, w: usize, h: usize) -> (usize, usize, usize, usize) {
        let e = self.extent_spec();
        (
            pixel_index_spec(e.0.floor_spec(), w),
            pixel_index_spec(e.1.floor_spec(), h),
            pixel_index_spec(e.2.ceil_spec(), w),
            pixel_index_spec(e.3.ceil_spec(), h),
        )
    }

    /// Inclusive integer bounding box `(x0, y0, x1, y1)` clamped to the image.
    pub fn bbox(&self, w: usize, h: usize) -> (r: (usize, usize, usize, usize))
        ensures
            r == self.bbox_spec(w, h),
            w > 0 ==> r.0 < w && r.2 < w,
            h > 0 ==> r.1 < h && r.3 < h,
    {
        let (minx, miny, maxx, maxy) = self.extent();
        (
            pixel_index(minx.floor(), w),
            pixel_index(miny.floor(), h),
            pixel_index(maxx.ceil(), w),
            pixel_index(maxy.ceil(), h),
        )
    }

    /// The shape moved by `(dx, dy)`.
    pub open spec fn translated(self, dx: S, dy: S) -> Geometry<S> {
        match self {
            Geometry::Rect { x0, y0, x1, y1 } => Geometry::Rect {
                x0: x0.plus_spec(dx),
                y0: y0.plus_spec(dy),
                x1: x1.plus_spec(dx),
                y1: y1.plus_spec(dy),
            },
            Geometry::Ellipse { cx, cy, rx, ry } => Geometry::Ellipse {
                cx: cx.plus_spec(dx),
                cy: cy.plus_spec(dy),
                rx,
                ry,
            },
            Geometry::Circle { cx, cy, r } => Geometry::Circle {
                cx: cx.plus_spec(dx),
                cy: cy.plus_spec(dy),
                r,
            },
        }
    }

    /// Translate the shape by `(dx, dy)` image pixels.
    pub fn translate(&mut self, dx: S, dy: S)
        ensures
            *final(self) == old(self).translated(dx, dy),
    {
        let moved = match *self {
            Geometry::Rect { x0, y0, x1, y1 } => Geometry::Rect {
                x0: x0.plus(dx),
                y0: y0.plus(dy),
                x1: x1.plus(dx),
                y1: y1.plus(dy),
            },
            Geometry::Ellipse { cx, cy, rx, ry } => Geometry::Ellipse {
                cx: cx.plus(dx),
                cy: cy.plus(dy),
                rx,
                ry,
            },
            Geometry::Circle { cx, cy, r } => Geometry::Circle { cx: cx.plus(dx), cy: cy.plus(dy), r },
        };
        *self = moved;
    }

    /// The center of the shape.
    pub open spec fn center_spec(self) -> (S, S) {
        match self {
            Geometry::Rect { x0, y0, x1, y1 } => (
                x0.plus_spec(x1).times_spec(crate::scalar::half_spec::<S>()),
                y0.plus_spec(y1).times_spec(crate::scalar::half_spec::<S>()),
            ),
            Geometry::Ellipse { cx, cy, .. } => (cx, cy),
            Geometry::Circle { cx, cy, .. } => (cx, cy),
        }
    }

    /// Center of the shape in image pixel coordinates.
    pub fn center(&self) -> (r: (S, S))
        ensures
            r == self.center_spec(),
    {
        match *self {
            Geometry::Rect { x0, y0, x1, y1 } => (
                x0.plus(x1).times(half::<S>()),
                y0.plus(y1).times(half::<S>()),
            ),
            Geometry::Ellipse { cx, cy, .. } => (cx, cy),
            Geometry::Circle { cx, cy, .. } => (cx, cy),
        }
    }

    /// Is the point `(px, py)` inside the shape, or on its edge? An ellipse or a
    /// circle without a positive radius has no inside.
    pub open spec fn contains_spec(self, px: S, py: S) -> bool {
        match self {
            Geometry::Rect { x0, y0, x1, y1 } => {
                &&& x0.smaller_spec(x1).at_most_spec(px)
                &&& px.at_most_spec(x0.larger_spec(x1))
                &&& y0.smaller_spec(y1).at_most_spec(py)
                &&& py.at_most_spec(y0.larger_spec(y1))
            },
            Geometry::Ellipse { cx, cy, rx, ry } => {
                let dx = px.minus_spec(cx).over_spec(rx);
                let dy = py.minus_spec(cy).over_spec(ry);
                &&& !rx.at_most_spec(S::of_count_spec(0))
                &&& !ry.at_most_spec(S::of_count_spec(0))
                &&& dx.times_spec(dx).plus_spec(dy.times_spec(dy)).at_most_spec(S::of_count_spec(1))
            },
            Geometry::Circle { cx, cy, r } => {
                &&& !r.at_most_spec(S::of_count_spec(0))
                &&& px.minus_spec(cx).squared_spec().plus_spec(
                    py.minus_spec(cy).squared_spec(),
                ).at_most_spec(r.times_spec(r))
            },
        }
    }

    /// Does the point `(px, py)` fall inside the shape?
    pub fn contains(&self, px: S, py: S) -> (r: bool)
        ensures
            r == self.contains_spec(px, py),
    {
        match *self {
            Geometry::Rect { x0, y0, x1, y1 } => {
                x0.smaller(x1).at_most(px) && px.at_most(x0.larger(x1)) && y0.smaller(y1).at_most(
                    py,
                ) && py.at_most(y0.larger(y1))
            },
            Geometry::Ellipse { cx, cy, rx, ry } => {
                if rx.at_most(S::of_count(0)) || ry.at_most(S::of_count(0)) {
                    return false;
                }
                let dx = px.minus(cx).over(rx);
                let dy = py.minus(cy).over(ry);
                dx.times(dx).plus(dy.times(dy)).at_most(S::of_count(1))
            },
            Geometry::Circle { cx, cy, r } => {
                if r.at_most(S::of_count(0)) {
                    return false;
                }
                px.minus(cx).squared().plus(py.minus(cy).squared()).at_most(r.times(r))
            },
        }
    }

    /// Does the shape cover the pixel in row `y` and column `x` of an image with
    /// the given size? It does if the pixel is in the bounding box and its
    /// center inside the shape.
    pub open spec fn covers(self, height: int, width: int, y: int, x: int) -> bool {
        let b = self.bbox_spec(width as usize, height as usize);
        &&& b.0 <= x <= b.2
        &&& b.1 <= y <= b.3
        &&& self.contains_spec(pixel_center_spec(x as usize), pixel_center_spec(y as usize))
    }

    /// The mask `after` is the mask `before` with every pixel that the shape covers
    /// set to `value`, and all others as they were.
    pub open spec fn stamped(self, before: Mask, after: Mask, value: bool) -> bool {
        &&& after.height() == before.height()
        &&& after.width() == before.width()
        &&& forall|y: int, x: int|
            0 <= y < before.height() && 0 <= x < before.width() ==> #[trigger] after.at(y, x)
                == if self.covers(before.height() as int, before.width() as int, y, x) {
                value
            } else {
                before.at(y, x)
            }
    }

    /// Stamp this shape into `mask`, setting covered pixels to `value`.
    pub fn stamp(&self, mask: &mut Mask, value: bool)
        requires
            old(mask).wf(),
        ensures
            final(mask).wf(),
            self.stamped(*old(mask), *final(mask), value),
    {
        let (h, w) = mask.dim();
        if h == 0 || w == 0 {
            return ;
        }
        let ghost before = *mask;
        let (x0, y0, x1, y1) = self.bbox(w, h);
        let mut y: usize = y0;
        while y <= y1
            invariant
                before.wf(),
                h == before.height(),
                w == before.width(),
                (x0, y0, x1, y1) == self.bbox_spec(w, h),
                x1 < w,
                y1 < h,
                y0 <= y <= h,
                mask.wf(),
                mask.height() == h,
                mask.width() == w,
                forall|py: int, px: int|
                    0 <= py < h && 0 <= px < w ==> #[trigger] mask.at(py, px) == if py < y
                        && self.covers(h as int, w as int, py, px) {
                        value
                    } else {
                        before.at(py, px)
                    },
            decreases h - y,
        {
            let mut x: usize = x0;
            while x <= x1
                invariant
                    before.wf(),
                    h == before.height(),
                    w == before.width(),
                    (x0, y0, x1, y1) == self.bbox_spec(w, h),
                    x1 < w,
                    y1 < h,
                    y0 <= y <= y1,
                    x0 <= x <= w,
                    mask.wf(),
                    mask.height() == h,
                    mask.width() == w,
                    forall|py: int, px: int|
                        0 <= py < h && 0 <= px < w ==> #[trigger] mask.at(py, px) == if (py < y
                            || py == y && px < x) && self.covers(h as int, w as int, py, px) {
                            value
                        } else {
                            before.at(py, px)
                        },
                decreases w - x,
            {
                if self.contains(pixel_center(x), pixel_center(y)) {
                    mask.set(y, x, value);
                }
                x = x + 1;
            }
            y = y + 1;
        }
    }
}

/// Stamping a shape a second time changes nothing.
pub proof fn stamping_twice_is_stamping_once<S: Scalar>(
    geom: Geometry<S>,
    a: Mask,
    b: Mask,
    c: Mask,
    value: bool,
)
    requires
        geom.stamped(a, b, value),
        geom.stamped(b, c, value),
    ensures
        forall|y: int, x: int|
            0 <= y < a.height() && 0 <= x < a.width() ==> #[trigger] c.at(y, x) == b.at(y, x),
{
    assert forall|y: int, x: int| 0 <= y < a.height() && 0 <= x < a.width() implies #[trigger] c.at(
        y,
        x,
    ) == b.at(y, x) by {
        assert(b.at(y, x) == b.at(y, x));
    }
}

/// A later stamp overrules an earlier one where both cover a pixel: what was
/// added is carved out, and what was carved out is added again.
pub proof fn a_later_stamp_overrules<S: Scalar>(
    first: Geometry<S>,
    second: Geometry<S>,
    a: Mask,
    b: Mask,
    c: Mask,
    value: bool,
)
    requires
        first.stamped(a, b, value),
        second.stamped(b, c, !value),
    ensures
        forall|y: int, x: int|
            0 <= y < a.height() && 0 <= x < a.width() ==> #[trigger] c.at(y, x) == if second.covers(
                a.height() as int,
                a.width() as int,
                y,
                x,
            ) {
                !value
            } else if first.covers(a.height() as int, a.width() as int, y, x) {
                value
            } else {
                a.at(y, x)
            },
{
    assert forall|y: int, x: int| 0 <= y < a.height() && 0 <= x < a.width() implies #[trigger] c.at(
        y,
        x,
    ) == if second.covers(a.height() as int, a.width() as int, y, x) {
        !value
    } else if first.covers(a.height() as int, a.width() as int, y, x) {
        value
    } else {
        a.at(y, x)
    } by {
        assert(b.at(y, x) == b.at(y, x));
    }
}

/// Why a mask could not be turned into a file.
#[derive(Debug)]
pub enum SaveError {
    /// The extension is not one that a mask is written for.
    Unsupported { extension: String },
    /// The mask has more rows or columns than a TIFF file can have.
    TooLarge,
    Tiff { error: tiff::TiffError },
    Npy { error: ndarray_npy::WriteNpyError },
}

/// The bytes are a `.npy` file that holds the mask with the given rows and width: a
/// 2-D array of unsigned bytes, 1 where a pixel is selected and 0 elsewhere.
pub open spec fn npy_holds(bytes: Seq<u8>, rows: Seq<Seq<bool>>, width: nat) -> bool {
    &&& npy_header_is_flat(bytes)
    &&& bytes.len() >= rows.len() * width
    &&& npy_shape(bytes) == Some(seq![rows.len() as usize, width as usize])
    &&& npy_values(bytes, Element::U8) == Some(byte_samples(mask_bytes(flattened(rows))))
    &&& forall|e: Element| e != Element::U8 ==> #[trigger] npy_values(bytes, e) is None
}

/// The bytes are a TIFF file with one page of the given size.
pub open spec fn tiff_is_sized(bytes: Seq<u8>, width: nat, height: nat) -> bool {
    &&& page_is_countable(bytes, 0)
    &&& !page_is_jpeg(bytes, 0)
    &&& tiff_opens(bytes)
    &&& tiff_size(bytes, 0) == (width as u32, height as u32)
    &&& !tiff_has_more(bytes, 0)
}

/// The bytes are a TIFF file that holds the mask with the given rows and width: one
/// page, 1 where a pixel is selected and 0 elsewhere. One that is beyond the limits
/// of the decoder cannot be read back.
pub open spec fn tiff_holds(bytes: Seq<u8>, rows: Seq<Seq<bool>>, width: nat) -> bool {
    &&& tiff_is_sized(bytes, width, rows.len())
    &&& tiff_samples(bytes, 0) == if tiff_readable(width as int, rows.len() as int) {
        Some(byte_samples(mask_bytes(flattened(rows))))
    } else {
        None
    }
}

/// The outcome of turning the mask with the given rows and width into a file with
/// the given extension.
pub open spec fn save_spec(
    ext: Seq<char>,
    rows: Seq<Seq<bool>>,
    width: nat,
    r: Result<Vec<u8>, SaveError>,
) -> bool {
    if ext == "npy"@ {
        r matches Ok(bytes) && npy_holds(bytes@, rows, width)
    } else if ext == "tif"@ || ext == "tiff"@ {
        if rows.len() > u32::MAX || width > u32::MAX {
            r matches Err(SaveError::TooLarge)
        } else if tiff_writable(width as int, rows.len() as int) {
            r matches Ok(bytes) && tiff_holds(bytes@, rows, width)
        } else {
            r matches Err(SaveError::Tiff { .. })
        }
    } else {
        r matches Err(SaveError::Unsupported { extension }) && extension@ == ext
    }
}

/// The bytes of the file that holds the mask, with selected pixels = 1 and the
/// rest = 0.
///
/// The format follows the extension: `.tif`/`.tiff` makes an 8-bit grayscale
/// TIFF, `.npy` a NumPy `uint8` array of shape `(height, width)`. A mask without
/// a pixel has no TIFF file, nor has one that is so large that offsets in the file
/// do not fit into 32 bits.
pub fn save_mask(path: &SourcePath, mask: &Mask) -> (r: Result<Vec<u8>, SaveError>)
    requires
        mask.wf(),
    ensures
        save_spec(ext_spec(*path), mask.rows(), mask.width(), r),
{
    let ext = ext_of(path);
    let (h, w) = mask.dim();
    proof {
        flattened_is_row_by_row(mask.rows(), mask.width() as int);
        assert(h * w == w * h) by (nonlinear_arith);
        assert(h == 0 || w == 0 ==> h * w == 0) by (nonlinear_arith);
        assert(h > 0 && w > 0 ==> h * w >= h && h * w >= w) by (nonlinear_arith);
    }
    if text_is(&ext, "npy") {
        let data = bytes_of(&mask.pixels());
        match write_npy(h, w, data) {
            Ok(bytes) => Ok(bytes),
            Err(error) => Err(SaveError::Npy { error }),
        }
    } else if text_is(&ext, "tif") || text_is(&ext, "tiff") {
        if h > u32::MAX as usize || w > u32::MAX as usize {
            return Err(SaveError::TooLarge);
        }
        let data = bytes_of(&mask.pixels());
        match write_tiff(w as u32, h as u32, &data) {
            Ok(bytes) => Ok(bytes),
            Err(error) => Err(SaveError::Tiff { error }),
        }
    } else {
        Err(SaveError::Unsupported { extension: ext })
    }
}

} // verus!
