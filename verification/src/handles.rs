//! Changing the shape of a region: its resize handles and its numeric fields.

use vstd::prelude::*;

use crate::roi::{distance, distance_spec, Geometry};
use crate::scalar::{half, half_spec, Scalar};

verus! {

/// How near to a handle, in screen points, the pointer grabs it.
pub const HANDLE_HIT: usize = 10;

/// A resize grab-point on the selected region: one of the eight on the sides
/// and corners of a box (`hx` and `vy` are -1, 0 or 1), or one on the rim of a
/// circle.
#[derive(Clone, Copy, PartialEq, Eq, Structural, Debug)]
pub enum Handle {
    Box { hx: i8, vy: i8 },
    Radius,
}

/// The pointer's appearance over the image.
#[derive(Clone, Copy, PartialEq, Eq, Structural, Debug)]
pub enum CursorIcon {
    Grab,
    ResizeHorizontal,
    ResizeVertical,
    ResizeNwSe,
    ResizeNeSw,
}

/// Where the image stands on the screen, and how much it is magnified.
#[derive(Clone, Copy, Debug)]
pub struct Placement<S> {
    pub left: S,
    pub top: S,
    pub scale: S,
}

impl<S: Scalar> Placement<S> {
    /// The image point at a screen position.
    pub open spec fn to_img_spec(self, p: (S, S)) -> (S, S) {
        (
            p.0.minus_spec(self.left).over_spec(self.scale),
            p.1.minus_spec(self.top).over_spec(self.scale),
        )
    }

    /// The image point at a screen position.
    pub fn to_img(&self, p: (S, S)) -> (r: (S, S))
        ensures
            r == self.to_img_spec(p),
    {
        (p.0.minus(self.left).over(self.scale), p.1.minus(self.top).over(self.scale))
    }

    /// The image point at a screen position, if there is one.
    pub open spec fn to_img_opt_spec(self, p: Option<(S, S)>) -> Option<(S, S)> {
        match p {
            Some(p) => Some(self.to_img_spec(p)),
            None => None,
        }
    }

    /// The image point at a screen position, if there is one.
    pub fn to_img_opt(&self, p: Option<(S, S)>) -> (r: Option<(S, S)>)
        ensures
            r == self.to_img_opt_spec(p),
    {
        match p {
            Some(p) => Some(self.to_img(p)),
            None => None,
        }
    }

    /// The screen position of an image point.
    pub open spec fn to_screen_spec(self, p: (S, S)) -> (S, S) {
        (
            self.left.plus_spec(p.0.times_spec(self.scale)),
            self.top.plus_spec(p.1.times_spec(self.scale)),
        )
    }

    /// The screen position of an image point.
    pub fn to_screen(&self, p: (S, S)) -> (r: (S, S))
        ensures
            r == self.to_screen_spec(p),
    {
        (self.left.plus(p.0.times(self.scale)), self.top.plus(p.1.times(self.scale)))
    }

    /// Does the pointer at the screen position `sp` touch a handle at the image point `p`?
    pub open spec fn touches_spec(self, p: (S, S), sp: (S, S)) -> bool {
        let q = self.to_screen_spec(p);
        q.0.minus_spec(sp.0).hypot_spec(q.1.minus_spec(sp.1)).at_most_spec(
            S::of_count_spec(HANDLE_HIT),
        )
    }

    /// Does the pointer at the screen position `sp` touch a handle at the image point `p`?
    pub fn touches(&self, p: (S, S), sp: (S, S)) -> (r: bool)
        ensures
            r == self.touches_spec(p, sp),
    {
        let q = self.to_screen(p);
        q.0.minus(sp.0).hypot(q.1.minus(sp.1)).at_most(S::of_count(HANDLE_HIT))
    }

    /// The first handle of `handles`, from the `i`-th on, that the pointer touches.
    pub open spec fn first_touched(
        self,
        handles: Seq<(Handle, (S, S))>,
        i: int,
        sp: (S, S),
    ) -> Option<Handle>
        decreases handles.len() - i,
    {
        if i < 0 || i >= handles.len() {
            None
        } else if self.touches_spec(handles[i].1, sp) {
            Some(handles[i].0)
        } else {
            self.first_touched(handles, i + 1, sp)
        }
    }

    /// The handle of `geom` that the pointer at the screen position `sp` touches.
    pub open spec fn handle_at_spec(self, geom: Geometry<S>, sp: (S, S)) -> Option<Handle> {
        self.first_touched(handles_of(geom), 0, sp)
    }

    /// The handle of `geom` that the pointer at the screen position `sp` touches,
    /// the first in the order of [`shape_handles`].
    pub fn handle_at(&self, geom: &Geometry<S>, sp: (S, S)) -> (r: Option<Handle>)
        ensures
            r == self.handle_at_spec(*geom, sp),
    {
        let handles = shape_handles(geom);
        let mut i: usize = 0;
        while i < handles.len()
            invariant
                handles@ == handles_of(*geom),
                i <= handles@.len(),
                self.handle_at_spec(*geom, sp) == self.first_touched(handles@, i as int, sp),
            decreases handles@.len() - i,
        {
            let (handle, p) = handles[i];
            if self.touches(p, sp) {
                return Some(handle);
            }
            i = i + 1;
        }
        None
    }
}

/// The bounds of a shape that is resized by its box.
pub open spec fn bounds_of<S: Scalar>(geom: Geometry<S>) -> Option<(S, S, S, S)> {
    match geom {
        Geometry::Circle { .. } => None,
        _ => Some(geom.extent_spec()),
    }
}

/// The bounds `(min x, min y, max x, max y)` of a shape that is resized by its
/// box; a circle is not.
pub fn shape_bounds<S: Scalar>(geom: &Geometry<S>) -> (r: Option<(S, S, S, S)>)
    ensures
        r == bounds_of(*geom),
{
    match *geom {
        Geometry::Circle { .. } => None,
        _ => Some(geom.extent()),
    }
}

/// The middle of two numbers.
pub open spec fn middle_spec<S: Scalar>(a: S, b: S) -> S {
    a.plus_spec(b).times_spec(half_spec::<S>())
}

/// The middle of two numbers.
fn middle<S: Scalar>(a: S, b: S) -> (r: S)
    ensures
        r == middle_spec(a, b),
{
    a.plus(b).times(half::<S>())
}

/// The resize handles of a shape with their image points: four on the rim of a
/// circle, else those on the box, row by row from the top left.
pub open spec fn handles_of<S: Scalar>(geom: Geometry<S>) -> Seq<(Handle, (S, S))> {
    match geom {
        Geometry::Circle { cx, cy, r } => seq![
            (Handle::Radius, (cx.plus_spec(r), cy)),
            (Handle::Radius, (cx.minus_spec(r), cy)),
            (Handle::Radius, (cx, cy.plus_spec(r))),
            (Handle::Radius, (cx, cy.minus_spec(r))),
        ],
        _ => {
            let (minx, miny, maxx, maxy) = geom.extent_spec();
            let midx = middle_spec(minx, maxx);
            let midy = middle_spec(miny, maxy);
            seq![
                (Handle::Box { hx: (-1) as i8, vy: (-1) as i8 }, (minx, miny)),
                (Handle::Box { hx: 0, vy: (-1) as i8 }, (midx, miny)),
                (Handle::Box { hx: 1, vy: (-1) as i8 }, (maxx, miny)),
                (Handle::Box { hx: (-1) as i8, vy: 0 }, (minx, midy)),
                (Handle::Box { hx: 1, vy: 0 }, (maxx, midy)),
                (Handle::Box { hx: (-1) as i8, vy: 1 }, (minx, maxy)),
                (Handle::Box { hx: 0, vy: 1 }, (midx, maxy)),
                (Handle::Box { hx: 1, vy: 1 }, (maxx, maxy)),
            ]
        },
    }
}

/// Image-space positions of every resize handle for a geometry.
pub fn shape_handles<S: Scalar>(geom: &Geometry<S>) -> (r: Vec<(Handle, (S, S))>)
    ensures
        r@ == handles_of(*geom),
{
    let mut out: Vec<(Handle, (S, S))> = Vec::new();
    match *geom {
        Geometry::Circle { cx, cy, r } => {
            out.push((Handle::Radius, (cx.plus(r), cy)));
            out.push((Handle::Radius, (cx.minus(r), cy)));
            out.push((Handle::Radius, (cx, cy.plus(r))));
            out.push((Handle::Radius, (cx, cy.minus(r))));
        },
        _ => {
            let (minx, miny, maxx, maxy) = geom.extent();
            let midx = middle(minx, maxx);
            let midy = middle(miny, maxy);
            out.push((Handle::Box { hx: -1, vy: -1 }, (minx, miny)));
            out.push((Handle::Box { hx: 0, vy: -1 }, (midx, miny)));
            out.push((Handle::Box { hx: 1, vy: -1 }, (maxx, miny)));
            out.push((Handle::Box { hx: -1, vy: 0 }, (minx, midy)));
            out.push((Handle::Box { hx: 1, vy: 0 }, (maxx, midy)));
            out.push((Handle::Box { hx: -1, vy: 1 }, (minx, maxy)));
            out.push((Handle::Box { hx: 0, vy: 1 }, (midx, maxy)));
            out.push((Handle::Box { hx: 1, vy: 1 }, (maxx, maxy)));
        },
    }
    assert(out@ =~= handles_of(*geom));
    out
}

/// The shape that dragging a handle to the image point `p` makes.
pub open spec fn resized<S: Scalar>(geom: Geometry<S>, handle: Handle, p: (S, S)) -> Geometry<S> {
    match handle {
        Handle::Radius => match geom {
            Geometry::Circle { cx, cy, .. } => Geometry::Circle {
                cx,
                cy,
                r: distance_spec((cx, cy), p).larger_spec(half_spec::<S>()),
            },
            _ => geom,
        },
        Handle::Box { hx, vy } => {
            let e = geom.extent_spec();
            let minx = if hx == -1 { p.0 } else { e.0 };
            let miny = if vy == -1 { p.1 } else { e.1 };
            let maxx = if hx == 1 { p.0 } else { e.2 };
            let maxy = if vy == 1 { p.1 } else { e.3 };
            let x0 = minx.smaller_spec(maxx);
            let x1 = minx.larger_spec(maxx);
            let y0 = miny.smaller_spec(maxy);
            let y1 = miny.larger_spec(maxy);
            match geom {
                Geometry::Rect { .. } => Geometry::Rect { x0, y0, x1, y1 },
                Geometry::Ellipse { .. } => Geometry::Ellipse {
                    cx: middle_spec(x0, x1),
                    cy: middle_spec(y0, y1),
                    rx: x1.minus_spec(x0).times_spec(half_spec::<S>()),
                    ry: y1.minus_spec(y0).times_spec(half_spec::<S>()),
                },
                Geometry::Circle { .. } => geom,
            }
        },
    }
}

/// Drags a handle to the image point `p`. A box may be pulled through itself;
/// a circle keeps a radius of at least half a pixel. A handle that the shape
/// does not have changes nothing.
pub fn resize_geom<S: Scalar>(geom: &mut Geometry<S>, handle: Handle, p: (S, S))
    ensures
        *final(geom) == resized(*old(geom), handle, p),
{
    match handle {
        Handle::Radius => {
            if let Geometry::Circle { cx, cy, .. } = *geom {
                *geom = Geometry::Circle { cx, cy, r: distance((cx, cy), p).larger(half::<S>()) };
            }
        },
        Handle::Box { hx, vy } => {
            if let Some((left, top, right, bottom)) = shape_bounds(&*geom) {
                let minx = if hx == -1 { p.0 } else { left };
                let miny = if vy == -1 { p.1 } else { top };
                let maxx = if hx == 1 { p.0 } else { right };
                let maxy = if vy == 1 { p.1 } else { bottom };
                let x0 = minx.smaller(maxx);
                let x1 = minx.larger(maxx);
                let y0 = miny.smaller(maxy);
                let y1 = miny.larger(maxy);
                let shaped = match *geom {
                    Geometry::Rect { .. } => Geometry::Rect { x0, y0, x1, y1 },
                    Geometry::Ellipse { .. } => Geometry::Ellipse {
                        cx: middle(x0, x1),
                        cy: middle(y0, y1),
                        rx: x1.minus(x0).times(half::<S>()),
                        ry: y1.minus(y0).times(half::<S>()),
                    },
                    other => other,
                };
                *geom = shaped;
            }
        },
    }
}

/// The pointer's appearance over a handle: along the axis that it moves, and
/// along the diagonal over a corner.
pub open spec fn icon_of(handle: Handle) -> CursorIcon {
    match handle {
        Handle::Radius => CursorIcon::ResizeHorizontal,
        Handle::Box { hx, vy } => if hx == 0 {
            CursorIcon::ResizeVertical
        } else if vy == 0 {
            CursorIcon::ResizeHorizontal
        } else if hx == vy {
            CursorIcon::ResizeNwSe
        } else {
            CursorIcon::ResizeNeSw
        },
    }
}

/// The pointer's appearance over a handle.
pub fn cursor_for_handle(handle: Handle) -> (r: CursorIcon)
    ensures
        r == icon_of(handle),
{
    match handle {
        Handle::Radius => CursorIcon::ResizeHorizontal,
        Handle::Box { hx, vy } => {
            if hx == 0 {
                CursorIcon::ResizeVertical
            } else if vy == 0 {
                CursorIcon::ResizeHorizontal
            } else if hx == vy {
                CursorIcon::ResizeNwSe
            } else {
                CursorIcon::ResizeNeSw
            }
        },
    }
}

/// The numbers by which a region is edited in the side panel.
#[derive(Clone, Copy, Debug)]
pub enum Fields<S> {
    Rect { x: S, y: S, width: S, height: S },
    Ellipse { cx: S, cy: S, rx: S, ry: S },
    Circle { cx: S, cy: S, r: S },
}

/// The numbers that the side panel shows for a shape.
pub open spec fn fields_of<S: Scalar>(geom: Geometry<S>) -> Fields<S> {
    match geom {
        Geometry::Rect { x0, y0, x1, y1 } => Fields::Rect {
            x: x0.smaller_spec(x1),
            y: y0.smaller_spec(y1),
            width: x1.minus_spec(x0).magnitude_spec(),
            height: y1.minus_spec(y0).magnitude_spec(),
        },
        Geometry::Ellipse { cx, cy, rx, ry } => Fields::Ellipse { cx, cy, rx, ry },
        Geometry::Circle { cx, cy, r } => Fields::Circle { cx, cy, r },
    }
}

/// The numbers that the side panel shows for a shape.
pub fn edit_geometry<S: Scalar>(geom: &Geometry<S>) -> (r: Fields<S>)
    ensures
        r == fields_of(*geom),
{
    match *geom {
        Geometry::Rect { x0, y0, x1, y1 } => Fields::Rect {
            x: x0.smaller(x1),
            y: y0.smaller(y1),
            width: x1.minus(x0).magnitude(),
            height: y1.minus(y0).magnitude(),
        },
        Geometry::Ellipse { cx, cy, rx, ry } => Fields::Ellipse { cx, cy, rx, ry },
        Geometry::Circle { cx, cy, r } => Fields::Circle { cx, cy, r },
    }
}

/// The shape with the given numbers; a size below zero counts as zero.
pub open spec fn shape_of<S: Scalar>(fields: Fields<S>) -> Geometry<S> {
    let zero = S::of_count_spec(0);
    match fields {
        Fields::Rect { x, y, width, height } => Geometry::Rect {
            x0: x,
            y0: y,
            x1: x.plus_spec(width.larger_spec(zero)),
            y1: y.plus_spec(height.larger_spec(zero)),
        },
        Fields::Ellipse { cx, cy, rx, ry } => Geometry::Ellipse {
            cx,
            cy,
            rx: rx.larger_spec(zero),
            ry: ry.larger_spec(zero),
        },
        Fields::Circle { cx, cy, r } => Geometry::Circle { cx, cy, r: r.larger_spec(zero) },
    }
}

/// The shape with the given numbers; a size below zero counts as zero.
pub fn apply_fields<S: Scalar>(fields: &Fields<S>) -> (r: Geometry<S>)
    ensures
        r == shape_of(*fields),
{
    let zero = S::of_count(0);
    match *fields {
        Fields::Rect { x, y, width, height } => Geometry::Rect {
            x0: x,
            y0: y,
            x1: x.plus(width.larger(zero)),
            y1: y.plus(height.larger(zero)),
        },
        Fields::Ellipse { cx, cy, rx, ry } => Geometry::Ellipse {
            cx,
            cy,
            rx: rx.larger(zero),
            ry: ry.larger(zero),
        },
        Fields::Circle { cx, cy, r } => Geometry::Circle { cx, cy, r: r.larger(zero) },
    }
}

} // verus!
