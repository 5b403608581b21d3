//! The regions of interest as an editable list: selecting, drawing, moving,
//! resizing, deleting and undoing.
//!
//! [`EditorView`] is the editor's state as mathematics sees it, and holds one
//! specification function per operation. The executable [`Editor`] is proved to
//! do what those say.

use vstd::prelude::*;

use crate::editor_laws::{
    clear_keeps_wf, click_keeps_wf, delete_keeps_wf, drag_end_keeps_wf, drag_keeps_wf, drag_start_keeps_wf,
    interaction_keeps_wf, panel_keeps_wf, place_is_right, reshape_keeps_wf, snapshot_keeps_wf,
    undo_keeps_wf,
};
use crate::handles::{
    apply_fields, cursor_for_handle, icon_of, resize_geom, resized, shape_of, CursorIcon, Fields,
    Handle, Placement,
};
use crate::roi::{distance, distance_spec, Geometry, Tool};
use crate::scalar::Scalar;

verus! {

/// How many snapshots can be undone.
pub const UNDO_DEPTH: usize = 24;

/// One region of interest in the selection.
#[derive(Clone, Copy, Debug)]
pub struct Roi<S> {
    pub id: u32,
    pub geom: Geometry<S>,
    /// `true` adds to the selection, `false` carves it out.
    pub additive: bool,
}

impl<S: Scalar> Roi<S> {
    /// The name of the region's kind of shape.
    pub open spec fn kind_spec(self) -> Seq<char> {
        match self.geom {
            Geometry::Rect { .. } => "Rectangle"@,
            Geometry::Ellipse { .. } => "Ellipse"@,
            Geometry::Circle { .. } => "Circle"@,
        }
    }

    /// The name of the region's kind of shape.
    pub fn kind(&self) -> (r: &'static str)
        ensures
            r@ == self.kind_spec(),
    {
        match self.geom {
            Geometry::Rect { .. } => "Rectangle",
            Geometry::Ellipse { .. } => "Ellipse",
            Geometry::Circle { .. } => "Circle",
        }
    }
}

/// What the pointer and the keyboard did over the image since the last frame.
/// Positions are screen positions.
#[derive(Clone, Copy, Debug)]
pub struct PointerReport<S> {
    /// Where the pointer hovers, if it is over the image.
    pub hover: Option<(S, S)>,
    /// Where the pointer is while it interacts with the image.
    pub pointer: Option<(S, S)>,
    /// Where the button was pressed.
    pub press: Option<(S, S)>,
    /// A click without a drag.
    pub clicked: bool,
    pub drag_started: bool,
    pub dragged: bool,
    pub drag_stopped: bool,
    /// `Delete` or `Backspace` was pressed.
    pub delete_key: bool,
    /// The keyboard is taken by a text field.
    pub typing: bool,
}

/// What was done in one row of the panel that lists the regions.
#[derive(Clone, Copy, Debug)]
pub struct RowAction<S> {
    /// The row's name was clicked.
    pub select: bool,
    /// The sign was clicked.
    pub toggle: bool,
    /// The delete button was clicked.
    pub delete: bool,
    /// The numbers, where one was changed.
    pub edit: Option<Fields<S>>,
}

/// The regions and everything that editing them needs to know.
pub struct Editor<S> {
    /// The regions, in the order in which they apply.
    pub rois: Vec<Roi<S>>,
    pub next_id: u32,
    pub selected: Option<u32>,
    /// Earlier states of `rois`, oldest first.
    pub snapshots: Vec<Vec<Roi<S>>>,
    pub tool: Tool,
    /// New regions carve out of the selection instead of adding to it.
    pub subtract: bool,
    pub drawing: bool,
    pub moving: bool,
    pub resizing: Option<Handle>,
    /// A snapshot was taken for the current drag.
    pub drag_changed: bool,
    pub move_last: Option<(S, S)>,
    pub drag_start: Option<(S, S)>,
    /// The picture of the mask is out of date.
    pub mask_dirty: bool,
}

/// The state of an [`Editor`].
#[verifier::ext_equal]
pub ghost struct EditorView<S> {
    pub rois: Seq<Roi<S>>,
    pub next_id: u32,
    pub selected: Option<u32>,
    pub snapshots: Seq<Seq<Roi<S>>>,
    pub tool: Tool,
    pub subtract: bool,
    pub drawing: bool,
    pub moving: bool,
    pub resizing: Option<Handle>,
    pub drag_changed: bool,
    pub move_last: Option<(S, S)>,
    pub drag_start: Option<(S, S)>,
    pub mask_dirty: bool,
}

/// A region of the list has the given id.
pub open spec fn has_id<S>(rois: Seq<Roi<S>>, id: u32) -> bool {
    exists|i: int| 0 <= i < rois.len() && (#[trigger] rois[i]).id == id
}

/// The ids of the list are positive, below `next_id`, and no two are equal.
pub open spec fn ids_ok<S>(rois: Seq<Roi<S>>, next_id: u32) -> bool {
    &&& forall|i: int| 0 <= i < rois.len() ==> 1 <= (#[trigger] rois[i]).id < next_id
    &&& forall|i: int, j: int|
        0 <= i < j < rois.len() ==> (#[trigger] rois[i]).id != (#[trigger] rois[j]).id
}

/// The place of the first region, from the `i`-th on, with the given id.
pub open spec fn place_from<S>(rois: Seq<Roi<S>>, id: u32, i: int) -> Option<int>
    decreases rois.len() - i,
{
    if i < 0 || i >= rois.len() {
        None
    } else if rois[i].id == id {
        Some(i)
    } else {
        place_from(rois, id, i + 1)
    }
}

/// The place of the first region with the given id.
pub open spec fn place_of<S>(rois: Seq<Roi<S>>, id: u32) -> Option<int> {
    place_from(rois, id, 0)
}

/// The place of the selected region.
pub open spec fn selected_place<S>(rois: Seq<Roi<S>>, selected: Option<u32>) -> Option<int> {
    match selected {
        Some(id) => place_of(rois, id),
        None => None,
    }
}

/// The list without the regions that have the given id.
pub open spec fn without_id<S>(rois: Seq<Roi<S>>, id: u32) -> Seq<Roi<S>> {
    rois.filter(|r: Roi<S>| r.id != id)
}

/// The id of the last region in the list that contains the point.
pub open spec fn topmost<S: Scalar>(rois: Seq<Roi<S>>, p: (S, S)) -> Option<u32>
    decreases rois.len(),
{
    if rois.len() == 0 {
        None
    } else if rois.last().geom.contains_spec(p.0, p.1) {
        Some(rois.last().id)
    } else {
        topmost(rois.drop_last(), p)
    }
}

/// The first of two optional points that is there.
pub open spec fn either<S>(a: Option<(S, S)>, b: (S, S)) -> (S, S) {
    match a {
        Some(p) => p,
        None => b,
    }
}

/// A row of the panel applied to its region.
pub open spec fn row_applied<S: Scalar>(
    roi: Roi<S>,
    row: RowAction<S>,
    selected: Option<u32>,
) -> Roi<S> {
    Roi {
        id: roi.id,
        additive: if row.toggle {
            !roi.additive
        } else {
            roi.additive
        },
        geom: if selected == Some(roi.id) && row.edit is Some {
            shape_of(row.edit->0)
        } else {
            roi.geom
        },
    }
}

/// The panel's rows applied to the regions.
pub open spec fn rows_applied<S: Scalar>(
    rois: Seq<Roi<S>>,
    rows: Seq<RowAction<S>>,
    selected: Option<u32>,
) -> Seq<Roi<S>> {
    Seq::new(rois.len(), |i: int| row_applied(rois[i], rows[i], selected))
}

/// The row changes how its region appears in the mask.
pub open spec fn row_changes<S>(roi: Roi<S>, row: RowAction<S>, selected: Option<u32>) -> bool {
    row.toggle || selected == Some(roi.id) && row.edit is Some
}

/// The id of the last of the first `n` rows whose name was clicked, or what was selected.
pub open spec fn last_select<S>(
    rois: Seq<Roi<S>>,
    rows: Seq<RowAction<S>>,
    selected: Option<u32>,
    n: int,
) -> Option<u32>
    decreases n,
{
    if n <= 0 {
        selected
    } else if rows[n - 1].select {
        Some(rois[n - 1].id)
    } else {
        last_select(rois, rows, selected, n - 1)
    }
}

/// The id of the last of the first `n` rows whose delete button was clicked.
pub open spec fn last_delete<S>(rois: Seq<Roi<S>>, rows: Seq<RowAction<S>>, n: int) -> Option<u32>
    decreases n,
{
    if n <= 0 {
        None
    } else if rows[n - 1].delete {
        Some(rois[n - 1].id)
    } else {
        last_delete(rois, rows, n - 1)
    }
}

impl<S: Scalar> EditorView<S> {
    /// Ids are unique and below `next_id`, in the list and in every snapshot; at
    /// most [`UNDO_DEPTH`] snapshots are kept; what is selected is in the list.
    pub open spec fn wf(self) -> bool {
        &&& self.next_id >= 1
        &&& ids_ok(self.rois, self.next_id)
        &&& forall|k: int|
            0 <= k < self.snapshots.len() ==> ids_ok(#[trigger] self.snapshots[k], self.next_id)
        &&& self.snapshots.len() <= UNDO_DEPTH
        &&& self.selected matches Some(id) ==> has_id(self.rois, id)
    }

    /// Nothing drawn, nothing selected, nothing to undo.
    pub open spec fn started() -> EditorView<S> {
        EditorView {
            rois: Seq::empty(),
            next_id: 1,
            selected: None,
            snapshots: Seq::empty(),
            tool: Tool::Rectangle,
            subtract: false,
            drawing: false,
            moving: false,
            resizing: None,
            drag_changed: false,
            move_last: None,
            drag_start: None,
            mask_dirty: false,
        }
    }

    /// The regions dropped for a new image, ids counted from 1 again, and any
    /// drag broken off.
    pub open spec fn emptied(self) -> EditorView<S> {
        EditorView {
            rois: Seq::empty(),
            next_id: 1,
            selected: None,
            snapshots: Seq::empty(),
            drawing: false,
            moving: false,
            resizing: None,
            mask_dirty: true,
            ..self
        }
    }

    /// A snapshot taken, the oldest dropped beyond the depth.
    pub open spec fn snapshotted(self) -> EditorView<S> {
        let all = self.snapshots.push(self.rois);
        EditorView {
            snapshots: if all.len() > UNDO_DEPTH {
                all.drop_first()
            } else {
                all
            },
            ..self
        }
    }

    /// The last snapshot put back.
    pub open spec fn undone(self) -> EditorView<S> {
        if self.snapshots.len() == 0 {
            self
        } else {
            EditorView {
                rois: self.snapshots.last(),
                snapshots: self.snapshots.drop_last(),
                selected: match self.selected {
                    Some(id) => if has_id(self.snapshots.last(), id) {
                        Some(id)
                    } else {
                        None
                    },
                    None => None,
                },
                mask_dirty: true,
                ..self
            }
        }
    }

    /// All regions removed.
    pub open spec fn cleared(self) -> EditorView<S> {
        if self.rois.len() == 0 {
            self
        } else {
            EditorView {
                rois: Seq::empty(),
                selected: None,
                mask_dirty: true,
                ..self.snapshotted()
            }
        }
    }

    /// The selected region removed.
    pub open spec fn deleted(self) -> EditorView<S> {
        match self.selected {
            Some(id) => EditorView {
                rois: without_id(self.rois, id),
                selected: None,
                mask_dirty: true,
                ..self.snapshotted()
            },
            None => self,
        }
    }

    /// The shape of the selected region.
    pub open spec fn selected_geom_spec(self) -> Option<Geometry<S>> {
        match selected_place(self.rois, self.selected) {
            Some(i) => Some(self.rois[i].geom),
            None => None,
        }
    }

    /// The selected region with another shape, where a region is selected.
    pub open spec fn reshaped(self, geom: Geometry<S>) -> EditorView<S> {
        match selected_place(self.rois, self.selected) {
            Some(i) => EditorView {
                rois: self.rois.update(
                    i,
                    Roi { id: self.rois[i].id, geom, additive: self.rois[i].additive },
                ),
                mask_dirty: true,
                ..self
            },
            None => self,
        }
    }

    /// A click without a drag: the topmost region under it is selected, or none.
    pub open spec fn clicked(self, p: Option<(S, S)>) -> EditorView<S> {
        match p {
            Some(p) => EditorView { selected: topmost(self.rois, p), ..self },
            None => self,
        }
    }

    /// The start of a move of the selected region.
    pub open spec fn move_begun(self, at: (S, S)) -> EditorView<S> {
        EditorView { moving: true, move_last: Some(at), ..self }
    }

    /// The start of a new region, which is selected.
    pub open spec fn draw_begun(self, start: (S, S)) -> EditorView<S> {
        let e = self.snapshotted();
        EditorView {
            drag_changed: true,
            next_id: (self.next_id + 1) as u32,
            rois: self.rois.push(
                Roi {
                    id: self.next_id,
                    geom: Geometry::from_drag_spec(self.tool, start, start),
                    additive: !self.subtract,
                },
            ),
            selected: Some(self.next_id),
            drawing: true,
            drag_start: Some(start),
            mask_dirty: true,
            ..e
        }
    }

    /// The start of a drag at the screen position `press`, with the pointer now
    /// at the image point `cur`: it takes a handle of the selected region, else
    /// moves that region if it began inside it, else moves the topmost region
    /// under it, else draws a new one.
    pub open spec fn drag_begun(
        self,
        place: Placement<S>,
        press: Option<(S, S)>,
        cur: Option<(S, S)>,
    ) -> EditorView<S> {
        let e = EditorView { drag_changed: false, ..self };
        match press {
            None => e,
            Some(sp) => {
                let start = place.to_img_spec(sp);
                let handle = match e.selected_geom_spec() {
                    Some(g) => place.handle_at_spec(g, sp),
                    None => None,
                };
                let inside = match e.selected_geom_spec() {
                    Some(g) => g.contains_spec(start.0, start.1),
                    None => false,
                };
                if handle is Some {
                    EditorView { resizing: handle, ..e }
                } else if inside {
                    e.move_begun(either(cur, start))
                } else if topmost(e.rois, start) is Some {
                    EditorView { selected: topmost(e.rois, start), ..e }.move_begun(
                        either(cur, start),
                    )
                } else {
                    e.draw_begun(start)
                }
            },
        }
    }

    /// A snapshot at the first movement of a move or a resize.
    pub open spec fn drag_noted(self) -> EditorView<S> {
        if (self.moving || self.resizing is Some) && !self.drag_changed {
            EditorView { drag_changed: true, ..self.snapshotted() }
        } else {
            self
        }
    }

    /// A drag that goes on, with the pointer at the image point `cur`.
    pub open spec fn dragged(self, cur: Option<(S, S)>) -> EditorView<S> {
        let e = self.drag_noted();
        match (e.resizing, cur) {
            (Some(handle), Some(c)) => match e.selected_geom_spec() {
                Some(g) => e.reshaped(resized(g, handle, c)),
                None => e,
            },
            (Some(_), None) => e,
            (None, _) => if e.moving {
                match (e.move_last, cur) {
                    (Some(last), Some(c)) => {
                        let m = match e.selected_geom_spec() {
                            Some(g) => e.reshaped(
                                g.translated(c.0.minus_spec(last.0), c.1.minus_spec(last.1)),
                            ),
                            None => e,
                        };
                        EditorView { move_last: cur, ..m }
                    },
                    _ => e,
                }
            } else if e.drawing {
                match (e.drag_start, cur) {
                    (Some(a), Some(c)) => e.reshaped(Geometry::from_drag_spec(e.tool, a, c)),
                    _ => e,
                }
            } else {
                e
            },
        }
    }

    /// A new region that never grew beyond a click dropped, with its snapshot.
    pub open spec fn draw_dropped(self, cur: Option<(S, S)>) -> EditorView<S> {
        match (self.drag_start, self.selected) {
            (Some(a), Some(id)) => if self.drawing && distance_spec(a, either(cur, a)).below_spec(
                S::of_count_spec(1),
            ) {
                EditorView {
                    rois: without_id(self.rois, id),
                    selected: None,
                    mask_dirty: true,
                    snapshots: if self.snapshots.len() == 0 {
                        self.snapshots
                    } else {
                        self.snapshots.drop_last()
                    },
                    ..self
                }
            } else {
                self
            },
            _ => self,
        }
    }

    /// The end of a drag, with the pointer at the image point `cur`.
    pub open spec fn drag_ended(self, cur: Option<(S, S)>) -> EditorView<S> {
        EditorView {
            drawing: false,
            moving: false,
            resizing: None,
            drag_changed: false,
            move_last: None,
            drag_start: None,
            ..self.draw_dropped(cur)
        }
    }

    /// Everything that the report says of the pointer's buttons.
    pub open spec fn pointed(self, place: Placement<S>, report: PointerReport<S>) -> EditorView<S> {
        let cur = place.to_img_opt_spec(report.pointer);
        let press = if report.press is Some {
            report.press
        } else {
            report.pointer
        };
        let a = if report.clicked {
            self.clicked(cur)
        } else {
            self
        };
        let b = if report.drag_started {
            a.drag_begun(place, press, cur)
        } else {
            a
        };
        let c = if report.dragged {
            b.dragged(cur)
        } else {
            b
        };
        if report.drag_stopped {
            c.drag_ended(cur)
        } else {
            c
        }
    }

    /// The pointer's appearance while it hovers.
    pub open spec fn icon(self, place: Placement<S>, hover: Option<(S, S)>) -> Option<CursorIcon> {
        match (hover, self.selected_geom_spec()) {
            (Some(hp), Some(g)) => match place.handle_at_spec(g, hp) {
                Some(handle) => Some(icon_of(handle)),
                None => {
                    let p = place.to_img_spec(hp);
                    if g.contains_spec(p.0, p.1) {
                        Some(CursorIcon::Grab)
                    } else {
                        None
                    }
                },
            },
            _ => None,
        }
    }

    /// Everything that the report says.
    pub open spec fn interacted(
        self,
        place: Placement<S>,
        report: PointerReport<S>,
    ) -> EditorView<S> {
        let e = self.pointed(place, report);
        if e.selected is Some && !report.typing && report.delete_key {
            e.deleted()
        } else {
            e
        }
    }

    /// What was done in the rows of the panel: signs toggled and numbers edited,
    /// then a row selected, then a region deleted.
    pub open spec fn paneled(self, rows: Seq<RowAction<S>>) -> EditorView<S> {
        let n = self.rois.len() as int;
        let edited = EditorView {
            rois: rows_applied(self.rois, rows, self.selected),
            selected: last_select(self.rois, rows, self.selected, n),
            ..self
        };
        let changed = exists|i: int|
            0 <= i < n && #[trigger] row_changes(self.rois[i], rows[i], self.selected);
        match last_delete(self.rois, rows, n) {
            Some(id) => EditorView {
                rois: without_id(edited.rois, id),
                selected: if edited.selected == Some(id) {
                    None
                } else {
                    edited.selected
                },
                mask_dirty: true,
                ..edited.snapshotted()
            },
            None => EditorView { mask_dirty: changed || self.mask_dirty, ..edited },
        }
    }
}

/// A copy of a list of regions.
fn copied<S: Scalar>(rois: &Vec<Roi<S>>) -> (r: Vec<Roi<S>>)
    ensures
        r@ == rois@,
{
    let mut out: Vec<Roi<S>> = Vec::new();
    let mut i: usize = 0;
    while i < rois.len()
        invariant
            i <= rois@.len(),
            out@ == rois@.take(i as int),
        decreases rois@.len() - i,
    {
        out.push(rois[i]);
        i = i + 1;
        assert(out@ =~= rois@.take(i as int));
    }
    assert(rois@.take(i as int) =~= rois@);
    out
}

/// The place of the first region with the given id.
fn find_place<S: Scalar>(rois: &Vec<Roi<S>>, id: u32) -> (r: Option<usize>)
    ensures
        match r {
            Some(i) => i < rois@.len() && place_of(rois@, id) == Some(i as int),
            None => place_of(rois@, id) is None,
        },
{
    let mut i: usize = 0;
    while i < rois.len()
        invariant
            i <= rois@.len(),
            place_of(rois@, id) == place_from(rois@, id, i as int),
        decreases rois@.len() - i,
    {
        if rois[i].id == id {
            return Some(i);
        }
        i = i + 1;
    }
    None
}

/// The list without the regions that have the given id.
fn removed<S: Scalar>(rois: &Vec<Roi<S>>, id: u32) -> (r: Vec<Roi<S>>)
    ensures
        r@ == without_id(rois@, id),
{
    let mut out: Vec<Roi<S>> = Vec::new();
    let mut i: usize = 0;
    let ghost keep = |r: Roi<S>| r.id != id;
    proof {
        reveal(Seq::filter);
        assert(rois@.take(0).filter(keep) =~= Seq::<Roi<S>>::empty());
    }
    while i < rois.len()
        invariant
            i <= rois@.len(),
            keep == |r: Roi<S>| r.id != id,
            out@ == rois@.take(i as int).filter(keep),
        decreases rois@.len() - i,
    {
        proof {
            reveal(Seq::filter);
            assert(rois@.take(i + 1).drop_last() =~= rois@.take(i as int));
        }
        if rois[i].id != id {
            out.push(rois[i]);
        }
        i = i + 1;
    }
    assert(rois@.take(i as int) =~= rois@);
    out
}

impl<S: Scalar> View for Editor<S> {
    type V = EditorView<S>;

    open spec fn view(&self) -> EditorView<S> {
        EditorView {
            rois: self.rois@,
            next_id: self.next_id,
            selected: self.selected,
            snapshots: self.snapshots@.map_values(|v: Vec<Roi<S>>| v@),
            tool: self.tool,
            subtract: self.subtract,
            drawing: self.drawing,
            moving: self.moving,
            resizing: self.resizing,
            drag_changed: self.drag_changed,
            move_last: self.move_last,
            drag_start: self.drag_start,
            mask_dirty: self.mask_dirty,
        }
    }
}

impl<S: Scalar> Editor<S> {
    pub fn new() -> (r: Editor<S>)
        ensures
            r@ == EditorView::<S>::started(),
            r@.wf(),
    {
        let r = Editor {
            rois: Vec::new(),
            next_id: 1,
            selected: None,
            snapshots: Vec::new(),
            tool: Tool::Rectangle,
            subtract: false,
            drawing: false,
            moving: false,
            resizing: None,
            drag_changed: false,
            move_last: None,
            drag_start: None,
            mask_dirty: false,
        };
        assert(r@ =~= EditorView::<S>::started());
        r
    }

    /// Drops the regions for a new image.
    pub fn reset(&mut self)
        ensures
            final(self)@ == old(self)@.emptied(),
            final(self)@.wf(),
    {
        self.rois = Vec::new();
        self.next_id = 1;
        self.selected = None;
        self.snapshots = Vec::new();
        self.drawing = false;
        self.moving = false;
        self.resizing = None;
        self.mask_dirty = true;
        assert(self@ =~= old(self)@.emptied());
    }

    /// Takes a snapshot of the regions.
    pub fn push_undo(&mut self)
        ensures
            final(self)@ == old(self)@.snapshotted(),
            old(self)@.wf() ==> final(self)@.wf(),
    {
        proof {
            if self@.wf() {
                snapshot_keeps_wf(self@);
            }
        }
        let snapshot = copied(&self.rois);
        self.snapshots.push(snapshot);
        if self.snapshots.len() > UNDO_DEPTH {
            self.snapshots.remove(0);
        }
        assert(self@ =~= old(self)@.snapshotted());
    }

    /// Puts the last snapshot back. What is selected stays selected if it is
    /// still there.
    pub fn undo(&mut self)
        ensures
            final(self)@ == old(self)@.undone(),
            old(self)@.wf() ==> final(self)@.wf(),
    {
        proof {
            if self@.wf() {
                undo_keeps_wf(self@);
            }
        }
        let ghost before = self@;
        match self.snapshots.pop() {
            None => {},
            Some(prev) => {
                assert(prev@ == before.snapshots.last());
                assert(self@.snapshots =~= before.snapshots.drop_last());
                if let Some(id) = self.selected {
                    proof {
                        place_is_right(prev@, id, 0);
                    }
                    if find_place(&prev, id).is_none() {
                        self.selected = None;
                    }
                }
                self.rois = prev;
                self.mask_dirty = true;
            },
        }
        assert(self@ =~= before.undone());
    }

    /// Removes all regions.
    pub fn clear_rois(&mut self)
        ensures
            final(self)@ == old(self)@.cleared(),
            old(self)@.wf() ==> final(self)@.wf(),
    {
        proof {
            if self@.wf() {
                clear_keeps_wf(self@);
            }
        }
        let ghost before = self@;
        if self.rois.len() == 0 {
            return ;
        }
        self.push_undo();
        self.rois = Vec::new();
        self.selected = None;
        self.mask_dirty = true;
        assert(self@ =~= before.cleared());
    }

    /// Removes the selected region.
    pub fn delete_selected(&mut self)
        ensures
            final(self)@ == old(self)@.deleted(),
            old(self)@.wf() ==> final(self)@.wf(),
    {
        proof {
            if self@.wf() {
                delete_keeps_wf(self@);
            }
        }
        let ghost before = self@;
        if let Some(id) = self.selected {
            self.push_undo();
            self.rois = removed(&self.rois, id);
            self.selected = None;
            self.mask_dirty = true;
            assert(self@ =~= before.deleted());
        }
    }

    /// The shape of the selected region.
    pub fn selected_geom(&self) -> (r: Option<Geometry<S>>)
        ensures
            r == self@.selected_geom_spec(),
    {
        match self.selected {
            None => None,
            Some(id) => match find_place(&self.rois, id) {
                Some(i) => Some(self.rois[i].geom),
                None => None,
            },
        }
    }

    /// Gives the selected region another shape, where a region is selected.
    pub fn set_selected_geom(&mut self, geom: Geometry<S>)
        ensures
            final(self)@ == old(self)@.reshaped(geom),
            old(self)@.wf() ==> final(self)@.wf(),
    {
        proof {
            if self@.wf() {
                reshape_keeps_wf(self@, geom);
            }
        }
        let ghost before = self@;
        if let Some(id) = self.selected {
            if let Some(i) = find_place(&self.rois, id) {
                let roi = Roi { id: self.rois[i].id, geom, additive: self.rois[i].additive };
                self.rois.set(i, roi);
                self.mask_dirty = true;
            }
        }
        assert(self@ =~= before.reshaped(geom));
    }

    /// Topmost (last-drawn) region containing an image point.
    pub fn roi_at(&self, p: (S, S)) -> (r: Option<u32>)
        ensures
            r == topmost(self@.rois, p),
    {
        let mut n: usize = self.rois.len();
        assert(self.rois@.take(n as int) =~= self.rois@);
        while n > 0
            invariant
                n <= self.rois@.len(),
                topmost(self.rois@, p) == topmost(self.rois@.take(n as int), p),
            decreases n,
        {
            assert(self.rois@.take(n as int).drop_last() =~= self.rois@.take(n - 1));
            if self.rois[n - 1].geom.contains(p.0, p.1) {
                return Some(self.rois[n - 1].id);
            }
            n = n - 1;
        }
        None
    }

    /// Selects the topmost region at an image point, or none.
    pub fn click(&mut self, p: Option<(S, S)>)
        ensures
            final(self)@ == old(self)@.clicked(p),
            old(self)@.wf() ==> final(self)@.wf(),
    {
        proof {
            if self@.wf() {
                click_keeps_wf(self@, p);
            }
        }
        let ghost before = self@;
        if let Some(q) = p {
            self.selected = self.roi_at(q);
        }
        assert(self@ =~= before.clicked(p));
    }

    /// Starts a drag; see [`EditorView::drag_begun`].
    pub fn begin_drag(&mut self, place: &Placement<S>, press: Option<(S, S)>, cur: Option<(S, S)>)
        requires
            old(self).next_id < u32::MAX,
        ensures
            final(self)@ == old(self)@.drag_begun(*place, press, cur),
            old(self)@.wf() ==> final(self)@.wf(),
    {
        proof {
            if self@.wf() {
                drag_start_keeps_wf(self@, *place, press, cur);
            }
        }
        let ghost before = self@;
        self.drag_changed = false;
        let ghost noted = self@;
        assert(noted == (EditorView { drag_changed: false, ..before }));
        if let Some(sp) = press {
            let start = place.to_img(sp);
            let at = match cur {
                Some(c) => c,
                None => start,
            };
            if let Some(g) = self.selected_geom() {
                if let Some(handle) = place.handle_at(&g, sp) {
                    self.resizing = Some(handle);
                    assert(self@ =~= before.drag_begun(*place, press, cur));
                    return ;
                } else if g.contains(start.0, start.1) {
                    self.moving = true;
                    self.move_last = Some(at);
                    assert(self@ =~= before.drag_begun(*place, press, cur));
                    return ;
                }
            }
            if let Some(id) = self.roi_at(start) {
                self.selected = Some(id);
                self.moving = true;
                self.move_last = Some(at);
                assert(self@ =~= before.drag_begun(*place, press, cur));
                return ;
            }
            self.push_undo();
            self.drag_changed = true;
            let id: u32 = self.next_id;
            self.next_id = id + 1;
            let geom = Geometry::from_drag(self.tool, start, start);
            self.rois.push(Roi { id, geom, additive: !self.subtract });
            self.selected = Some(id);
            self.drawing = true;
            self.drag_start = Some(start);
            self.mask_dirty = true;
            assert(self@ =~= noted.draw_begun(start));
        }
        assert(self@ =~= before.drag_begun(*place, press, cur));
    }

    /// Goes on with a drag; see [`EditorView::dragged`].
    pub fn drag(&mut self, cur: Option<(S, S)>)
        ensures
            final(self)@ == old(self)@.dragged(cur),
            old(self)@.wf() ==> final(self)@.wf(),
    {
        proof {
            if self@.wf() {
                drag_keeps_wf(self@, cur);
            }
        }
        let ghost before = self@;
        if (self.moving || self.resizing.is_some()) && !self.drag_changed {
            self.push_undo();
            self.drag_changed = true;
        }
        let ghost noted = self@;
        assert(noted =~= before.drag_noted());
        if let Some(handle) = self.resizing {
            if let Some(c) = cur {
                if let Some(g) = self.selected_geom() {
                    let mut shaped = g;
                    resize_geom(&mut shaped, handle, c);
                    self.set_selected_geom(shaped);
                }
            }
        } else if self.moving {
            if let Some(last) = self.move_last {
                if let Some(c) = cur {
                    if let Some(g) = self.selected_geom() {
                        let mut shaped = g;
                        shaped.translate(c.0.minus(last.0), c.1.minus(last.1));
                        self.set_selected_geom(shaped);
                    }
                    self.move_last = cur;
                }
            }
        } else if self.drawing {
            if let Some(a) = self.drag_start {
                if let Some(c) = cur {
                    let shaped = Geometry::from_drag(self.tool, a, c);
                    self.set_selected_geom(shaped);
                }
            }
        }
        assert(self@ =~= before.dragged(cur));
    }

    /// Ends a drag; see [`EditorView::drag_ended`].
    pub fn end_drag(&mut self, cur: Option<(S, S)>)
        ensures
            final(self)@ == old(self)@.drag_ended(cur),
            old(self)@.wf() ==> final(self)@.wf(),
    {
        proof {
            if self@.wf() {
                drag_end_keeps_wf(self@, cur);
            }
        }
        let ghost before = self@;
        if self.drawing {
            if let Some(a) = self.drag_start {
                let c = match cur {
                    Some(c) => c,
                    None => a,
                };
                if distance(a, c).below(S::of_count(1)) {
                    if let Some(id) = self.selected {
                        self.rois = removed(&self.rois, id);
                        self.selected = None;
                        self.mask_dirty = true;
                        let ghost kept = self@.snapshots;
                        let _ = self.snapshots.pop();
                        assert(self@.snapshots =~= if kept.len() == 0 {
                            kept
                        } else {
                            kept.drop_last()
                        });
                    }
                }
            }
        }
        assert(self@ =~= before.draw_dropped(cur));
        self.drawing = false;
        self.moving = false;
        self.resizing = None;
        self.drag_changed = false;
        self.move_last = None;
        self.drag_start = None;
        assert(self@ =~= before.drag_ended(cur));
    }

    /// The pointer's appearance while it hovers: over a handle of the selected
    /// region, or inside that region.
    pub fn hover_icon(&self, place: &Placement<S>, hover: Option<(S, S)>) -> (r: Option<CursorIcon>)
        ensures
            r == self@.icon(*place, hover),
    {
        if let Some(hp) = hover {
            if let Some(g) = self.selected_geom() {
                if let Some(handle) = place.handle_at(&g, hp) {
                    return Some(cursor_for_handle(handle));
                }
                let p = place.to_img(hp);
                if g.contains(p.0, p.1) {
                    return Some(CursorIcon::Grab);
                }
            }
        }
        None
    }

    /// Does what the pointer's buttons ask for; see [`EditorView::pointed`].
    pub fn point(&mut self, place: &Placement<S>, report: &PointerReport<S>)
        requires
            report.drag_started ==> old(self).next_id < u32::MAX,
        ensures
            final(self)@ == old(self)@.pointed(*place, *report),
    {
        let cur = place.to_img_opt(report.pointer);
        let press = if report.press.is_some() {
            report.press
        } else {
            report.pointer
        };
        if report.clicked {
            self.click(cur);
        }
        if report.drag_started {
            self.begin_drag(place, press, cur);
        }
        if report.dragged {
            self.drag(cur);
        }
        if report.drag_stopped {
            self.end_drag(cur);
        }
    }

    /// Does what the pointer and the keyboard ask for, and returns the pointer's
    /// new appearance. A drag takes a handle, moves a region or draws a new one.
    pub fn handle_interaction(&mut self, place: &Placement<S>, report: &PointerReport<S>) -> (r:
        Option<CursorIcon>)
        requires
            report.drag_started ==> old(self).next_id < u32::MAX,
        ensures
            final(self)@ == old(self)@.interacted(*place, *report),
            r == if report.dragged {
                None
            } else {
                old(self)@.pointed(*place, *report).icon(*place, report.hover)
            },
            old(self)@.wf() ==> final(self)@.wf(),
    {
        proof {
            if self@.wf() {
                interaction_keeps_wf(self@, *place, *report);
            }
        }
        self.point(place, report);
        let icon = if report.dragged {
            None
        } else {
            self.hover_icon(place, report.hover)
        };
        if self.selected.is_some() && !report.typing && report.delete_key {
            self.delete_selected();
        }
        icon
    }

    /// Does what was asked for in the rows of the panel, one row per region.
    pub fn roi_panel(&mut self, rows: &Vec<RowAction<S>>)
        requires
            rows@.len() == old(self)@.rois.len(),
        ensures
            final(self)@ == old(self)@.paneled(rows@),
            old(self)@.wf() ==> final(self)@.wf(),
    {
        proof {
            if self@.wf() {
                panel_keeps_wf(self@, rows@);
            }
        }
        let ghost before = self@;
        let selected = self.selected;
        let mut new_selected = self.selected;
        let mut to_remove: Option<u32> = None;
        let mut changed = false;
        let mut i: usize = 0;
        while i < self.rois.len()
            invariant
                rows@.len() == before.rois.len(),
                selected == before.selected,
                i <= before.rois.len(),
                self@ == (EditorView { rois: self.rois@, ..before }),
                self.rois@.len() == before.rois.len(),
                forall|k: int|
                    0 <= k < i ==> #[trigger] self.rois@[k] == row_applied(
                        before.rois[k],
                        rows@[k],
                        selected,
                    ),
                forall|k: int|
                    i <= k < before.rois.len() ==> #[trigger] self.rois@[k] == before.rois[k],
                new_selected == last_select(before.rois, rows@, selected, i as int),
                to_remove == last_delete(before.rois, rows@, i as int),
                changed <==> exists|k: int|
                    0 <= k < i && #[trigger] row_changes(before.rois[k], rows@[k], selected),
            decreases before.rois.len() - i,
        {
            let row = rows[i];
            let roi = self.rois[i];
            let is_selected = match selected {
                Some(id) => id == roi.id,
                None => false,
            };
            let ghost was_changed = changed;
            let mut additive = roi.additive;
            let mut geom = roi.geom;
            if row.select {
                new_selected = Some(roi.id);
            }
            if row.toggle {
                additive = !additive;
                changed = true;
            }
            if row.delete {
                to_remove = Some(roi.id);
            }
            if is_selected {
                if let Some(fields) = row.edit {
                    geom = apply_fields(&fields);
                    changed = true;
                }
            }
            let shaped = Roi { id: roi.id, geom, additive };
            self.rois.set(i, shaped);
            proof {
                let changes = row_changes(before.rois[i as int], rows@[i as int], selected);
                assert(changed == (was_changed || changes));
                assert(shaped == row_applied(before.rois[i as int], rows@[i as int], selected));
                if was_changed {
                    let k = choose|k: int|
                        0 <= k < i && #[trigger] row_changes(before.rois[k], rows@[k], selected);
                    assert(0 <= k < i + 1 && row_changes(before.rois[k], rows@[k], selected));
                }
            }
            i = i + 1;
        }
        assert(self.rois@ =~= rows_applied(before.rois, rows@, selected));
        self.selected = new_selected;
        if let Some(id) = to_remove {
            self.push_undo();
            self.rois = removed(&self.rois, id);
            let gone = match self.selected {
                Some(s) => s == id,
                None => false,
            };
            if gone {
                self.selected = None;
            }
            changed = true;
        }
        if changed {
            self.mask_dirty = true;
        }
        assert(self@ =~= before.paneled(rows@));
    }
}

} // verus!
